//! The tools that a reader calls: from their arguments to a request, and from
//! what came back to the text of the answer.

use vstd::prelude::*;
use vstd::string::*;

use crate::backend::Request;
use crate::loki::query::{invalid_level_message, LogRequest};
use crate::loki::{
    all_entries, newest_first, newest_lines, shown_lines, LokiClient, StreamResult,
};
use crate::map::TextMap;
use crate::prometheus::query::{window, MetricRequest};
use crate::prometheus::{listed, needle_of, MetricMeta, PromSeries, PrometheusClient};
use crate::text::{each, each_pair, join, joined, optional};
use crate::time::{
    clock, in_four_digit_years, is_clock_reading, time_pattern, time_text, utc_text, Timestamp,
};

verus! {

/// How many seconds before now a span of time begins that is not given in
/// full: the minutes to look back, or else thirty days.
pub open spec fn lookback_seconds(lookback_minutes: Option<u32>) -> int {
    match lookback_minutes {
        Some(minutes) => minutes * 60,
        None => 30int * 86_400,
    }
}

/// The span of time that is asked for: the given start and end where both are
/// given, or else the time up to now.
pub open spec fn window_at(
    now: Timestamp,
    start: Option<String>,
    end: Option<String>,
    lookback_minutes: Option<u32>,
) -> (Seq<char>, Seq<char>) {
    match (start, end) {
        (Some(s), Some(e)) => (s@, e@),
        _ => (
            utc_text(
                now.secs - lookback_seconds(lookback_minutes),
                now.nanos as int,
                time_pattern(),
            ),
            utc_text(now.secs as int, now.nanos as int, time_pattern()),
        ),
    }
}

/// The span of time that is asked for, at a given time. A span that is not
/// given in full is exactly as long as the time to look back; there is no
/// longest span, and one that is given in full is taken as it is.
pub fn time_window_at(
    now: Timestamp,
    start: Option<String>,
    end: Option<String>,
    lookback_minutes: Option<u32>,
) -> (span: (String, String))
    requires
        is_clock_reading(now),
    ensures
        (span.0@, span.1@) == window_at(now, start, end, lookback_minutes),
        (start is None || end is None) && in_four_digit_years(now.secs as int)
            && in_four_digit_years(now.secs - lookback_seconds(lookback_minutes)) ==> window(
            span.0@,
            span.1@,
        ) == Some(lookback_seconds(lookback_minutes)),
{
    match (start, end) {
        (Some(s), Some(e)) => (s, e),
        _ => {
            let seconds: i64 = match lookback_minutes {
                Some(minutes) => minutes as i64 * 60,
                None => 30 * 86_400,
            };
            let first = Timestamp { secs: now.secs - seconds, nanos: now.nanos };
            (time_text(first), time_text(now))
        },
    }
}

/// The span of time that is asked for, as the clock stands.
pub fn resolve_time_window(
    start: Option<String>,
    end: Option<String>,
    lookback_minutes: Option<u32>,
) -> (span: (String, String))
    ensures
        exists|now: Timestamp|
            is_clock_reading(now) && (span.0@, span.1@) == #[trigger] window_at(
                now,
                start,
                end,
                lookback_minutes,
            ) && ((start is None || end is None) && in_four_digit_years(now.secs as int)
                && in_four_digit_years(now.secs - lookback_seconds(lookback_minutes)) ==> window(
                span.0@,
                span.1@,
            ) == Some(lookback_seconds(lookback_minutes))),
{
    time_window_at(clock(), start, end, lookback_minutes)
}

/// The arguments of a query for logs.
#[derive(Debug)]
pub struct QueryLogsParams {
    pub service: String,
    pub lookback_minutes: Option<u32>,
    pub start: Option<String>,
    pub end: Option<String>,
    pub limit: Option<u32>,
    pub level: Option<String>,
    pub search: Option<String>,
    pub regex: Option<bool>,
}

/// The arguments of a query for metrics.
#[derive(Debug)]
pub struct QueryMetricsParams {
    pub promql: String,
    pub lookback_minutes: Option<u32>,
    pub start: Option<String>,
    pub end: Option<String>,
    pub step: Option<u32>,
    pub instant: Option<bool>,
}

/// The arguments of a list of metrics.
#[derive(Debug)]
pub struct ListMetricsParams {
    pub filter: Option<String>,
}

/// The tools, with the clients that they ask.
#[derive(Debug)]
pub struct MiruServer {
    pub loki: LokiClient,
    pub prometheus: Option<PrometheusClient>,
}

/// An error of `serde_json`.
#[verifier::external_type_specification]
#[verifier::external_body]
pub struct ExternalJsonError(serde_json::Error);

/// The character of a hexadecimal digit, with small letters.
pub open spec fn hex_digit(digit: int) -> char {
    if digit < 10 {
        (48 + digit) as char
    } else {
        (87 + digit) as char
    }
}

/// A character inside a JSON string: a quotation mark, a backslash and the
/// control characters are escaped, anything else stands for itself.
pub open spec fn json_char(c: char) -> Seq<char> {
    if c == '"' || c == '\\' {
        seq!['\\', c]
    } else if c as int == 8 {
        seq!['\\', 'b']
    } else if c == '\t' {
        seq!['\\', 't']
    } else if c == '\n' {
        seq!['\\', 'n']
    } else if c as int == 12 {
        seq!['\\', 'f']
    } else if c == '\r' {
        seq!['\\', 'r']
    } else if c as int <= 31 {
        seq!['\\', 'u', '0', '0', hex_digit(c as int / 16), hex_digit(c as int % 16)]
    } else {
        seq![c]
    }
}

/// The characters of a text inside a JSON string.
pub open spec fn json_chars(text: Seq<char>) -> Seq<char>
    decreases text.len(),
{
    if text.len() == 0 {
        Seq::empty()
    } else {
        json_chars(text.drop_last()) + json_char(text.last())
    }
}

/// A text as a JSON string.
pub open spec fn json_string(text: Seq<char>) -> Seq<char> {
    "\""@ + json_chars(text) + "\""@
}

/// A list of texts as a JSON array of strings, without spaces.
pub open spec fn json_array(items: Seq<Seq<char>>) -> Seq<char> {
    "["@ + joined(Seq::new(items.len(), |i: int| json_string(items[i])), ","@) + "]"@
}

/// `serde_json::to_string` of a list of texts: a JSON array of strings, in
/// their order and without spaces. Only a writer that fails or a value that is
/// no JSON makes it fail, and here the writer is memory and the values are
/// strings.
#[verifier::external_body]
fn json_text(items: &Vec<String>) -> (result: Result<String, serde_json::Error>)
    ensures
        result is Ok,
        result->Ok_0@ == json_array(each(items@)),
{
    serde_json::to_string(items)
}

/// `<serde_json::Error as Display>::fmt`: the error in words, of which
/// nothing is claimed.
#[verifier::external_body]
fn json_error_text(error: &serde_json::Error) -> (text: String) {
    error.to_string()
}

/// The names of the services as the answer shows them: a JSON array.
pub fn services_text(services: &Vec<String>) -> (result: Result<String, String>)
    ensures
        result is Ok,
        result->Ok_0@ == json_array(each(services@)),
{
    match json_text(services) {
        Ok(text) => Ok(text),
        Err(error) => Err(json_error_text(&error)),
    }
}

/// Lines one below the other, or a remark where there are none.
pub open spec fn lines_or(lines: Seq<Seq<char>>, remark: Seq<char>) -> Seq<char> {
    if lines.len() == 0 {
        remark
    } else {
        joined(lines, "\n"@)
    }
}

fn join_or(lines: &Vec<String>, remark: &str) -> (text: String)
    ensures
        text@ == lines_or(each(lines@), remark@),
{
    assert(each(lines@).len() == lines@.len());
    if lines.is_empty() {
        remark.to_owned()
    } else {
        join(lines, "\n")
    }
}

/// The answer to a query for logs: the lines of all streams, the newest first.
pub fn logs_answer(streams: &Vec<StreamResult>) -> (text: String)
    ensures
        text@ == lines_or(
            shown_lines(newest_first(all_entries(streams@))),
            "No logs found in this time window."@,
        ),
{
    join_or(&newest_lines(streams), "No logs found in this time window.")
}

/// The answer to a list of metrics: those whose names hold the filter.
pub fn metrics_answer(
    client: &PrometheusClient,
    data: &TextMap<Vec<MetricMeta>>,
    p: &ListMetricsParams,
) -> (text: String)
    ensures
        text@ == lines_or(listed(data@, needle_of(optional(p.filter))), "No metrics found."@),
{
    let lines = match &p.filter {
        Some(filter) => client.listed_metrics(data, Some(filter.as_str())),
        None => client.listed_metrics(data, None),
    };
    join_or(&lines, "No metrics found.")
}

/// The answer to a query for metrics: single values for a vector, series over
/// time for anything else.
pub fn series_answer(
    client: &PrometheusClient,
    result_type: &str,
    result: &Vec<PromSeries>,
) -> (text: String)
    ensures
        text@ == lines_or(client.shown(result_type@, result@), "No data for this query."@),
{
    join_or(&client.shaped(result_type, result), "No data for this query.")
}

/// A switch that is off unless it is set.
pub open spec fn is_on(switch: Option<bool>) -> bool {
    switch == Some(true)
}

/// The log request that the arguments stand for at a given time.
pub open spec fn is_log_request(p: QueryLogsParams, now: Timestamp, req: LogRequest) -> bool {
    &&& req.service == p.service
    &&& (req.start@, req.end@) == window_at(now, p.start, p.end, p.lookback_minutes)
    &&& req.level == p.level
    &&& req.search == p.search
    &&& req.search_is_regex == is_on(p.regex)
    &&& req.limit == p.limit
}

/// The metric request that the arguments stand for at a given time.
pub open spec fn is_metric_request(
    p: QueryMetricsParams,
    now: Timestamp,
    req: MetricRequest,
) -> bool {
    &&& req.promql == p.promql
    &&& (req.start@, req.end@) == window_at(now, p.start, p.end, p.lookback_minutes)
    &&& req.step == p.step
    &&& req.instant == is_on(p.instant)
}

/// What is said where metrics are asked for and no Prometheus is configured.
pub open spec fn not_configured() -> Seq<char> {
    "prometheus is not configured"@
}

impl MiruServer {
    /// The result is what a log request leads to: its request to Loki, or
    /// word that the level is not a level name, in which case nothing is sent.
    pub open spec fn logs_outcome(&self, req: LogRequest, result: Result<Request, String>) -> bool {
        match result {
            Ok(request) => {
                &&& self.loki.query_of(req).level_is_valid()
                &&& request.url@ == self.loki.endpoint.base_url@ + "/loki/api/v1/query_range"@
                &&& each_pair(request.params@) == self.loki.query_of(req).params()
                &&& request.credentials@ == self.loki.endpoint.auth.credentials()
            },
            Err(message) => !self.loki.query_of(req).level_is_valid() && req.level is Some
                && message@ == invalid_level_message(req.level->0@),
        }
    }

    /// The result is what a metric request leads to: its request to
    /// Prometheus, or word that there is none.
    pub open spec fn metrics_outcome(
        &self,
        req: MetricRequest,
        result: Result<Request, String>,
    ) -> bool {
        match (self.prometheus, result) {
            (Some(client), Ok(request)) => {
                &&& request.url@ == client.endpoint.base_url@ + if req.instant {
                    "/api/v1/query"@
                } else {
                    "/api/v1/query_range"@
                }
                &&& each_pair(request.params@) == req.params(
                    req.step_seconds(client.target_points, client.min_step_seconds),
                )
                &&& request.credentials@ == client.endpoint.auth.credentials()
            },
            (None, Err(message)) => message@ == not_configured(),
            _ => false,
        }
    }

    /// The request for the names of the services.
    pub fn list_services(&self) -> (request: Request)
        ensures
            exists|now: Timestamp|
                is_clock_reading(now) && #[trigger] self.loki.asks_for_services(request, now),
    {
        self.loki.list_services()
    }

    /// The request for log lines, as the clock stands.
    pub fn query_logs(&self, p: QueryLogsParams) -> (result: Result<Request, String>)
        ensures
            exists|now: Timestamp, req: LogRequest|
                is_clock_reading(now) && #[trigger] is_log_request(p, now, req)
                    && self.logs_outcome(req, result),
    {
        self.query_logs_at(p, clock())
    }

    /// The request for log lines, at a given time.
    pub fn query_logs_at(&self, p: QueryLogsParams, now: Timestamp) -> (result: Result<
        Request,
        String,
    >)
        requires
            is_clock_reading(now),
        ensures
            exists|req: LogRequest| #[trigger]
                is_log_request(p, now, req) && self.logs_outcome(req, result),
    {
        let (start, end) = time_window_at(now, p.start, p.end, p.lookback_minutes);
        let req = LogRequest {
            service: p.service,
            start,
            end,
            level: p.level,
            search: p.search,
            search_is_regex: p.regex.unwrap_or(false),
            limit: p.limit,
        };
        let ghost asked = req;
        assert(is_log_request(p, now, asked));
        match self.loki.query_logs(req) {
            Ok(request) => Ok(request),
            Err(error) => Err(error.message()),
        }
    }

    /// The client of Prometheus, or word that there is none.
    pub fn prometheus_client(&self) -> (result: Result<&PrometheusClient, String>)
        ensures
            match (self.prometheus, result) {
                (Some(client), Ok(found)) => *found == client,
                (None, Err(message)) => message@ == not_configured(),
                _ => false,
            },
    {
        match &self.prometheus {
            Some(client) => Ok(client),
            None => Err("prometheus is not configured".to_owned()),
        }
    }

    /// The request for the metrics that there are, where Prometheus is configured.
    pub fn list_metrics(&self) -> (result: Result<Request, String>)
        ensures
            match (self.prometheus, result) {
                (Some(client), Ok(request)) => {
                    &&& request.url@ == client.endpoint.base_url@ + "/api/v1/metadata"@
                    &&& request.params@ == Seq::<(String, String)>::empty()
                    &&& request.credentials@ == client.endpoint.auth.credentials()
                },
                (None, Err(message)) => message@ == not_configured(),
                _ => false,
            },
    {
        match self.prometheus_client() {
            Ok(client) => Ok(client.list_metrics()),
            Err(message) => Err(message),
        }
    }

    /// The request for series or values, as the clock stands.
    pub fn query_metrics(&self, p: QueryMetricsParams) -> (result: Result<Request, String>)
        ensures
            exists|now: Timestamp, req: MetricRequest|
                is_clock_reading(now) && #[trigger] is_metric_request(p, now, req)
                    && self.metrics_outcome(req, result),
    {
        self.query_metrics_at(p, clock())
    }

    /// The request for series or values, at a given time.
    pub fn query_metrics_at(&self, p: QueryMetricsParams, now: Timestamp) -> (result: Result<
        Request,
        String,
    >)
        requires
            is_clock_reading(now),
        ensures
            exists|req: MetricRequest| #[trigger]
                is_metric_request(p, now, req) && self.metrics_outcome(req, result),
    {
        let (start, end) = time_window_at(now, p.start, p.end, p.lookback_minutes);
        let req = MetricRequest {
            promql: p.promql,
            start,
            end,
            step: p.step,
            instant: p.instant.unwrap_or(false),
        };
        assert(is_metric_request(p, now, req));
        match self.prometheus_client() {
            Ok(client) => Ok(client.query_metrics(&req)),
            Err(message) => Err(message),
        }
    }
}

} // verus!
