//! Laws of the tools: from their arguments to a request, and from what came
//! back to the answer.

use vstd::prelude::*;

use crate::backend::Request;
use crate::loki::query::{invalid_level_text, LogRequest, QueryError};
use crate::loki::{newest_lines, LokiClient, StreamResult};
use crate::map::TextMap;
use crate::prometheus::query::MetricRequest;
use crate::prometheus::{MetricMeta, PromSeries, PrometheusClient};
use crate::server::{
    is_log_request, is_metric_request, json_chars, json_string, logs_answer, lookback_seconds,
    metrics_answer, resolve_time_window, series_answer, services_text, time_window_at, window_at,
    ListMetricsParams, MiruServer, QueryLogsParams, QueryMetricsParams,
};
use crate::text::{debug_text, each, each_pair, join, joined};
use crate::time::{in_four_digit_years, is_clock_reading, utc_text, Timestamp};

verus! {

/// A span is taken as it is where both of its ends are given. Otherwise it ends
/// now and begins as many minutes before as are asked for, or thirty days.
pub proof fn spans_end_now(
    now: Timestamp,
    start: Option<String>,
    end: Option<String>,
    lookback_minutes: Option<u32>,
    span: (String, String),
)
    requires
        call_ensures(time_window_at, (now, start, end, lookback_minutes), span),
    ensures
        start is Some && end is Some ==> span.0@ == start->0@ && span.1@ == end->0@,
        start is None || end is None ==> {
            let back: int = match lookback_minutes {
                Some(minutes) => 60 * minutes,
                None => 2_592_000,
            };
            &&& span.0@ == utc_text(now.secs - back, now.nanos as int, "%Y-%m-%dT%H:%M:%SZ"@)
            &&& span.1@ == utc_text(now.secs as int, now.nanos as int, "%Y-%m-%dT%H:%M:%SZ"@)
            &&& -62_167_219_200 <= now.secs - back && now.secs <= 253_402_300_799 && now.secs
                >= 0 ==> crate::prometheus::query::window(span.0@, span.1@) == Some(back)
        },
{
}

/// The tool for logs asks Loki for what its arguments say, in the span that
/// they stand for: the request is the client's, and a level that the client
/// refuses is told.
pub proof fn log_tool_asks_loki(
    server: &MiruServer,
    p: QueryLogsParams,
    now: Timestamp,
    span: (String, String),
    req: LogRequest,
    asked: Result<Request, QueryError>,
    result: Result<Request, String>,
)
    requires
        call_ensures(time_window_at, (now, p.start, p.end, p.lookback_minutes), span),
        req.service == p.service,
        req.start@ == span.0@,
        req.end@ == span.1@,
        req.level == p.level,
        req.search == p.search,
        req.search_is_regex <==> p.regex == Some(true),
        req.limit == p.limit,
        call_ensures(LokiClient::query_logs, (&server.loki, req), asked),
        call_ensures(MiruServer::query_logs_at, (server, p, now), result),
    ensures
        result is Ok <==> asked is Ok,
        result matches Ok(request) ==> {
            &&& request.url@ == asked->Ok_0.url@
            &&& request.credentials@ == asked->Ok_0.credentials@
            &&& request.params@.len() == asked->Ok_0.params@.len()
            &&& forall|i: int|
                0 <= i < request.params@.len() ==> (#[trigger] request.params@[i]).0@
                    == asked->Ok_0.params@[i].0@ && request.params@[i].1@
                    == asked->Ok_0.params@[i].1@
        },
        result matches Err(message) ==> p.level is Some && message@ == "invalid level "@
            + debug_text(p.level->0@)
            + ": use a single level name like error, warn, crit, or trace"@,
{
    let other = choose|other: LogRequest| #[trigger]
        is_log_request(p, now, other) && server.logs_outcome(other, result);
    let (x, y) = (server.loki.query_of(req), server.loki.query_of(other));
    assert(x.level_is_valid() == y.level_is_valid());
    assert(x.filtered() == y.filtered());
    assert(x.params() =~= y.params());
    if let Ok(request) = result {
        let (a, b) = (each_pair(request.params@), each_pair(asked->Ok_0.params@));
        assert(a == b);
        assert(a.len() == request.params@.len() && b.len() == asked->Ok_0.params@.len());
        assert forall|i: int| 0 <= i < request.params@.len() implies (
        #[trigger] request.params@[i]).0@ == asked->Ok_0.params@[i].0@ && request.params@[i].1@
            == asked->Ok_0.params@[i].1@ by {
            assert(a[i] == b[i]);
        }
    }
}

/// As the clock stands, a span that is not given in full ends at some reading
/// of it.
pub proof fn spans_as_the_clock_stands(
    start: Option<String>,
    end: Option<String>,
    lookback_minutes: Option<u32>,
    span: (String, String),
) -> (now: Timestamp)
    requires
        call_ensures(resolve_time_window, (start, end, lookback_minutes), span),
    ensures
        0 <= now.secs,
        now.nanos < 1_000_000_000,
        start is Some && end is Some ==> span.0@ == start->0@ && span.1@ == end->0@,
        start is None || end is None ==> {
            let back: int = match lookback_minutes {
                Some(minutes) => 60 * minutes,
                None => 2_592_000,
            };
            &&& span.0@ == utc_text(now.secs - back, now.nanos as int, "%Y-%m-%dT%H:%M:%SZ"@)
            &&& span.1@ == utc_text(now.secs as int, now.nanos as int, "%Y-%m-%dT%H:%M:%SZ"@)
            &&& -62_167_219_200 <= now.secs - back && now.secs <= 253_402_300_799
                ==> crate::prometheus::query::window(span.0@, span.1@) == Some(back)
        },
{
    choose|now: Timestamp|
        is_clock_reading(now) && (span.0@, span.1@) == #[trigger] window_at(
            now,
            start,
            end,
            lookback_minutes,
        ) && ((start is None || end is None) && in_four_digit_years(now.secs as int)
            && in_four_digit_years(now.secs - lookback_seconds(lookback_minutes))
            ==> crate::prometheus::query::window(span.0@, span.1@) == Some(
            lookback_seconds(lookback_minutes),
        ))
}

/// The ends of a span that is given in full, or that ends at a time.
pub open spec fn spans(
    req_start: Seq<char>,
    req_end: Seq<char>,
    now: Timestamp,
    start: Option<String>,
    end: Option<String>,
    lookback_minutes: Option<u32>,
) -> bool {
    let back: int = match lookback_minutes {
        Some(minutes) => 60 * minutes,
        None => 2_592_000,
    };
    if start is Some && end is Some {
        req_start == start->0@ && req_end == end->0@
    } else {
        &&& req_start == utc_text(now.secs - back, now.nanos as int, "%Y-%m-%dT%H:%M:%SZ"@)
        &&& req_end == utc_text(now.secs as int, now.nanos as int, "%Y-%m-%dT%H:%M:%SZ"@)
    }
}

/// As the clock stands, the tool for logs asks Loki for what its arguments say
/// at some reading of it: whatever the client gives for that request is what
/// the tool gives.
pub proof fn log_tool_as_the_clock_stands(
    server: &MiruServer,
    p: QueryLogsParams,
    result: Result<Request, String>,
) -> (asked: (Timestamp, LogRequest))
    requires
        call_ensures(MiruServer::query_logs, (server, p), result),
    ensures
        ({
            let (now, req) = asked;
            &&& 0 <= now.secs && now.nanos < 1_000_000_000
            &&& req.service == p.service
            &&& spans(req.start@, req.end@, now, p.start, p.end, p.lookback_minutes)
            &&& req.level == p.level
            &&& req.search == p.search
            &&& req.search_is_regex <==> p.regex == Some(true)
            &&& req.limit == p.limit
            &&& forall|inner: Result<Request, QueryError>|
                #![trigger call_ensures(LokiClient::query_logs, (&server.loki, req), inner)]
                call_ensures(LokiClient::query_logs, (&server.loki, req), inner) ==> {
                    &&& result is Ok <==> inner is Ok
                    &&& result is Ok ==> result->Ok_0.url@ == inner->Ok_0.url@
                        && result->Ok_0.credentials@ == inner->Ok_0.credentials@ && each_pair(
                        result->Ok_0.params@,
                    ) == each_pair(inner->Ok_0.params@)
                }
            &&& result is Err ==> p.level is Some && result->Err_0@ == "invalid level "@
                + debug_text(p.level->0@)
                + ": use a single level name like error, warn, crit, or trace"@
        }),
{
    let (now, req) = choose|now: Timestamp, req: LogRequest|
        is_clock_reading(now) && #[trigger] is_log_request(p, now, req) && server.logs_outcome(
            req,
            result,
        );
    (now, req)
}

/// As the clock stands, the tool for metrics asks Prometheus for what its
/// arguments say at some reading of it.
pub proof fn metric_tool_as_the_clock_stands(
    server: &MiruServer,
    p: QueryMetricsParams,
    client: &PrometheusClient,
    result: Result<Request, String>,
) -> (asked: (Timestamp, MetricRequest))
    requires
        server.prometheus is Some ==> *client == server.prometheus->0,
        call_ensures(MiruServer::query_metrics, (server, p), result),
    ensures
        ({
            let (now, req) = asked;
            &&& 0 <= now.secs && now.nanos < 1_000_000_000
            &&& req.promql == p.promql
            &&& spans(req.start@, req.end@, now, p.start, p.end, p.lookback_minutes)
            &&& req.step == p.step
            &&& req.instant <==> p.instant == Some(true)
            &&& result is Ok <==> server.prometheus is Some
            &&& result is Err ==> result->Err_0@ == "prometheus is not configured"@
            &&& forall|inner: Request|
                #![trigger call_ensures(PrometheusClient::query_metrics, (client, &req), inner)]
                call_ensures(PrometheusClient::query_metrics, (client, &req), inner) ==> result
                    is Ok ==> result->Ok_0.url@ == inner.url@ && result->Ok_0.credentials@
                    == inner.credentials@ && each_pair(result->Ok_0.params@) == each_pair(
                    inner.params@,
                )
        }),
{
    let (now, req) = choose|now: Timestamp, req: MetricRequest|
        is_clock_reading(now) && #[trigger] is_metric_request(p, now, req)
            && server.metrics_outcome(req, result);
    (now, req)
}

/// The tool for services asks as the client does.
pub proof fn service_tool_asks_loki(server: &MiruServer, request: Request) -> (now: Timestamp)
    requires
        call_ensures(MiruServer::list_services, (server,), request),
    ensures
        0 <= now.secs && now.nanos < 1_000_000_000,
        request.url@ == server.loki.endpoint.base_url@ + "/loki/api/v1/label/"@
            + server.loki.service_label@ + "/values"@,
        forall|asked: Request|
            #![trigger call_ensures(LokiClient::list_services_at, (&server.loki, now), asked)]
            call_ensures(LokiClient::list_services_at, (&server.loki, now), asked) ==> {
                &&& asked.url@ == request.url@
                &&& asked.credentials@ == request.credentials@
                &&& each_pair(asked.params@) == each_pair(request.params@)
            },
{
    let now = choose|now: Timestamp|
        is_clock_reading(now) && #[trigger] server.loki.asks_for_services(request, now);
    assert(request.url@ =~= server.loki.endpoint.base_url@ + "/loki/api/v1/label/"@
        + server.loki.service_label@ + "/values"@);
    now
}

/// What is said of a level that is not a level name.
pub proof fn refused_levels_in_words(
    error: &QueryError,
    told: String,
    shown: &str,
    text: String,
)
    requires
        call_ensures(QueryError::message, (error,), told),
        call_ensures(invalid_level_text, (shown,), text),
    ensures
        told@ == "invalid level "@ + debug_text(error->level@)
            + ": use a single level name like error, warn, crit, or trace"@,
        text@ == "invalid level "@ + shown@
            + ": use a single level name like error, warn, crit, or trace"@,
{
}

/// The tool for metrics asks Prometheus for what its arguments say, in the span
/// that they stand for, exactly where there is a Prometheus.
pub proof fn metric_tool_asks_prometheus(
    server: &MiruServer,
    p: QueryMetricsParams,
    now: Timestamp,
    span: (String, String),
    req: &MetricRequest,
    client: &PrometheusClient,
    asked: Request,
    result: Result<Request, String>,
)
    requires
        call_ensures(time_window_at, (now, p.start, p.end, p.lookback_minutes), span),
        req.promql == p.promql,
        req.start@ == span.0@,
        req.end@ == span.1@,
        req.step == p.step,
        req.instant <==> p.instant == Some(true),
        server.prometheus is Some ==> *client == server.prometheus->0,
        call_ensures(PrometheusClient::query_metrics, (client, req), asked),
        call_ensures(MiruServer::query_metrics_at, (server, p, now), result),
    ensures
        result is Ok <==> server.prometheus is Some,
        result matches Err(message) ==> message@ == "prometheus is not configured"@,
        result matches Ok(request) ==> {
            &&& request.url@ == asked.url@
            &&& request.credentials@ == asked.credentials@
            &&& request.params@.len() == asked.params@.len()
            &&& forall|i: int|
                0 <= i < request.params@.len() ==> (#[trigger] request.params@[i]).0@
                    == asked.params@[i].0@ && request.params@[i].1@ == asked.params@[i].1@
        },
{
    let other = choose|other: MetricRequest| #[trigger]
        is_metric_request(p, now, other) && server.metrics_outcome(other, result);
    if let Ok(request) = result {
        let step = req.step_seconds(client.target_points, client.min_step_seconds);
        assert(step == other.step_seconds(client.target_points, client.min_step_seconds));
        assert(req.params(step) =~= other.params(step));
        let (a, b) = (each_pair(request.params@), each_pair(asked.params@));
        assert(a == b);
        assert(a.len() == request.params@.len() && b.len() == asked.params@.len());
        assert forall|i: int| 0 <= i < request.params@.len() implies (
        #[trigger] request.params@[i]).0@ == asked.params@[i].0@ && request.params@[i].1@
            == asked.params@[i].1@ by {
            assert(a[i] == b[i]);
        }
    }
}

/// The tool that lists metrics asks Prometheus, exactly where there is one.
pub proof fn metric_list_asks_prometheus(
    server: &MiruServer,
    client: &PrometheusClient,
    asked: Request,
    found: Result<&PrometheusClient, String>,
    result: Result<Request, String>,
)
    requires
        server.prometheus is Some ==> *client == server.prometheus->0,
        call_ensures(PrometheusClient::list_metrics, (client,), asked),
        call_ensures(MiruServer::prometheus_client, (server,), found),
        call_ensures(MiruServer::list_metrics, (server,), result),
    ensures
        result is Ok <==> server.prometheus is Some,
        found is Ok <==> server.prometheus is Some,
        found matches Ok(c) ==> *c == server.prometheus->0,
        found matches Err(message) ==> message@ == "prometheus is not configured"@,
        result matches Err(message) ==> message@ == "prometheus is not configured"@,
        result matches Ok(request) ==> request.url@ == asked.url@ && request.params@.len() == 0
            && request.credentials@ == asked.credentials@,
{
}

/// The answer to a query for logs is its lines, the newest first, one below the
/// other, or a remark where there are none.
pub proof fn log_answer_is_all_lines(
    streams: &Vec<StreamResult>,
    lines: Vec<String>,
    newline: &str,
    together: String,
    text: String,
)
    requires
        newline@ == "\n"@,
        call_ensures(newest_lines, (streams,), lines),
        call_ensures(join, (&lines, newline), together),
        call_ensures(logs_answer, (streams,), text),
    ensures
        lines@.len() == 0 ==> text@ == "No logs found in this time window."@,
        lines@.len() > 0 ==> text@ == together@,
{
    assert(each(lines@).len() == lines@.len());
}

/// The answer to a list of metrics is what the client lists under the filter,
/// one below the other, or a remark where that is nothing.
pub proof fn metric_answer_is_all_metrics(
    client: &PrometheusClient,
    data: &TextMap<Vec<MetricMeta>>,
    p: &ListMetricsParams,
    filter: Option<&str>,
    lines: Vec<String>,
    newline: &str,
    together: String,
    text: String,
)
    requires
        newline@ == "\n"@,
        filter is Some <==> p.filter is Some,
        filter is Some ==> filter->0@ == p.filter->0@,
        call_ensures(PrometheusClient::listed_metrics, (client, data, filter), lines),
        call_ensures(join, (&lines, newline), together),
        call_ensures(metrics_answer, (client, data, p), text),
    ensures
        lines@.len() == 0 ==> text@ == "No metrics found."@,
        lines@.len() > 0 ==> text@ == together@,
{
    assert(each(lines@).len() == lines@.len());
}

/// The answer to a query for metrics is what the client shows, one below the
/// other, or a remark where that is nothing.
pub proof fn series_answer_is_all_series(
    client: &PrometheusClient,
    result_type: &str,
    result: &Vec<PromSeries>,
    lines: Vec<String>,
    newline: &str,
    together: String,
    text: String,
)
    requires
        newline@ == "\n"@,
        call_ensures(PrometheusClient::shaped, (client, result_type, result), lines),
        call_ensures(join, (&lines, newline), together),
        call_ensures(series_answer, (client, result_type, result), text),
    ensures
        lines@.len() == 0 ==> text@ == "No data for this query."@,
        lines@.len() > 0 ==> text@ == together@,
{
    assert(each(lines@).len() == lines@.len());
}

/// Inside a JSON string a text goes character by character, and a character
/// that is neither a mark, a backslash nor a control character stays.
pub proof fn json_by_parts(a: Seq<char>, b: Seq<char>, c: char)
    ensures
        json_chars(Seq::empty()).len() == 0,
        json_chars(a + b) == json_chars(a) + json_chars(b),
        c as int >= 32 && c != '"' && c != '\\' ==> json_chars(seq![c]) == seq![c],
        c == '"' || c == '\\' ==> json_chars(seq![c]) == seq!['\\', c],
        c as int <= 31 ==> json_chars(seq![c]).len() >= 2 && json_chars(seq![c])[0] == '\\',
    decreases b.len(),
{
    reveal_with_fuel(json_chars, 2);
    assert(seq![c].drop_last() =~= Seq::empty());
    assert(json_chars(seq![c]) =~= crate::server::json_char(c));
    if b.len() == 0 {
        assert(a + b =~= a);
        assert(json_chars(a) + json_chars(b) =~= json_chars(a));
    } else {
        json_by_parts(a, b.drop_last(), c);
        assert((a + b).drop_last() =~= a + b.drop_last());
        assert(json_chars(a + b) =~= json_chars(a) + json_chars(b));
    }
}

/// The services are answered as a JSON array with each name in its place.
pub proof fn services_answer_is_all_services(
    services: &Vec<String>,
    result: Result<String, String>,
)
    requires
        call_ensures(services_text, (services,), result),
    ensures
        result is Ok,
        ({
            let names = Seq::new(
                services@.len(),
                |i: int| "\""@ + json_chars(services@[i]@) + "\""@,
            );
            result->Ok_0@ == "["@ + joined(names, ","@) + "]"@
        }),
{
    let names = Seq::new(services@.len(), |i: int| "\""@ + json_chars(services@[i]@) + "\""@);
    assert(Seq::new(each(services@).len(), |i: int| json_string(each(services@)[i])) =~= names);
}

} // verus!
