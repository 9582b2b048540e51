//! Laws of log queries and of the lines that come back.

use vstd::prelude::*;

use crate::backend::{Auth, Credential, Request};
use crate::loki::query::{
    escape_logql, escaped, is_level, resolve_limit, validate_level, LogQuery, LogRequest,
    QueryError,
};
use crate::loki::{
    all_entries, format_ns_timestamp, log_line, log_lines, newest_first,
    newest_lines, not_older, shown_line, shown_lines, LokiClient, StreamResult,
};
use crate::number::{decimal_text, parse_i64, parsed_i64};
use crate::text::{each, each_pair};
use crate::time::{rfc3339_instant, utc_text, Timestamp};

verus! {

/// Escaping goes character by character: a backslash comes in front of each
/// backslash and each quotation mark, and every other character stays.
pub proof fn escaping_by_parts(a: Seq<char>, b: Seq<char>, c: char)
    ensures
        escaped(Seq::empty()).len() == 0,
        escaped(seq![c]) == if c == '"' || c == '\\' {
            seq!['\\', c]
        } else {
            seq![c]
        },
        escaped(a + b) == escaped(a) + escaped(b),
    decreases a.len(),
{
    reveal_with_fuel(escaped, 2);
    assert(seq![c].drop_first() =~= Seq::empty());
    assert(escaped(seq![c]) =~= if c == '"' || c == '\\' {
        seq!['\\', c]
    } else {
        seq![c]
    });
    if a.len() == 0 {
        assert(a + b =~= b);
        assert(escaped(a) + escaped(b) =~= escaped(b));
    } else {
        escaping_by_parts(a.drop_first(), b, c);
        assert((a + b).drop_first() =~= a.drop_first() + b);
        assert(escaped(a + b) =~= escaped(a) + escaped(b));
    }
}

/// Two texts escaped one behind the other are both escaped together.
pub proof fn escapes_join(
    front: &str,
    behind: &str,
    whole: &str,
    a: String,
    b: String,
    ab: String,
)
    requires
        whole@ == front@ + behind@,
        call_ensures(escape_logql, (front,), a),
        call_ensures(escape_logql, (behind,), b),
        call_ensures(escape_logql, (whole,), ab),
    ensures
        ab@ == a@ + b@,
        a@ == escaped(front@),
        front@.len() <= a@.len() <= 2 * front@.len(),
{
    escaping_by_parts(front@, behind@, 'x');
    lemma_escaped_length(front@);
}

proof fn lemma_escaped_length(text: Seq<char>)
    ensures
        text.len() <= escaped(text).len() <= 2 * text.len(),
    decreases text.len(),
{
    if text.len() > 0 {
        lemma_escaped_length(text.drop_first());
    }
}

/// A level is accepted exactly where it is not empty and has only letters and
/// digits of ASCII, underscores and hyphens; the error names it.
pub proof fn levels_are_words(level: &str, r: Result<(), QueryError>)
    requires
        call_ensures(validate_level, (level,), r),
    ensures
        r is Ok <==> level@.len() > 0 && forall|i: int|
            0 <= i < level@.len() ==> {
                let c = #[trigger] level@[i];
                ('a' <= c && c <= 'z') || ('A' <= c && c <= 'Z') || ('0' <= c && c <= '9') || c
                    == '_' || c == '-'
            },
        r is Err ==> r->Err_0->level@ == level@,
{
    lemma_words(level@);
}

proof fn lemma_words(level: Seq<char>)
    ensures
        is_level(level) <==> level.len() > 0 && forall|i: int|
            0 <= i < level.len() ==> {
                let c = #[trigger] level[i];
                ('a' <= c && c <= 'z') || ('A' <= c && c <= 'Z') || ('0' <= c && c <= '9') || c
                    == '_' || c == '-'
            },
{
    if is_level(level) {
        assert forall|i: int| 0 <= i < level.len() implies {
            let c = #[trigger] level[i];
            ('a' <= c && c <= 'z') || ('A' <= c && c <= 'Z') || ('0' <= c && c <= '9') || c == '_'
                || c == '-'
        } by {
            assert(crate::loki::query::is_level_char(level[i]));
        }
    }
}

/// A query can be written exactly where its level, if it has one, would be
/// accepted by itself; otherwise the error names the level.
pub proof fn only_the_level_can_be_wrong(
    query: &LogQuery,
    r: Result<String, QueryError>,
    params: Result<Vec<(String, String)>, QueryError>,
    level: &str,
    accepted: Result<(), QueryError>,
)
    requires
        call_ensures(LogQuery::to_logql, (query,), r),
        call_ensures(LogQuery::to_params, (query,), params),
        query.level is Some ==> level@ == query.level->0@,
        call_ensures(validate_level, (level,), accepted),
    ensures
        query.level is None ==> r is Ok && params is Ok,
        query.level is Some ==> (r is Ok <==> accepted is Ok) && (params is Ok <==> accepted
            is Ok),
        r is Err ==> query.level is Some && r->Err_0->level@ == query.level->0@,
        params is Err ==> query.level is Some && params->Err_0->level@ == query.level->0@,
{
}

/// Without a level and a search, a query selects the service by its label and
/// asks for nothing else.
pub proof fn plain_query_selects_the_service(query: &LogQuery, text: String)
    requires
        query.level is None,
        query.search is None,
        call_ensures(LogQuery::to_logql, (query,), Ok::<String, QueryError>(text)),
    ensures
        text@ == "{"@ + escaped(query.service_label@) + "=\""@ + escaped(query.service@) + "\"}"@,
{
}

/// A level whose label is known goes into the selector, behind the service: the
/// query is the one without the level, with the label and the level in front
/// of the closing brace.
pub proof fn level_with_a_label_narrows_the_selector(
    query: &LogQuery,
    without: &LogQuery,
    text: String,
    plain: String,
)
    requires
        query.level is Some,
        query.level_label is Some,
        query.search is None,
        without.level is None,
        without.search is None,
        without.service_label@ == query.service_label@,
        without.service@ == query.service@,
        call_ensures(LogQuery::to_logql, (query,), Ok::<String, QueryError>(text)),
        call_ensures(LogQuery::to_logql, (without,), Ok::<String, QueryError>(plain)),
    ensures
        plain@[plain@.len() - 1] == '}',
        text@ == plain@.drop_last() + ", "@ + escaped(query.level_label->0@) + "=\""@ + escaped(
            query.level->0@,
        ) + "\"}"@,
{
    reveal_strlit("\"}");
    reveal_strlit("\", ");
    reveal_strlit(", ");
    plain_query_selects_the_service(without, plain);
    let head = "{"@ + escaped(query.service_label@) + "=\""@ + escaped(query.service@);
    assert(plain@ == head + "\"}"@);
    assert(plain@.drop_last() + ", "@ =~= head + "\", "@);
    assert(text@ == head + "\", "@ + escaped(query.level_label->0@) + "=\""@ + escaped(
        query.level->0@,
    ) + "\"}"@);
}

/// A level without a label goes into a filter behind the query without it: a
/// regex that looks for the word `level`, in whichever case, in front of it.
pub proof fn level_without_a_label_filters_lines(
    query: &LogQuery,
    without: &LogQuery,
    text: String,
    plain: String,
)
    requires
        query.level is Some,
        query.level_label is None,
        query.search is None,
        without.level is None,
        without.search is None,
        without.service_label@ == query.service_label@,
        without.service@ == query.service@,
        call_ensures(LogQuery::to_logql, (query,), Ok::<String, QueryError>(text)),
        call_ensures(LogQuery::to_logql, (without,), Ok::<String, QueryError>(plain)),
    ensures
        text@ == plain@ + " |~ `(?i)level[=:\"]+\\s*"@ + query.level->0@ + "`"@,
{
    plain_query_selects_the_service(without, plain);
}

/// Whatever the level and its label are, a search goes behind the query
/// without it: matched as a regex exactly where it is one, and as plain text
/// exactly where it is not.
pub proof fn search_is_added_behind(
    query: &LogQuery,
    without: &LogQuery,
    text: String,
    plain: String,
)
    requires
        query.search is Some,
        without.search is None,
        without.service_label@ == query.service_label@,
        without.service@ == query.service@,
        without.level == query.level,
        without.level_label == query.level_label,
        call_ensures(LogQuery::to_logql, (query,), Ok::<String, QueryError>(text)),
        call_ensures(LogQuery::to_logql, (without,), Ok::<String, QueryError>(plain)),
    ensures
        query.search_is_regex ==> text@ == plain@ + " |~ \""@ + escaped(query.search->0@)
            + "\""@,
        !query.search_is_regex ==> text@ == plain@ + " |= \""@ + escaped(query.search->0@)
            + "\""@,
        text@.subrange(plain@.len() as int, plain@.len() as int + 4) == if query.search_is_regex {
            " |~ "@
        } else {
            " |= "@
        },
{
    reveal_strlit(" |~ \"");
    reveal_strlit(" |= \"");
    reveal_strlit(" |~ ");
    reveal_strlit(" |= ");
    assert(plain@ == without.filtered());
    assert(plain@ == query.filtered());
    assert(text@.subrange(plain@.len() as int, plain@.len() as int + 4)
        =~= if query.search_is_regex {
        " |~ "@
    } else {
        " |= "@
    });
}

/// The span of time, the limit and the cap do not show in the LogQL.
pub proof fn logql_is_about_lines_only(
    a: &LogQuery,
    b: &LogQuery,
    first: String,
    second: String,
)
    requires
        a.service_label@ == b.service_label@,
        a.service@ == b.service@,
        a.level == b.level,
        a.level_label == b.level_label,
        a.search == b.search,
        a.search_is_regex == b.search_is_regex,
        call_ensures(LogQuery::to_logql, (a,), Ok::<String, QueryError>(first)),
        call_ensures(LogQuery::to_logql, (b,), Ok::<String, QueryError>(second)),
    ensures
        first@ == second@,
{
}

/// The parameters of a range query: the LogQL, the span of time as it was
/// given, the smaller of limit and cap, and the newest lines first.
pub proof fn range_parameters(
    query: &LogQuery,
    text: String,
    params: Vec<(String, String)>,
    limit: u32,
    shown: String,
)
    requires
        call_ensures(LogQuery::to_logql, (query,), Ok::<String, QueryError>(text)),
        call_ensures(
            LogQuery::to_params,
            (query,),
            Ok::<Vec<(String, String)>, QueryError>(params),
        ),
        limit <= query.limit,
        limit <= query.max_limit,
        limit == query.limit || limit == query.max_limit,
        call_ensures(decimal_text, (limit as u64,), shown),
    ensures
        params@.len() == 5,
        params@[0].0@ == "query"@ && params@[0].1@ == text@,
        params@[1].0@ == "start"@ && params@[1].1@ == query.start@,
        params@[2].0@ == "end"@ && params@[2].1@ == query.end@,
        params@[3].0@ == "limit"@ && params@[3].1@ == shown@,
        params@[4].0@ == "direction"@ && params@[4].1@ == "backward"@,
{
    let pairs = each_pair(params@);
    assert(pairs.len() == params@.len());
    assert(pairs[0] == (params@[0].0@, params@[0].1@));
    assert(pairs[1] == (params@[1].0@, params@[1].1@));
    assert(pairs[2] == (params@[2].0@, params@[2].1@));
    assert(pairs[3] == (params@[3].0@, params@[3].1@));
    assert(pairs[4] == (params@[4].0@, params@[4].1@));
}

/// A limit is what was asked for, or else the default, where the cap allows
/// it, and the cap where it does not.
pub proof fn limits_are_granted_up_to_the_cap(
    requested: Option<u32>,
    default_limit: u32,
    max_limit: u32,
    limit: u32,
)
    requires
        call_ensures(resolve_limit, (requested, default_limit, max_limit), limit),
    ensures
        limit <= max_limit,
        requested matches Some(n) ==> limit <= n && (limit == n || limit == max_limit),
        requested is None ==> limit <= default_limit && (limit == default_limit || limit
            == max_limit),
{
}

/// The text of a service request's URL, with the label in it.
pub proof fn services_url_holds_the_label(client: &LokiClient, now: Timestamp, request: Request)
    requires
        call_ensures(LokiClient::list_services_at, (client, now), request),
    ensures
        request.url@ == client.endpoint.base_url@ + "/loki/api/v1/label/"@
            + client.service_label@ + "/values"@,
        request.url@.subrange(
            client.endpoint.base_url@.len() as int + 19,
            request.url@.len() - 7,
        ) == client.service_label@,
{
    reveal_strlit("/loki/api/v1/label/");
    reveal_strlit("/values");
    assert(request.url@ =~= client.endpoint.base_url@ + "/loki/api/v1/label/"@
        + client.service_label@ + "/values"@);
    assert(request.url@.subrange(
        client.endpoint.base_url@.len() as int + 19,
        request.url@.len() - 7,
    ) =~= client.service_label@);
}

/// Clients with the same base and different service labels ask at different
/// URLs, whenever they ask.
pub proof fn labels_lead_to_different_urls(
    a: &LokiClient,
    b: &LokiClient,
    now: Timestamp,
    later: Timestamp,
    first: Request,
    second: Request,
)
    requires
        a.endpoint.base_url@ == b.endpoint.base_url@,
        call_ensures(LokiClient::list_services_at, (a, now), first),
        call_ensures(LokiClient::list_services_at, (b, later), second),
    ensures
        first.url@ == second.url@ <==> a.service_label@ == b.service_label@,
{
    services_url_holds_the_label(a, now, first);
    services_url_holds_the_label(b, later, second);
}

/// Services are asked for from thirty days ago up to now, in nanoseconds since
/// the epoch, with the credentials of the client. A time that 64 bits do not
/// hold is given as zero.
pub proof fn services_of_thirty_days(client: &LokiClient, now: Timestamp, request: Request)
    requires
        call_ensures(LokiClient::list_services_at, (client, now), request),
    ensures
        request.params@.len() == 2,
        request.params@[0].0@ == "start"@,
        request.params@[1].0@ == "end"@,
        ({
            let end = now.secs * 1_000_000_000 + now.nanos;
            let start = end - 2_592_000_000_000_000;
            let limit: int = 0x7fff_ffff_ffff_ffff;
            &&& -limit <= end <= limit ==> parsed_i64(request.params@[1].1@) == Some(end as int)
            &&& end > limit ==> parsed_i64(request.params@[1].1@) == Some(0int)
            &&& -limit <= start <= limit ==> parsed_i64(request.params@[0].1@) == Some(
                start as int,
            )
            &&& start > limit ==> parsed_i64(request.params@[0].1@) == Some(0int)
        }),
        client.endpoint.auth is Anonymous ==> request.credentials@.len() == 0,
        client.endpoint.auth matches Auth::Bearer(t) ==> request.credentials@ == seq![
            Credential::Bearer { token: t },
        ],
        client.endpoint.auth matches Auth::Basic { username: u, password: p }
            ==> request.credentials@ == seq![Credential::Basic { username: u, password: p }],
{
    let pairs = each_pair(request.params@);
    assert(pairs.len() == request.params@.len());
    assert(pairs[0] == (request.params@[0].0@, request.params@[0].1@));
    assert(pairs[1] == (request.params@[1].0@, request.params@[1].1@));
    let end = crate::loki::nanos_or_zero(now.secs as int, now.nanos as int);
    let start = crate::loki::nanos_or_zero(now.secs - 30 * 86_400, now.nanos as int);
    crate::number::decimal_reads_back(end as i64);
    crate::number::decimal_reads_back(start as i64);
}

/// As the clock stands, services are asked for as they are at some reading of
/// it.
pub proof fn services_as_the_clock_stands(client: &LokiClient, request: Request) -> (now: Timestamp)
    requires
        call_ensures(LokiClient::list_services, (client,), request),
    ensures
        0 <= now.secs,
        now.nanos < 1_000_000_000,
        request.url@ == client.endpoint.base_url@ + "/loki/api/v1/label/"@
            + client.service_label@ + "/values"@,
        forall|asked: Request|
            #![trigger call_ensures(LokiClient::list_services_at, (client, now), asked)]
            call_ensures(LokiClient::list_services_at, (client, now), asked) ==> {
                &&& asked.url@ == request.url@
                &&& asked.credentials@ == request.credentials@
                &&& each_pair(asked.params@) == each_pair(request.params@)
            },
{
    let now = choose|now: Timestamp|
        crate::time::is_clock_reading(now) && #[trigger] client.asks_for_services(request, now);
    assert(request.url@ =~= client.endpoint.base_url@ + "/loki/api/v1/label/"@
        + client.service_label@ + "/values"@);
    now
}

/// A log request is sent to the range query of Loki, with the parameters of
/// the query that has the labels of the client, the limit that the client
/// grants, and everything else as it was asked for.
pub proof fn log_requests_become_queries(
    client: &LokiClient,
    req: LogRequest,
    query: &LogQuery,
    limit: u32,
    params: Vec<(String, String)>,
    request: Request,
)
    requires
        call_ensures(resolve_limit, (req.limit, client.default_limit, client.max_limit), limit),
        query.service_label == client.service_label,
        query.service == req.service,
        query.start == req.start,
        query.end == req.end,
        query.limit == limit,
        query.max_limit == client.max_limit,
        query.level == req.level,
        query.level_label == client.level_label,
        query.search == req.search,
        query.search_is_regex == req.search_is_regex,
        call_ensures(
            LogQuery::to_params,
            (query,),
            Ok::<Vec<(String, String)>, QueryError>(params),
        ),
        call_ensures(LokiClient::query_logs, (client, req), Ok::<Request, QueryError>(request)),
    ensures
        request.url@ == client.endpoint.base_url@ + "/loki/api/v1/query_range"@,
        request.params@.len() == params@.len(),
        forall|i: int|
            0 <= i < params@.len() ==> #[trigger] request.params@[i].0@ == params@[i].0@
                && request.params@[i].1@ == params@[i].1@,
        client.endpoint.auth is Anonymous ==> request.credentials@.len() == 0,
        client.endpoint.auth matches Auth::Bearer(t) ==> request.credentials@ == seq![
            Credential::Bearer { token: t },
        ],
        client.endpoint.auth matches Auth::Basic { username: u, password: p }
            ==> request.credentials@ == seq![Credential::Basic { username: u, password: p }],
{
    assert(client.query_of(req) == *query);
    let sent = each_pair(request.params@);
    let made = each_pair(params@);
    assert(sent == made);
    assert(sent.len() == request.params@.len() && made.len() == params@.len());
    assert forall|i: int| 0 <= i < params@.len() implies #[trigger] request.params@[i].0@
        == params@[i].0@ && request.params@[i].1@ == params@[i].1@ by {
        assert(sent[i] == made[i]);
    }
}

/// A log request is refused exactly where its level would be refused by
/// itself.
pub proof fn log_requests_are_refused_for_their_level(
    client: &LokiClient,
    req: LogRequest,
    level: &str,
    accepted: Result<(), QueryError>,
    result: Result<Request, QueryError>,
)
    requires
        req.level is Some ==> level@ == req.level->0@,
        call_ensures(validate_level, (level,), accepted),
        call_ensures(LokiClient::query_logs, (client, req), result),
    ensures
        req.level is None ==> result is Ok,
        req.level is Some ==> (result is Ok <==> accepted is Ok),
        result is Err ==> result->Err_0->level@ == req.level->0@,
{
}

/// A number of nanoseconds is shown as the second that it falls in, counted
/// toward the epoch; anything else is shown as it is.
pub proof fn times_are_shown_by_their_second(
    ns_str: &str,
    ns: Option<i64>,
    text: String,
    secs: int,
)
    requires
        call_ensures(parse_i64, (ns_str,), ns),
        call_ensures(format_ns_timestamp, (ns_str,), text),
        ns matches Some(n) ==> (n >= 0 ==> secs * 1_000_000_000 <= n < (secs + 1) * 1_000_000_000)
            && (n < 0 ==> (secs - 1) * 1_000_000_000 < n <= secs * 1_000_000_000),
    ensures
        ns is None ==> text@ == ns_str@,
        ns is Some ==> rfc3339_instant(text@) == Some((secs, 0int)),
        ns matches Some(n) ==> {
            let rest = n - secs * 1_000_000_000;
            text@ == utc_text(
                secs,
                if rest < 0 {
                    -rest
                } else {
                    rest
                },
                "%Y-%m-%dT%H:%M:%SZ"@,
            )
        },
{
    if let Some(n) = ns {
        let quotient = crate::time::truncated_quotient(n as int, 1_000_000_000);
        assert(quotient == secs);
    }
}

/// The entries of one stream are all of its values, each in its place, and
/// those of more streams are those of the first ones and then the others'.
pub proof fn entries_of_streams(
    stream: StreamResult,
    front: Seq<StreamResult>,
    behind: Seq<StreamResult>,
)
    ensures
        all_entries(Seq::empty()).len() == 0,
        all_entries(seq![stream]).len() == stream.values@.len(),
        forall|i: int|
            0 <= i < stream.values@.len() ==> #[trigger] all_entries(seq![stream])[i] == (
                stream.values@[i].0@,
                stream.values@[i].1@,
            ),
        all_entries(front + behind) == all_entries(front) + all_entries(behind),
{
    reveal_with_fuel(all_entries, 2);
    assert(seq![stream].drop_last() =~= Seq::empty());
    assert(all_entries(seq![stream]) =~= each_pair(stream.values@));
    crate::loki::entries_keep_the_order_of_the_reply(front, behind);
}

/// A line is its time, a bar, and its text.
pub proof fn lines_from_parts(time: &str, line: &str, text: String)
    requires
        call_ensures(log_line, (time, line), text),
    ensures
        text@ == time@ + " | "@ + line@,
{
}

/// One stream gives a line for each of its values, in their order: the time in
/// words, a bar, and the text.
pub proof fn lines_of_a_stream(
    streams: &Vec<StreamResult>,
    lines: Vec<String>,
    i: int,
    time: &str,
    shown: String,
)
    requires
        streams@.len() == 1,
        call_ensures(log_lines, (streams,), lines),
        0 <= i < streams@[0].values@.len(),
        time@ == streams@[0].values@[i].0@,
        call_ensures(format_ns_timestamp, (time,), shown),
    ensures
        lines@.len() == streams@[0].values@.len(),
        lines@[i]@ == shown@ + " | "@ + streams@[0].values@[i].1@,
{
    let stream = streams@[0];
    entries_of_streams(stream, Seq::empty(), Seq::empty());
    assert(streams@ =~= seq![stream]);
    assert(each(lines@).len() == lines@.len());
    assert(each(lines@)[i] == lines@[i]@);
    assert(shown_lines(all_entries(streams@))[i] == shown_line(all_entries(seq![stream])[i]));
}

/// The lines of some streams and of others behind them are the lines of all.
pub proof fn lines_of_streams_follow_each_other(
    front: &Vec<StreamResult>,
    behind: &Vec<StreamResult>,
    all: &Vec<StreamResult>,
    a: Vec<String>,
    b: Vec<String>,
    ab: Vec<String>,
)
    requires
        all@ == front@ + behind@,
        call_ensures(log_lines, (front,), a),
        call_ensures(log_lines, (behind,), b),
        call_ensures(log_lines, (all,), ab),
    ensures
        ab@.len() == a@.len() + b@.len(),
        forall|i: int| 0 <= i < a@.len() ==> #[trigger] ab@[i]@ == a@[i]@,
        forall|i: int| 0 <= i < b@.len() ==> ab@[a@.len() + i]@ == #[trigger] b@[i]@,
        front@.len() == 0 ==> a@.len() == 0,
{
    crate::loki::entries_keep_the_order_of_the_reply(front@, behind@);
    let (x, y, z) = (each(a@), each(b@), each(ab@));
    assert(x.len() == a@.len() && y.len() == b@.len() && z.len() == ab@.len());
    assert(z == shown_lines(all_entries(front@) + all_entries(behind@)));
    assert forall|i: int| 0 <= i < a@.len() implies #[trigger] ab@[i]@ == a@[i]@ by {
        assert(z[i] == x[i]);
    }
    assert forall|i: int| 0 <= i < b@.len() implies ab@[a@.len() + i]@ == #[trigger] b@[i]@ by {
        assert(z[a@.len() + i] == y[i]);
    }
    if front@.len() == 0 {
        assert(all_entries(front@).len() == 0);
    }
}

/// One entry is not older than another exactly where its time is the same or
/// later, or the other has no time.
pub proof fn ages_of_entries(a: (Seq<char>, Seq<char>), b: (Seq<char>, Seq<char>))
    ensures
        parsed_i64(a.0) is Some && parsed_i64(b.0) is Some ==> (not_older(a, b) <==> parsed_i64(
            a.0,
        )->0 >= parsed_i64(b.0)->0),
        parsed_i64(b.0) is None ==> not_older(a, b),
        parsed_i64(a.0) is None && parsed_i64(b.0) is Some ==> !not_older(a, b),
{
}

proof fn lemma_placed_lines(
    sorted: Seq<(Seq<char>, Seq<char>)>,
    entry: (Seq<char>, Seq<char>),
)
    ensures
        shown_lines(crate::loki::placed(sorted, entry)).to_multiset() == shown_lines(
            sorted,
        ).to_multiset().insert(shown_line(entry)),
    decreases sorted.len(),
{
    broadcast use vstd::seq_lib::group_to_multiset_ensures;

    let result = crate::loki::placed(sorted, entry);
    if sorted.len() == 0 || not_older(sorted.last(), entry) {
        assert(result =~= sorted.push(entry));
        assert(shown_lines(result) =~= shown_lines(sorted).push(shown_line(entry)));
    } else {
        let rest = sorted.drop_last();
        lemma_placed_lines(rest, entry);
        let front = crate::loki::placed(rest, entry);
        assert(shown_lines(result) =~= shown_lines(front).push(shown_line(sorted.last())));
        assert(shown_lines(sorted) =~= shown_lines(rest).push(shown_line(sorted.last())));
        assert(shown_lines(result).to_multiset() =~= shown_lines(sorted).to_multiset().insert(
            shown_line(entry),
        ));
    }
}

proof fn lemma_sorted_lines(entries: Seq<(Seq<char>, Seq<char>)>)
    ensures
        shown_lines(newest_first(entries)).to_multiset() == shown_lines(entries).to_multiset(),
    decreases entries.len(),
{
    broadcast use vstd::seq_lib::group_to_multiset_ensures;

    if entries.len() > 0 {
        let rest = entries.drop_last();
        lemma_sorted_lines(rest);
        lemma_placed_lines(newest_first(rest), entries.last());
        assert(shown_lines(entries) =~= shown_lines(rest).push(shown_line(entries.last())));
    } else {
        assert(newest_first(entries) =~= entries);
    }
}

/// Sorting loses no line and adds none: each line comes as often as in the
/// order of the reply.
pub proof fn sorting_keeps_every_line(
    streams: &Vec<StreamResult>,
    lines: Vec<String>,
    newest: Vec<String>,
)
    requires
        call_ensures(log_lines, (streams,), lines),
        call_ensures(newest_lines, (streams,), newest),
    ensures
        newest@.len() == lines@.len(),
        Seq::new(newest@.len(), |i: int| newest@[i]@).to_multiset() == Seq::new(
            lines@.len(),
            |i: int| lines@[i]@,
        ).to_multiset(),
{
    broadcast use vstd::seq_lib::group_to_multiset_ensures;

    lemma_sorted_lines(all_entries(streams@));
    assert(Seq::new(newest@.len(), |i: int| newest@[i]@) =~= each(newest@));
    assert(Seq::new(lines@.len(), |i: int| lines@[i]@) =~= each(lines@));
    assert(each(newest@).len() == newest@.len() && each(lines@).len() == lines@.len());
    assert(each(newest@).to_multiset().len() == each(lines@).to_multiset().len());
}

/// However many streams there are, the number of lines of all is that of some
/// and that of the others, and one stream has a line for each of its values.
pub proof fn newest_lines_are_as_many(
    front: &Vec<StreamResult>,
    behind: &Vec<StreamResult>,
    all: &Vec<StreamResult>,
    a: Vec<String>,
    b: Vec<String>,
    ab: Vec<String>,
)
    requires
        all@ == front@ + behind@,
        call_ensures(newest_lines, (front,), a),
        call_ensures(newest_lines, (behind,), b),
        call_ensures(newest_lines, (all,), ab),
    ensures
        ab@.len() == a@.len() + b@.len(),
        front@.len() == 0 ==> a@.len() == 0,
        front@.len() == 1 ==> a@.len() == front@[0].values@.len(),
{
    crate::loki::answer_is_newest_first(all_entries(front@));
    crate::loki::answer_is_newest_first(all_entries(behind@));
    crate::loki::answer_is_newest_first(all_entries(all@));
    assert(each(a@).len() == a@.len() && each(b@).len() == b@.len() && each(ab@).len()
        == ab@.len());
    crate::loki::entries_keep_the_order_of_the_reply(front@, behind@);
    if front@.len() == 1 {
        entries_of_streams(front@[0], Seq::empty(), Seq::empty());
        assert(front@ =~= seq![front@[0]]);
    }
    if front@.len() == 0 {
        assert(all_entries(front@).len() == 0);
    }
}

/// There is an order of the entries of all streams, the newest first, in which
/// every line is shown: its time in words, a bar, and its text. A time that is
/// no number is shown as it is.
pub proof fn newest_lines_come_first(streams: &Vec<StreamResult>, newest: Vec<String>) -> (order:
    Seq<(Seq<char>, Seq<char>)>)
    requires
        call_ensures(newest_lines, (streams,), newest),
    ensures
        order == newest_first(all_entries(streams@)),
        order.to_multiset() == all_entries(streams@).to_multiset(),
        order.len() == newest@.len(),
        forall|i: int, j: int|
            #![trigger order[i], order[j]]
            0 <= i < j < order.len() ==> {
                ||| parsed_i64(order[j].0) is None
                ||| parsed_i64(order[i].0) is Some && parsed_i64(order[i].0)->0 >= parsed_i64(
                    order[j].0,
                )->0
            },
        forall|i: int|
            0 <= i < order.len() ==> #[trigger] newest@[i]@ == match parsed_i64(order[i].0) {
                Some(ns) => if ns >= 0 {
                    utc_text(ns / 1_000_000_000, ns % 1_000_000_000, "%Y-%m-%dT%H:%M:%SZ"@)
                } else {
                    utc_text(
                        -((-ns) / 1_000_000_000),
                        (-ns) % 1_000_000_000,
                        "%Y-%m-%dT%H:%M:%SZ"@,
                    )
                },
                None => order[i].0,
            } + " | "@ + order[i].1,
{
    let order = newest_first(all_entries(streams@));
    crate::loki::answer_is_newest_first(all_entries(streams@));
    assert(each(newest@).len() == newest@.len());
    assert(order.len() == newest@.len());
    assert forall|i: int| 0 <= i < order.len() implies #[trigger] newest@[i]@ == match parsed_i64(
        order[i].0,
    ) {
        Some(ns) => if ns >= 0 {
            utc_text(ns / 1_000_000_000, ns % 1_000_000_000, "%Y-%m-%dT%H:%M:%SZ"@)
        } else {
            utc_text(-((-ns) / 1_000_000_000), (-ns) % 1_000_000_000, "%Y-%m-%dT%H:%M:%SZ"@)
        },
        None => order[i].0,
    } + " | "@ + order[i].1 by {
        assert(each(newest@)[i] == newest@[i]@);
        assert(each(newest@)[i] == shown_line(order[i]));
    }
    order
}

/// Entries of the same time come in the order of the reply.
pub proof fn ties_stay_in_order(entries: Seq<(Seq<char>, Seq<char>)>, i: int, j: int) -> (places: (
    int,
    int,
))
    requires
        0 <= i < j < entries.len(),
        parsed_i64(entries[i].0) == parsed_i64(entries[j].0),
    ensures
        0 <= places.0 < places.1 < newest_first(entries).len(),
        newest_first(entries)[places.0] == entries[i],
        newest_first(entries)[places.1] == entries[j],
    decreases entries.len(),
{
    let rest = entries.drop_last();
    let sorted = newest_first(rest);
    let entry = entries.last();
    if j == entries.len() - 1 {
        // The later entry goes behind the earlier one, wherever that stands.
        crate::loki::answer_is_newest_first(rest);
        let p = lemma_is_placed(rest, i);
        let at = lemma_placed_at(sorted, entry);
        assert(not_older(sorted[p], entry));
        if p >= at {
            assert(!not_older(sorted[p], entry));
        }
        (p, at)
    } else {
        let (p, q) = ties_stay_in_order(rest, i, j);
        let at = lemma_placed_at(sorted, entry);
        let p2 = if p < at {
            p
        } else {
            p + 1
        };
        let q2 = if q < at {
            q
        } else {
            q + 1
        };
        (p2, q2)
    }
}

/// Where an entry of a list stands among the sorted ones.
proof fn lemma_is_placed(entries: Seq<(Seq<char>, Seq<char>)>, i: int) -> (p: int)
    requires
        0 <= i < entries.len(),
    ensures
        0 <= p < newest_first(entries).len(),
        newest_first(entries)[p] == entries[i],
    decreases entries.len(),
{
    let rest = entries.drop_last();
    let at = lemma_placed_at(newest_first(rest), entries.last());
    if i == entries.len() - 1 {
        at
    } else {
        let p = lemma_is_placed(rest, i);
        if p < at {
            p
        } else {
            p + 1
        }
    }
}

/// Where an entry is placed: everything behind it is older, and what stands
/// right in front of it is not.
proof fn lemma_placed_at(
    sorted: Seq<(Seq<char>, Seq<char>)>,
    entry: (Seq<char>, Seq<char>),
) -> (at: int)
    ensures
        0 <= at <= sorted.len(),
        crate::loki::placed(sorted, entry) == sorted.insert(at, entry),
        forall|k: int| at <= k < sorted.len() ==> !not_older(#[trigger] sorted[k], entry),
    decreases sorted.len(),
{
    if sorted.len() == 0 {
        assert(crate::loki::placed(sorted, entry) =~= sorted.insert(0, entry));
        0
    } else if not_older(sorted.last(), entry) {
        assert(crate::loki::placed(sorted, entry) =~= sorted.insert(sorted.len() as int, entry));
        sorted.len() as int
    } else {
        let rest = sorted.drop_last();
        let at = lemma_placed_at(rest, entry);
        assert(crate::loki::placed(sorted, entry) =~= sorted.insert(at, entry));
        assert forall|k: int| at <= k < sorted.len() implies !not_older(
            #[trigger] sorted[k],
            entry,
        ) by {
            if k < rest.len() {
                assert(!not_older(rest[k], entry));
            }
        }
        at
    }
}

} // verus!
