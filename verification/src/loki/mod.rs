//! Loki: which requests to send and how to show the lines that come back.

pub mod query;

use vstd::prelude::*;
use vstd::string::*;

use crate::backend::{Auth, Endpoint, Request};
use crate::number::{decimal, parse_i64, parsed_i64, signed_decimal, signed_text};
use crate::text::{each, each_pair, trimmed_end};
use crate::time::{
    clock, instant, is_clock_reading, rfc3339_instant, time_pattern, time_text,
    truncated_quotient, utc_text, Timestamp,
};
use query::{resolve_limit, LogQuery, LogRequest, QueryError};

verus! {

/// A time as Loki gives it, in nanoseconds since the epoch, put into words; a
/// text that is no such number stays as it is.
pub open spec fn ns_time(text: Seq<char>) -> Seq<char> {
    match parsed_i64(text) {
        Some(ns) => {
            let secs = truncated_quotient(ns, 1_000_000_000);
            let rest = ns - secs * 1_000_000_000;
            let nanos = if rest < 0 {
                -rest
            } else {
                rest
            };
            utc_text(secs, nanos, time_pattern())
        },
        None => text,
    }
}

/// A time as Loki gives it, in nanoseconds since the epoch, put into words,
/// which read back as the same second.
pub fn format_ns_timestamp(ns_str: &str) -> (text: String)
    ensures
        text@ == ns_time(ns_str@),
        parsed_i64(ns_str@) matches Some(ns) ==> rfc3339_instant(text@) == Some(
            (truncated_quotient(ns, 1_000_000_000), 0int),
        ),
{
    let ns: i64 = match parse_i64(ns_str) {
        Some(n) => n,
        None => {
            return ns_str.to_owned();
        },
    };
    let (secs, nanos): (i64, u32) = if ns >= 0 {
        (ns / 1_000_000_000, (ns % 1_000_000_000) as u32)
    } else {
        let magnitude: i128 = -(ns as i128);
        ((-(magnitude / 1_000_000_000)) as i64, (magnitude % 1_000_000_000) as u32)
    };
    match instant(secs, nanos) {
        Some(at) => time_text(at),
        None => ns_str.to_owned(),
    }
}

/// A stream of log lines: each line with its time.
#[derive(Debug)]
pub struct StreamResult {
    pub values: Vec<(String, String)>,
}

/// A line as it is shown.
pub open spec fn shown_line(entry: (Seq<char>, Seq<char>)) -> Seq<char> {
    ns_time(entry.0) + " | "@ + entry.1
}

/// Entries as they are shown.
pub open spec fn shown_lines(entries: Seq<(Seq<char>, Seq<char>)>) -> Seq<Seq<char>> {
    Seq::new(entries.len(), |i: int| shown_line(entries[i]))
}

/// The entries of all streams, one stream after another.
pub open spec fn all_entries(streams: Seq<StreamResult>) -> Seq<(Seq<char>, Seq<char>)>
    decreases streams.len(),
{
    if streams.len() == 0 {
        Seq::empty()
    } else {
        all_entries(streams.drop_last()) + each_pair(streams.last().values@)
    }
}

/// A line as it is shown, from its time in words and its text.
pub fn log_line(time: &str, line: &str) -> (text: String)
    ensures
        text@ == time@ + " | "@ + line@,
{
    let mut out = time.to_owned();
    out.append(" | ");
    out.append(line);
    out
}

/// The lines of all streams as they are shown, in the order of the reply: one
/// stream after another.
pub fn log_lines(streams: &Vec<StreamResult>) -> (lines: Vec<String>)
    ensures
        each(lines@) == shown_lines(all_entries(streams@)),
{
    let mut lines: Vec<String> = Vec::new();
    let mut i: usize = 0;
    assert(all_entries(streams@.take(0)) =~= Seq::empty());
    while i < streams.len()
        invariant
            i <= streams@.len(),
            each(lines@) =~= shown_lines(all_entries(streams@.take(i as int))),
        decreases streams@.len() - i,
    {
        let values = &streams[i].values;
        let ghost done = all_entries(streams@.take(i as int));
        let mut k: usize = 0;
        while k < values.len()
            invariant
                k <= values@.len(),
                each(lines@) =~= shown_lines(done + each_pair(values@).take(k as int)),
            decreases values@.len() - k,
        {
            let time = format_ns_timestamp(values[k].0.as_str());
            let line = log_line(time.as_str(), values[k].1.as_str());
            assert(line@ == shown_line(each_pair(values@)[k as int]));
            let ghost so_far = lines@;
            lines.push(line);
            assert(each(lines@) =~= each(so_far).push(line@));
            k = k + 1;
        }
        assert(streams@.take(i + 1).drop_last() =~= streams@.take(i as int));
        assert(each_pair(values@).take(k as int) =~= each_pair(values@));
        i = i + 1;
    }
    assert(streams@.take(i as int) =~= streams@);
    lines
}

/// In a reply, the entries of some streams come before those of the streams
/// behind them.
pub proof fn entries_keep_the_order_of_the_reply(
    front: Seq<StreamResult>,
    behind: Seq<StreamResult>,
)
    ensures
        all_entries(front + behind) == all_entries(front) + all_entries(behind),
    decreases behind.len(),
{
    if behind.len() == 0 {
        assert(front + behind =~= front);
        assert(all_entries(front) + all_entries(behind) =~= all_entries(front));
    } else {
        entries_keep_the_order_of_the_reply(front, behind.drop_last());
        assert((front + behind).drop_last() =~= front + behind.drop_last());
        assert(all_entries(front + behind) =~= all_entries(front) + all_entries(behind));
    }
}

/// A time is the other or later. No time is before every time.
pub open spec fn at_or_after(a: Option<int>, b: Option<int>) -> bool {
    match (a, b) {
        (Some(x), Some(y)) => x >= y,
        (Some(_), None) => true,
        (None, Some(_)) => false,
        (None, None) => true,
    }
}

/// An entry is as new as another or newer. One whose time is no number of
/// nanoseconds counts as older than any that has a time.
pub open spec fn not_older(a: (Seq<char>, Seq<char>), b: (Seq<char>, Seq<char>)) -> bool {
    at_or_after(parsed_i64(a.0), parsed_i64(b.0))
}

/// Entries with one more, which goes behind those that are not older than it.
pub open spec fn placed(
    sorted: Seq<(Seq<char>, Seq<char>)>,
    entry: (Seq<char>, Seq<char>),
) -> Seq<(Seq<char>, Seq<char>)>
    decreases sorted.len(),
{
    if sorted.len() == 0 {
        seq![entry]
    } else if not_older(sorted.last(), entry) {
        sorted.push(entry)
    } else {
        placed(sorted.drop_last(), entry).push(sorted.last())
    }
}

/// The entries with the newest first; those of the same time stay in their order.
pub open spec fn newest_first(entries: Seq<(Seq<char>, Seq<char>)>) -> Seq<(
    Seq<char>,
    Seq<char>,
)>
    decreases entries.len(),
{
    if entries.len() == 0 {
        Seq::empty()
    } else {
        placed(newest_first(entries.drop_last()), entries.last())
    }
}

/// No entry is older than one behind it.
pub open spec fn is_newest_first(entries: Seq<(Seq<char>, Seq<char>)>) -> bool {
    forall|i: int, j: int|
        #![trigger entries[i], entries[j]]
        0 <= i < j < entries.len() ==> not_older(entries[i], entries[j])
}

proof fn lemma_placed(sorted: Seq<(Seq<char>, Seq<char>)>, entry: (Seq<char>, Seq<char>))
    requires
        is_newest_first(sorted),
    ensures
        is_newest_first(placed(sorted, entry)),
        placed(sorted, entry).to_multiset() == sorted.to_multiset().insert(entry),
        forall|i: int|
            0 <= i < placed(sorted, entry).len() ==> #[trigger] placed(sorted, entry)[i] == entry
                || sorted.contains(placed(sorted, entry)[i]),
    decreases sorted.len(),
{
    broadcast use vstd::seq_lib::group_to_multiset_ensures;

    let result = placed(sorted, entry);
    if sorted.len() == 0 {
        assert(result =~= sorted.push(entry));
    } else if not_older(sorted.last(), entry) {
        assert forall|i: int, j: int|
            #![trigger result[i], result[j]]
            0 <= i < j < result.len() implies not_older(result[i], result[j]) by {
            if j == sorted.len() {
                assert(i == sorted.len() - 1 || not_older(sorted[i], sorted[sorted.len() - 1]));
            } else {
                assert(not_older(sorted[i], sorted[j]));
            }
        }
        assert forall|i: int| 0 <= i < result.len() implies #[trigger] result[i] == entry
            || sorted.contains(result[i]) by {
            if i < sorted.len() {
                assert(sorted[i] == result[i]);
            }
        }
    } else {
        let rest = sorted.drop_last();
        assert(is_newest_first(rest)) by {
            assert forall|i: int, j: int|
                #![trigger rest[i], rest[j]]
                0 <= i < j < rest.len() implies not_older(rest[i], rest[j]) by {
                assert(not_older(sorted[i], sorted[j]));
            }
        }
        lemma_placed(rest, entry);
        let front = placed(rest, entry);
        assert(rest.push(sorted.last()) =~= sorted);
        assert(result.to_multiset() =~= sorted.to_multiset().insert(entry));
        assert forall|i: int, j: int|
            #![trigger result[i], result[j]]
            0 <= i < j < result.len() implies not_older(result[i], result[j]) by {
            if j == front.len() {
                if front[i] != entry {
                    let k = choose|k: int| 0 <= k < rest.len() && rest[k] == front[i];
                    assert(not_older(sorted[k], sorted[sorted.len() - 1]));
                }
            } else {
                assert(not_older(front[i], front[j]));
            }
        }
        assert forall|i: int| 0 <= i < result.len() implies #[trigger] result[i] == entry
            || sorted.contains(result[i]) by {
            if i == front.len() {
                assert(sorted[sorted.len() - 1] == result[i]);
            } else if front[i] != entry {
                let k = choose|k: int| 0 <= k < rest.len() && rest[k] == front[i];
                assert(sorted[k] == result[i]);
            }
        }
    }
}

/// The newest entries come first over all streams: no entry is older than one
/// behind it, and the entries are the same, each as often as it came.
pub proof fn answer_is_newest_first(entries: Seq<(Seq<char>, Seq<char>)>)
    ensures
        newest_first(entries).len() == entries.len(),
        forall|i: int, j: int|
            #![trigger newest_first(entries)[i], newest_first(entries)[j]]
            0 <= i < j < entries.len() ==> not_older(
                newest_first(entries)[i],
                newest_first(entries)[j],
            ),
        newest_first(entries).to_multiset() == entries.to_multiset(),
    decreases entries.len(),
{
    broadcast use vstd::seq_lib::group_to_multiset_ensures;

    if entries.len() > 0 {
        let rest = entries.drop_last();
        answer_is_newest_first(rest);
        assert(is_newest_first(newest_first(rest)));
        lemma_placed(newest_first(rest), entries.last());
        assert(rest.push(entries.last()) =~= entries);
        assert(is_newest_first(newest_first(entries)));
    }
    assert(newest_first(entries).to_multiset().len() == entries.to_multiset().len());
}

/// Entries that come newest first stay as they come.
pub proof fn sorted_entries_stay(entries: Seq<(Seq<char>, Seq<char>)>)
    requires
        is_newest_first(entries),
    ensures
        newest_first(entries) == entries,
    decreases entries.len(),
{
    if entries.len() > 0 {
        let rest = entries.drop_last();
        assert forall|i: int, j: int|
            #![trigger rest[i], rest[j]]
            0 <= i < j < rest.len() implies not_older(rest[i], rest[j]) by {
            assert(not_older(entries[i], entries[j]));
        }
        sorted_entries_stay(rest);
        if rest.len() > 0 {
            assert(not_older(entries[rest.len() - 1], entries[rest.len() as int]));
        }
        assert(newest_first(entries) =~= entries);
    } else {
        assert(newest_first(entries) =~= entries);
    }
}

/// The entries of the given time or, where none is given, those without one.
pub open spec fn of_time(
    entries: Seq<(Seq<char>, Seq<char>)>,
    time: Option<int>,
) -> Seq<(Seq<char>, Seq<char>)>
    decreases entries.len(),
{
    if entries.len() == 0 {
        Seq::empty()
    } else if parsed_i64(entries.last().0) == time {
        of_time(entries.drop_last(), time).push(entries.last())
    } else {
        of_time(entries.drop_last(), time)
    }
}

proof fn lemma_placed_behind_its_time(
    sorted: Seq<(Seq<char>, Seq<char>)>,
    entry: (Seq<char>, Seq<char>),
    time: Option<int>,
)
    ensures
        of_time(placed(sorted, entry), time) == of_time(sorted.push(entry), time),
    decreases sorted.len(),
{
    reveal_with_fuel(of_time, 3);
    assert(sorted.push(entry).drop_last() =~= sorted);
    if sorted.len() == 0 {
        assert(seq![entry] =~= sorted.push(entry));
    } else if !not_older(sorted.last(), entry) {
        let rest = sorted.drop_last();
        lemma_placed_behind_its_time(rest, entry, time);
        assert(placed(sorted, entry).drop_last() =~= placed(rest, entry));
        assert(rest.push(entry).drop_last() =~= rest);
    }
}

/// Entries of the same time, and entries without one, stay in the order in
/// which they come.
pub proof fn same_time_keeps_its_order(entries: Seq<(Seq<char>, Seq<char>)>, time: Option<int>)
    ensures
        of_time(newest_first(entries), time) == of_time(entries, time),
    decreases entries.len(),
{
    if entries.len() > 0 {
        let rest = entries.drop_last();
        let sorted = newest_first(rest);
        same_time_keeps_its_order(rest, time);
        lemma_placed_behind_its_time(sorted, entries.last(), time);
        assert(sorted.push(entries.last()).drop_last() =~= sorted);
    }
}

/// What is kept of an entry while entries are sorted: its time and its line.
struct Keyed {
    time: Option<i64>,
    line: String,
}

spec fn keeps(kept: Keyed, entry: (Seq<char>, Seq<char>)) -> bool {
    &&& kept.line@ == shown_line(entry)
    &&& match kept.time {
        Some(t) => parsed_i64(entry.0) == Some(t as int),
        None => parsed_i64(entry.0) is None,
    }
}

spec fn keep_all(kept: Seq<Keyed>, entries: Seq<(Seq<char>, Seq<char>)>) -> bool {
    &&& kept.len() == entries.len()
    &&& forall|i: int| 0 <= i < kept.len() ==> keeps(#[trigger] kept[i], entries[i])
}

fn is_at_or_after(a: Option<i64>, b: Option<i64>) -> (r: bool)
    ensures
        r == at_or_after(
            match a {
                Some(t) => Some(t as int),
                None => None::<int>,
            },
            match b {
                Some(t) => Some(t as int),
                None => None::<int>,
            },
        ),
{
    match (a, b) {
        (Some(x), Some(y)) => x >= y,
        (Some(_), None) => true,
        (None, Some(_)) => false,
        (None, None) => true,
    }
}

/// Puts an entry behind those that are not older than it.
fn place(
    kept: &mut Vec<Keyed>,
    new: Keyed,
    Ghost(sorted): Ghost<Seq<(Seq<char>, Seq<char>)>>,
    Ghost(entry): Ghost<(Seq<char>, Seq<char>)>,
)
    requires
        keep_all(old(kept)@, sorted),
        keeps(new, entry),
    ensures
        keep_all(final(kept)@, placed(sorted, entry)),
{
    let mut at: usize = kept.len();
    assert(sorted.take(at as int) =~= sorted);
    assert(placed(sorted, entry) =~= placed(sorted.take(at as int), entry) + sorted.skip(
        at as int,
    ));
    while at > 0 && !is_at_or_after(kept[at - 1].time, new.time)
        invariant
            at <= kept@.len(),
            keep_all(kept@, sorted),
            keeps(new, entry),
            placed(sorted, entry) =~= placed(sorted.take(at as int), entry) + sorted.skip(
                at as int,
            ),
        decreases at,
    {
        assert(keeps(kept@[at - 1], sorted[at - 1]));
        assert(sorted.take(at as int).drop_last() =~= sorted.take(at - 1));
        assert(sorted.skip(at - 1) =~= seq![sorted[at - 1]] + sorted.skip(at as int));
        at = at - 1;
    }
    assert(at > 0 ==> keeps(kept@[at - 1], sorted[at - 1]));
    assert(placed(sorted, entry) =~= sorted.insert(at as int, entry));
    kept.insert(at, new);
}

/// The lines of all streams as they are shown, the newest first.
pub fn newest_lines(streams: &Vec<StreamResult>) -> (lines: Vec<String>)
    ensures
        each(lines@) == shown_lines(newest_first(all_entries(streams@))),
{
    let mut kept: Vec<Keyed> = Vec::new();
    let mut i: usize = 0;
    assert(all_entries(streams@.take(0)) =~= Seq::empty());
    while i < streams.len()
        invariant
            i <= streams@.len(),
            keep_all(kept@, newest_first(all_entries(streams@.take(i as int)))),
        decreases streams@.len() - i,
    {
        let values = &streams[i].values;
        let ghost done = all_entries(streams@.take(i as int));
        let mut k: usize = 0;
        assert(done + each_pair(values@).take(0) =~= done);
        while k < values.len()
            invariant
                k <= values@.len(),
                keep_all(kept@, newest_first(done + each_pair(values@).take(k as int))),
            decreases values@.len() - k,
        {
            let ghost before = done + each_pair(values@).take(k as int);
            let ghost entry = each_pair(values@)[k as int];
            let time = format_ns_timestamp(values[k].0.as_str());
            let new = Keyed {
                time: parse_i64(values[k].0.as_str()),
                line: log_line(time.as_str(), values[k].1.as_str()),
            };
            place(&mut kept, new, Ghost(newest_first(before)), Ghost(entry));
            assert((done + each_pair(values@).take(k + 1)) =~= before.push(entry));
            assert(before.push(entry).drop_last() =~= before);
            k = k + 1;
        }
        assert(streams@.take(i + 1).drop_last() =~= streams@.take(i as int));
        assert(each_pair(values@).take(k as int) =~= each_pair(values@));
        i = i + 1;
    }
    assert(streams@.take(i as int) =~= streams@);
    let ghost order = newest_first(all_entries(streams@));
    let mut lines: Vec<String> = Vec::new();
    let mut k: usize = 0;
    while k < kept.len()
        invariant
            k <= kept@.len(),
            keep_all(kept@, order),
            each(lines@) =~= shown_lines(order).take(k as int),
        decreases kept@.len() - k,
    {
        assert(keeps(kept@[k as int], order[k as int]));
        let line = kept[k].line.clone();
        let ghost so_far = lines@;
        lines.push(line);
        assert(each(lines@) =~= each(so_far).push(line@));
        k = k + 1;
    }
    assert(shown_lines(order).take(k as int) =~= shown_lines(order));
    lines
}

/// How to ask Loki for logs.
#[derive(Debug)]
pub struct LokiClient {
    pub endpoint: Endpoint,
    pub service_label: String,
    pub level_label: Option<String>,
    pub default_limit: u32,
    pub max_limit: u32,
}

/// The nanoseconds of an instant since the epoch, or zero where 64 bits do
/// not hold them.
pub open spec fn nanos_or_zero(secs: int, nanos: int) -> int {
    let total = secs * 1_000_000_000 + nanos;
    if i64::MIN <= total && total <= i64::MAX {
        total
    } else {
        0
    }
}

fn nanoseconds(at: Timestamp) -> (n: i64)
    ensures
        n == nanos_or_zero(at.secs as int, at.nanos as int),
{
    let total: i128 = at.secs as i128 * 1_000_000_000 + at.nanos as i128;
    if -0x8000_0000_0000_0000i128 <= total && total <= 0x7fff_ffff_ffff_ffffi128 {
        total as i64
    } else {
        0
    }
}

impl LokiClient {
    /// A client of the Loki at a URL, which may end in slashes.
    pub fn new(
        base_url: &str,
        auth: Auth,
        service_label: &str,
        level_label: Option<&str>,
        default_limit: u32,
        max_limit: u32,
    ) -> (client: Self)
        ensures
            client.endpoint.base_url@ == trimmed_end(base_url@, '/'),
            client.endpoint.auth == auth,
            client.endpoint.name@ == "Loki"@,
            client.service_label@ == service_label@,
            match level_label {
                Some(label) => client.level_label matches Some(l) && l@ == label@,
                None => client.level_label is None,
            },
            client.default_limit == default_limit,
            client.max_limit == max_limit,
    {
        LokiClient {
            endpoint: Endpoint::new(base_url, auth, "Loki"),
            service_label: service_label.to_owned(),
            level_label: match level_label {
                Some(label) => Some(label.to_owned()),
                None => None,
            },
            default_limit,
            max_limit,
        }
    }

    /// The request asks, at a given time, for the values that the service
    /// label had in the thirty days before.
    pub open spec fn asks_for_services(&self, request: Request, now: Timestamp) -> bool {
        let month_ago = now.secs - 30 * 86_400;
        &&& request.url@ == self.endpoint.base_url@ + ("/loki/api/v1/label/"@ + self.service_label@
            + "/values"@)
        &&& each_pair(request.params@) == seq![
            ("start"@, signed_decimal(nanos_or_zero(month_ago, now.nanos as int))),
            ("end"@, signed_decimal(nanos_or_zero(now.secs as int, now.nanos as int))),
        ]
        &&& request.credentials@ == self.endpoint.auth.credentials()
    }

    /// The request for the names of the services, as the clock stands.
    pub fn list_services(&self) -> (request: Request)
        ensures
            exists|now: Timestamp|
                is_clock_reading(now) && #[trigger] self.asks_for_services(request, now),
    {
        self.list_services_at(clock())
    }

    /// The request for the names of the services, at a given time.
    pub fn list_services_at(&self, now: Timestamp) -> (request: Request)
        requires
            is_clock_reading(now),
        ensures
            self.asks_for_services(request, now),
    {
        let month_ago = Timestamp { secs: now.secs - 30 * 86_400, nanos: now.nanos };
        let mut path = "/loki/api/v1/label/".to_owned();
        path.append(self.service_label.as_str());
        path.append("/values");
        let mut params: Vec<(String, String)> = Vec::new();
        params.push(("start".to_owned(), signed_text(nanoseconds(month_ago))));
        params.push(("end".to_owned(), signed_text(nanoseconds(now))));
        assert(each_pair(params@) =~= seq![
            (
                "start"@,
                signed_decimal(nanos_or_zero(month_ago.secs as int, month_ago.nanos as int)),
            ),
            ("end"@, signed_decimal(nanos_or_zero(now.secs as int, now.nanos as int))),
        ]);
        self.endpoint.get_json(path.as_str(), params)
    }

    /// The query that a request leads to.
    pub open spec fn query_of(&self, req: LogRequest) -> LogQuery {
        LogQuery {
            service_label: self.service_label,
            service: req.service,
            start: req.start,
            end: req.end,
            limit: query::granted_limit(req.limit, self.default_limit, self.max_limit),
            max_limit: self.max_limit,
            level: req.level,
            level_label: self.level_label,
            search: req.search,
            search_is_regex: req.search_is_regex,
        }
    }

    /// The request for the log lines that are asked for, unless the level is
    /// not a level name.
    pub fn query_logs(&self, req: LogRequest) -> (result: Result<Request, QueryError>)
        ensures
            match result {
                Ok(request) => {
                    &&& self.query_of(req).level_is_valid()
                    &&& request.url@ == self.endpoint.base_url@ + "/loki/api/v1/query_range"@
                    &&& each_pair(request.params@) == self.query_of(req).params()
                    &&& request.credentials@ == self.endpoint.auth.credentials()
                },
                Err(error) => !self.query_of(req).level_is_valid() && req.level is Some
                    && error->level@ == req.level->0@,
            },
    {
        let query = LogQuery {
            service_label: self.service_label.clone(),
            service: req.service,
            start: req.start,
            end: req.end,
            limit: resolve_limit(req.limit, self.default_limit, self.max_limit),
            max_limit: self.max_limit,
            level: req.level,
            level_label: match &self.level_label {
                Some(label) => Some(label.clone()),
                None => None,
            },
            search: req.search,
            search_is_regex: req.search_is_regex,
        };
        match query.to_params() {
            Ok(params) => Ok(self.endpoint.get_json("/loki/api/v1/query_range", params)),
            Err(error) => Err(error),
        }
    }
}

/// Whatever a request asks for, the limit that goes to Loki is at most the
/// cap of the configuration.
pub proof fn limit_never_exceeds_cap(client: LokiClient, req: LogRequest)
    ensures
        ({
            let limit = query::granted_limit(req.limit, client.default_limit, client.max_limit);
            limit <= client.max_limit && client.query_of(req).params()[3] == (
                "limit"@,
                decimal(limit as nat),
            )
        }),
{
    query::granted_limit_is_kept(client.query_of(req), req.limit, client.default_limit);
}

} // verus!
