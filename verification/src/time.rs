//! Instants: the clock, RFC 3339 text and the distance between two instants.

use vstd::prelude::*;

verus! {

/// An instant in UTC: whole seconds since the Unix epoch and the nanoseconds
/// on top of them. A thousand million nanoseconds and more stand for a leap
/// second, which only the last second of a minute can have.
#[derive(Clone, Copy, Debug, PartialEq, Eq, Structural)]
pub struct Timestamp {
    pub secs: i64,
    pub nanos: u32,
}

/// The nanoseconds of a second.
pub open spec fn nanos_per_second() -> int {
    1_000_000_000
}

/// The calendar holds the instant: from the year -262143 to the year 262142,
/// with a leap second only at the end of a minute.
pub open spec fn representable(secs: int, nanos: int) -> bool {
    &&& -8_334_601_228_800 <= secs <= 8_210_266_876_799
    &&& 0 <= nanos < 2_000_000_000
    &&& nanos >= nanos_per_second() ==> secs % 60 == 59
}

/// The instant falls in one of the years that four digits can write.
pub open spec fn in_four_digit_years(secs: int) -> bool {
    -62_167_219_200 <= secs <= 253_402_300_799
}

/// How instants are written: `2026-06-12T13:00:00Z`.
pub open spec fn time_pattern() -> Seq<char> {
    "%Y-%m-%dT%H:%M:%SZ"@
}

/// The text of an instant of UTC under a pattern of `strftime`.
pub uninterp spec fn utc_text(secs: int, nanos: int, pattern: Seq<char>) -> Seq<char>;

/// The instant that an RFC 3339 text stands for: seconds and nanoseconds.
pub uninterp spec fn rfc3339_instant(text: Seq<char>) -> Option<(int, int)>;

/// `x` divided by a positive `d`, rounded toward zero.
pub open spec fn truncated_quotient(x: int, d: int) -> int {
    if x >= 0 {
        x / d
    } else {
        -((-x) / d)
    }
}

/// The nanoseconds from one instant to another, each given as seconds and
/// nanoseconds. A leap second that lies between the two, by the time of day,
/// counts as a second of its own.
pub open spec fn elapsed_nanos(start: (int, int), end: (int, int)) -> int {
    let start_of_day = start.0 % 86_400;
    let end_of_day = end.0 % 86_400;
    let leap: int = if end_of_day > start_of_day && start.1 >= nanos_per_second() {
        1
    } else if end_of_day < start_of_day && end.1 >= nanos_per_second() {
        -1
    } else {
        0
    };
    (end.0 - start.0 + leap) * nanos_per_second() + (end.1 - start.1)
}

/// The whole seconds from one instant to another, negative where the second
/// comes first.
pub open spec fn whole_seconds(start: (int, int), end: (int, int)) -> int {
    truncated_quotient(elapsed_nanos(start, end), nanos_per_second())
}

/// What every reading of the clock satisfies.
pub open spec fn is_clock_reading(now: Timestamp) -> bool {
    &&& 0 <= now.secs
    &&& now.nanos < nanos_per_second()
    &&& representable(now.secs as int, now.nanos as int)
}

/// `chrono::Utc::now`: the system's clock. It counts from the Unix epoch on
/// and knows no leap second. Which instant it reads is up to the machine; a
/// clock set before the epoch makes it panic.
#[verifier::external_body]
pub(crate) fn clock() -> (now: Timestamp)
    ensures
        is_clock_reading(now),
{
    let now = chrono::Utc::now();
    Timestamp { secs: now.timestamp(), nanos: now.timestamp_subsec_nanos() }
}

/// `chrono::DateTime::from_timestamp`: the instant with these seconds and
/// nanoseconds, which exists exactly where the calendar holds it.
#[verifier::external_body]
pub(crate) fn instant(secs: i64, nanos: u32) -> (at: Option<Timestamp>)
    ensures
        match at {
            Some(t) => representable(secs as int, nanos as int) && t.secs == secs && t.nanos
                == nanos,
            None => !representable(secs as int, nanos as int),
        },
{
    chrono::DateTime::from_timestamp(secs, nanos).map(
        |t| Timestamp { secs: t.timestamp(), nanos: t.timestamp_subsec_nanos() },
    )
}

/// `chrono::DateTime::format`: the instant under the pattern. The text of an
/// instant without a leap second, in a year of four digits, reads back as its
/// whole seconds.
#[verifier::external_body]
pub(crate) fn format_utc(at: Timestamp, pattern: &str) -> (text: String)
    requires
        representable(at.secs as int, at.nanos as int),
        pattern@ == time_pattern(),
    ensures
        text@ == utc_text(at.secs as int, at.nanos as int, pattern@),
        at.nanos < nanos_per_second() && in_four_digit_years(at.secs as int) ==> rfc3339_instant(
            text@,
        ) == Some((at.secs as int, 0int)),
{
    chrono::DateTime::from_timestamp(at.secs, at.nanos).unwrap().format(pattern).to_string()
}

/// `chrono::DateTime::parse_from_rfc3339`: the instant that the text stands
/// for, if it is an RFC 3339 date and time. Which texts are, and of which
/// instant, is left to its name.
#[verifier::external_body]
pub(crate) fn parse_rfc3339(text: &str) -> (at: Option<Timestamp>)
    ensures
        match at {
            Some(t) => rfc3339_instant(text@) == Some((t.secs as int, t.nanos as int))
                && representable(t.secs as int, t.nanos as int),
            None => rfc3339_instant(text@) is None,
        },
{
    chrono::DateTime::parse_from_rfc3339(text).ok().map(
        |t| Timestamp { secs: t.timestamp(), nanos: t.timestamp_subsec_nanos() },
    )
}

/// `chrono::DateTime::signed_duration_since` and `TimeDelta::num_seconds`:
/// the whole seconds from `start` to `end`, negative where `end` comes first.
#[verifier::external_body]
pub(crate) fn elapsed_seconds(start: Timestamp, end: Timestamp) -> (seconds: i64)
    requires
        representable(start.secs as int, start.nanos as int),
        representable(end.secs as int, end.nanos as int),
    ensures
        seconds == whole_seconds(
            (start.secs as int, start.nanos as int),
            (end.secs as int, end.nanos as int),
        ),
{
    let first = chrono::DateTime::from_timestamp(start.secs, start.nanos).unwrap();
    let second = chrono::DateTime::from_timestamp(end.secs, end.nanos).unwrap();
    second.signed_duration_since(first).num_seconds()
}

/// The text of an instant that the calendar holds.
pub fn time_text(at: Timestamp) -> (text: String)
    requires
        representable(at.secs as int, at.nanos as int),
    ensures
        text@ == utc_text(at.secs as int, at.nanos as int, time_pattern()),
        at.nanos < nanos_per_second() && in_four_digit_years(at.secs as int) ==> rfc3339_instant(
            text@,
        ) == Some((at.secs as int, 0int)),
{
    format_utc(at, "%Y-%m-%dT%H:%M:%SZ")
}

} // verus!
