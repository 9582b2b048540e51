//! Prometheus: which requests to send and how to show the series that come back.

pub mod query;

use vstd::prelude::*;
use vstd::string::*;

use crate::backend::{Auth, Endpoint, Request};
use crate::map::{lookup, TextMap};
use crate::number::{decimal, push_decimal};
use crate::text::{
    contains, each, each_pair, join, joined, lowercase, lowercase_text, occurs_in, optional, same,
    trimmed_end,
};
use crate::time::{
    in_four_digit_years, instant, nanos_per_second, representable, rfc3339_instant, time_pattern,
    time_text, utc_text,
};
use query::MetricRequest;

verus! {

/// What Prometheus knows of a metric.
#[derive(Debug)]
pub struct MetricMeta {
    pub kind: String,
    pub help: String,
}

/// A time in seconds since the epoch: the whole seconds, the nanoseconds on
/// top of them, and the number as it is written.
#[derive(Debug)]
pub struct UnixTime {
    pub secs: i64,
    pub sub_ns: u32,
    pub text: String,
}

/// The number that a value stands for: the bits of its binary64 form, and the
/// number rounded for the reader.
#[derive(Debug)]
pub struct Reading {
    pub bits: u64,
    pub text: String,
}

/// A point of a series: its time, its value as it came, and the number that
/// the value stands for, where it stands for one.
#[derive(Debug)]
pub struct Sample {
    pub at: UnixTime,
    pub value: String,
    pub reading: Option<Reading>,
}

/// A series of points, or a single value, with its labels.
pub struct PromSeries {
    pub metric: TextMap<String>,
    pub values: Vec<Sample>,
    /// The mean of the numbers of the points, rounded for the reader.
    pub mean: String,
    pub value: Option<String>,
}

/// A time in words, or the number itself where the calendar does not hold it.
pub open spec fn unix_time(ts: UnixTime) -> Seq<char> {
    if representable(ts.secs as int, ts.sub_ns as int) {
        utc_text(ts.secs as int, ts.sub_ns as int, time_pattern())
    } else {
        ts.text@
    }
}

/// A time in words, or the number itself where the calendar does not hold it.
/// The words of a year of four digits read back as the same second.
pub fn format_unix_ts(ts: &UnixTime) -> (text: String)
    ensures
        text@ == unix_time(*ts),
        ts.sub_ns < nanos_per_second() && in_four_digit_years(ts.secs as int) ==> rfc3339_instant(
            text@,
        ) == Some((ts.secs as int, 0int)),
{
    match instant(ts.secs, ts.sub_ns) {
        Some(at) => time_text(at),
        None => ts.text.clone(),
    }
}

/// A label as a selector shows it.
pub open spec fn shown_label(key: Seq<char>, value: Seq<char>) -> Seq<char> {
    key + "=\""@ + value + "\""@
}

/// The labels of a metric other than its name, in their order.
pub open spec fn shown_labels(metric: Seq<(Seq<char>, String)>) -> Seq<Seq<char>>
    decreases metric.len(),
{
    if metric.len() == 0 {
        Seq::empty()
    } else {
        let (key, value) = metric.last();
        let rest = shown_labels(metric.drop_last());
        if key == "__name__"@ {
            rest
        } else {
            rest.push(shown_label(key, value@))
        }
    }
}

/// The selector of a metric: its name, and its labels between braces where it has any.
pub open spec fn shown_selector(metric: Seq<(Seq<char>, String)>) -> Seq<char> {
    let name = match lookup(metric, "__name__"@) {
        Some(text) => text@,
        None => Seq::empty(),
    };
    let labels = shown_labels(metric);
    if labels.len() == 0 {
        name
    } else {
        name + "{"@ + joined(labels, ", "@) + "}"@
    }
}

/// The selector of a metric: its name, and its labels between braces where it has any.
pub fn format_selector(metric: &TextMap<String>) -> (text: String)
    ensures
        text@ == shown_selector(metric@),
{
    let mut labels: Vec<String> = Vec::new();
    let mut i: usize = 0;
    assert(each(labels@) =~= shown_labels(metric@.take(0)));
    let n: usize = metric.len();
    while i < n
        invariant
            n == metric@.len(),
            i <= n,
            each(labels@) == shown_labels(metric@.take(i as int)),
        decreases n - i,
    {
        let key = metric.key_at(i);
        let value = metric.value_at(i);
        assert(metric@.take(i + 1).drop_last() =~= metric@.take(i as int));
        if !same(key.as_str(), "__name__") {
            let mut label = key.clone();
            label.append("=\"");
            label.append(value.as_str());
            label.append("\"");
            let ghost so_far = labels@;
            labels.push(label);
            assert(each(labels@) =~= each(so_far).push(label@));
        }
        i = i + 1;
    }
    assert(metric@.take(n as int) =~= metric@);
    let mut out = match metric.get("__name__") {
        Some(name) => name.clone(),
        None => String::new(),
    };
    assert(each(labels@).len() == labels@.len());
    if !labels.is_empty() {
        out.append("{");
        out.append(join(&labels, ", ").as_str());
        out.append("}");
    }
    out
}

/// The place of a number in the order of binary64 numbers, from its bits: the
/// magnitude with its sign, and none for what is not a number.
pub open spec fn rank(bits: u64) -> Option<int> {
    let magnitude = bits as int % 0x8000_0000_0000_0000;
    if magnitude > 0x7ff0_0000_0000_0000 {
        None
    } else if bits < 0x8000_0000_0000_0000 {
        Some(magnitude)
    } else {
        Some(-magnitude)
    }
}

/// The place of a number in the order of binary64 numbers, from its bits.
pub fn rank_of_bits(bits: u64) -> (place: Option<i64>)
    ensures
        match place {
            Some(p) => rank(bits) == Some(p as int),
            None => rank(bits) is None,
        },
{
    let magnitude: u64 = bits % 0x8000_0000_0000_0000;
    if magnitude > 0x7ff0_0000_0000_0000 {
        None
    } else if bits < 0x8000_0000_0000_0000 {
        Some(magnitude as i64)
    } else {
        Some(-(magnitude as i64))
    }
}

/// One number is smaller than another. What is not a number is neither
/// smaller nor larger than anything.
pub open spec fn smaller(a: u64, b: u64) -> bool {
    match (rank(a), rank(b)) {
        (Some(x), Some(y)) => x < y,
        _ => false,
    }
}

fn is_smaller(a: u64, b: u64) -> (r: bool)
    ensures
        r == smaller(a, b),
{
    match (rank_of_bits(a), rank_of_bits(b)) {
        (Some(x), Some(y)) => x < y,
        _ => false,
    }
}

/// The points whose value stands for a number.
pub open spec fn readings(values: Seq<Sample>) -> Seq<Sample>
    decreases values.len(),
{
    if values.len() == 0 {
        Seq::empty()
    } else {
        let rest = readings(values.drop_last());
        if values.last().reading is Some {
            rest.push(values.last())
        } else {
            rest
        }
    }
}

/// The bits of a point's number.
pub open spec fn bits_of(sample: Sample) -> u64 {
    sample.reading->0.bits
}

/// Where the smallest number stands: the first, unless a later one is smaller.
pub open spec fn least(points: Seq<Sample>) -> int
    decreases points.len(),
{
    if points.len() <= 1 {
        0
    } else {
        let k = least(points.drop_last());
        if smaller(bits_of(points.last()), bits_of(points[k])) {
            points.len() - 1
        } else {
            k
        }
    }
}

/// Where the largest number stands: the first, unless a later one is larger.
pub open spec fn greatest(points: Seq<Sample>) -> int
    decreases points.len(),
{
    if points.len() <= 1 {
        0
    } else {
        let k = greatest(points.drop_last());
        if smaller(bits_of(points[k]), bits_of(points.last())) {
            points.len() - 1
        } else {
            k
        }
    }
}

/// The summary of a series, from the texts that go into it.
pub open spec fn summary_words(
    min: Seq<char>,
    mean: Seq<char>,
    max: Seq<char>,
    peak: Seq<char>,
    last: Seq<char>,
) -> Seq<char> {
    "min="@ + min + " avg="@ + mean + " max="@ + max + "@"@ + peak + " last="@ + last
}

/// The summary of a series: the smallest number, the mean, the largest number
/// with its time, and the last number; of points that stand for a number, if
/// there are any.
pub open spec fn summary(values: Seq<Sample>, mean: Seq<char>) -> Option<Seq<char>> {
    let points = readings(values);
    if points.len() == 0 {
        None
    } else {
        let peak = points[greatest(points)];
        Some(
            summary_words(
                points[least(points)].reading->0.text@,
                mean,
                peak.reading->0.text@,
                unix_time(peak.at),
                points.last().reading->0.text@,
            ),
        )
    }
}

/// The summary of a series, from the texts that go into it.
pub fn summary_text(min: &str, mean: &str, max: &str, peak: &str, last: &str) -> (text: String)
    ensures
        text@ == summary_words(min@, mean@, max@, peak@, last@),
{
    let mut out = "min=".to_owned();
    out.append(min);
    out.append(" avg=");
    out.append(mean);
    out.append(" max=");
    out.append(max);
    out.append("@");
    out.append(peak);
    out.append(" last=");
    out.append(last);
    out
}

proof fn lemma_extremes_in_range(points: Seq<Sample>)
    requires
        points.len() > 0,
    ensures
        0 <= least(points) < points.len(),
        0 <= greatest(points) < points.len(),
    decreases points.len(),
{
    if points.len() > 1 {
        lemma_extremes_in_range(points.drop_last());
    }
}

/// The summary's smallest number is smaller than no number before it and none
/// behind it: where the first point is a number, it is the first of the
/// smallest; where it is not, nothing compares with it and it stays.
pub proof fn least_is_first_of_smallest(points: Seq<Sample>)
    requires
        points.len() > 0,
    ensures
        0 <= least(points) < points.len(),
        rank(bits_of(points[0])) is None ==> least(points) == 0,
        rank(bits_of(points[0])) is Some ==> {
            &&& rank(bits_of(points[least(points)])) is Some
            &&& forall|j: int|
                0 <= j < points.len() && rank(bits_of(#[trigger] points[j])) is Some ==> {
                    &&& rank(bits_of(points[least(points)]))->0 <= rank(bits_of(points[j]))->0
                    &&& j < least(points) ==> rank(bits_of(points[least(points)]))->0 < rank(
                        bits_of(points[j]),
                    )->0
                }
        },
    decreases points.len(),
{
    if points.len() > 1 {
        let shorter = points.drop_last();
        least_is_first_of_smallest(shorter);
        assert forall|j: int| 0 <= j < shorter.len() implies #[trigger] points[j]
            == shorter[j] by {}
    }
}

/// The summary's largest number is the first of the largest, where the first
/// point is a number; where it is not, nothing compares with it and it stays.
pub proof fn greatest_is_first_of_largest(points: Seq<Sample>)
    requires
        points.len() > 0,
    ensures
        0 <= greatest(points) < points.len(),
        rank(bits_of(points[0])) is None ==> greatest(points) == 0,
        rank(bits_of(points[0])) is Some ==> {
            &&& rank(bits_of(points[greatest(points)])) is Some
            &&& forall|j: int|
                0 <= j < points.len() && rank(bits_of(#[trigger] points[j])) is Some ==> {
                    &&& rank(bits_of(points[j]))->0 <= rank(bits_of(points[greatest(points)]))->0
                    &&& j < greatest(points) ==> rank(bits_of(points[j]))->0 < rank(
                        bits_of(points[greatest(points)]),
                    )->0
                }
        },
    decreases points.len(),
{
    if points.len() > 1 {
        let shorter = points.drop_last();
        greatest_is_first_of_largest(shorter);
        assert forall|j: int| 0 <= j < shorter.len() implies #[trigger] points[j]
            == shorter[j] by {}
    }
}

/// The summary of a series whose mean is given, or none where no point stands
/// for a number.
pub fn summarize(values: &Vec<Sample>, mean: &str) -> (result: Option<String>)
    ensures
        optional(result) == summary(values@, mean@),
{
    // The places of the smallest, the largest and the last number so far.
    let mut found: Option<(usize, usize, usize)> = None;
    let mut i: usize = 0;
    while i < values.len()
        invariant
            i <= values@.len(),
            found is None <==> readings(values@.take(i as int)).len() == 0,
            found matches Some((min, max, last)) ==> {
                let points = readings(values@.take(i as int));
                &&& min < values@.len() && max < values@.len() && last < values@.len()
                &&& values@[min as int] == points[least(points)]
                &&& values@[max as int] == points[greatest(points)]
                &&& values@[last as int] == points.last()
                &&& values@[min as int].reading is Some
                &&& values@[max as int].reading is Some
                &&& values@[last as int].reading is Some
            },
        decreases values@.len() - i,
    {
        let ghost before = readings(values@.take(i as int));
        assert(values@.take(i + 1).drop_last() =~= values@.take(i as int));
        if let Some(reading) = &values[i].reading {
            let ghost points = before.push(values@[i as int]);
            assert(readings(values@.take(i + 1)) =~= points);
            assert(points.drop_last() =~= before);
            proof {
                if before.len() > 0 {
                    lemma_extremes_in_range(before);
                }
            }
            match found {
                Some((min, max, _)) => {
                    let lowest: u64 = match &values[min].reading {
                        Some(r) => r.bits,
                        None => 0,
                    };
                    let highest: u64 = match &values[max].reading {
                        Some(r) => r.bits,
                        None => 0,
                    };
                    let min: usize = if is_smaller(reading.bits, lowest) {
                        i
                    } else {
                        min
                    };
                    let max: usize = if is_smaller(highest, reading.bits) {
                        i
                    } else {
                        max
                    };
                    found = Some((min, max, i));
                },
                None => {
                    found = Some((i, i, i));
                },
            }
        }
        i = i + 1;
    }
    assert(values@.take(i as int) =~= values@);
    match found {
        Some((min, max, last)) => {
            match (&values[min].reading, &values[max].reading, &values[last].reading) {
                (Some(lowest), Some(highest), Some(latest)) => {
                    let peak = format_unix_ts(&values[max].at);
                    Some(
                        summary_text(
                            lowest.text.as_str(),
                            mean,
                            highest.text.as_str(),
                            peak.as_str(),
                            latest.text.as_str(),
                        ),
                    )
                },
                _ => None,
            }
        },
        None => None,
    }
}

/// A metric as it is listed: its name, its type, and what it is for where that is known.
pub open spec fn metric_line(name: Seq<char>, meta: Option<MetricMeta>) -> Seq<char> {
    match meta {
        Some(m) => if m.help@.len() > 0 {
            name + " ("@ + m.kind@ + ") "@ + m.help@
        } else {
            name + " ("@ + m.kind@ + ")"@
        },
        None => name,
    }
}

/// A metric as it is listed.
pub fn format_metric(name: &str, meta: Option<&MetricMeta>) -> (text: String)
    ensures
        text@ == metric_line(
            name@,
            match meta {
                Some(m) => Some(*m),
                None => None,
            },
        ),
{
    let mut out = name.to_owned();
    if let Some(m) = meta {
        out.append(" (");
        out.append(m.kind.as_str());
        if m.help.as_str().is_empty() {
            out.append(")");
        } else {
            out.append(") ");
            out.append(m.help.as_str());
        }
    }
    out
}

/// What is said of the series that are not shown.
pub open spec fn cap_note(hidden: nat) -> Seq<char> {
    "... "@ + decimal(hidden)
        + " more series; aggregate in PromQL (e.g. sum by (label)) to narrow"@
}

/// What is said of the series that are not shown.
pub fn over_cap_note(total: usize, cap: usize) -> (text: String)
    requires
        cap <= total,
    ensures
        text@ == cap_note((total - cap) as nat),
{
    let mut out = "... ".to_owned();
    push_decimal(&mut out, (total - cap) as u64);
    out.append(" more series; aggregate in PromQL (e.g. sum by (label)) to narrow");
    out
}

/// A point as it is shown.
pub open spec fn shown_point(sample: Sample) -> Seq<char> {
    "\n  "@ + unix_time(sample.at) + " "@ + sample.value@
}

/// The points of a series, one below the other.
pub open spec fn shown_points(values: Seq<Sample>) -> Seq<char>
    decreases values.len(),
{
    if values.len() == 0 {
        Seq::empty()
    } else {
        shown_points(values.drop_last()) + shown_point(values.last())
    }
}

/// A series over time: its selector and its summary, then its points.
pub open spec fn matrix_block(series: PromSeries) -> Seq<char> {
    let head = match summary(series.values@, series.mean@) {
        Some(text) => shown_selector(series.metric@).push(' ') + text,
        None => shown_selector(series.metric@),
    };
    head + shown_points(series.values@)
}

/// A single value: its selector, then the value.
pub open spec fn vector_line(series: PromSeries) -> Seq<char> {
    shown_selector(series.metric@) + " => "@ + match series.value {
        Some(text) => text@,
        None => Seq::empty(),
    }
}

/// What is shown of a list of which at most `cap` items are: those items, and
/// a note where there are more.
pub open spec fn capped(shown: Seq<Seq<char>>, cap: nat) -> Seq<Seq<char>> {
    if shown.len() > cap {
        shown.take(cap as int).push(cap_note((shown.len() - cap) as nat))
    } else {
        shown
    }
}

/// Each series over time.
pub open spec fn matrix_blocks(series: Seq<PromSeries>) -> Seq<Seq<char>> {
    Seq::new(series.len(), |i: int| matrix_block(series[i]))
}

/// Each single value.
pub open spec fn vector_lines(series: Seq<PromSeries>) -> Seq<Seq<char>> {
    Seq::new(series.len(), |i: int| vector_line(series[i]))
}

/// A point as it is shown, from its time in words and its value.
pub fn point_text(time: &str, value: &str) -> (text: String)
    ensures
        text@ == "\n  "@ + time@ + " "@ + value@,
{
    let mut out = "\n  ".to_owned();
    out.append(time);
    out.append(" ");
    out.append(value);
    out
}

fn push_points(out: &mut String, values: &Vec<Sample>)
    ensures
        final(out)@ == old(out)@ + shown_points(values@),
{
    let ghost head = out@;
    let mut i: usize = 0;
    while i < values.len()
        invariant
            i <= values@.len(),
            out@ =~= head + shown_points(values@.take(i as int)),
        decreases values@.len() - i,
    {
        let time = format_unix_ts(&values[i].at);
        out.append(point_text(time.as_str(), values[i].value.as_str()).as_str());
        assert(values@.take(i + 1).drop_last() =~= values@.take(i as int));
        i = i + 1;
    }
    assert(values@.take(i as int) =~= values@);
}

/// Series over time as they are shown, at most so many of them.
pub fn shape_matrix(series: &Vec<PromSeries>, max_series: u32) -> (shown: Vec<String>)
    ensures
        each(shown@) == capped(matrix_blocks(series@), max_series as nat),
{
    let cap: usize = max_series as usize;
    let mut out: Vec<String> = Vec::new();
    let mut i: usize = 0;
    while i < series.len() && i < cap
        invariant
            i <= series@.len(),
            i <= cap,
            each(out@) =~= matrix_blocks(series@).take(i as int),
        decreases series@.len() - i,
    {
        let mut block = format_selector(&series[i].metric);
        if let Some(text) = summarize(&series[i].values, series[i].mean.as_str()) {
            block.push(' ');
            block.append(text.as_str());
        }
        push_points(&mut block, &series[i].values);
        let ghost so_far = out@;
        out.push(block);
        assert(each(out@) =~= each(so_far).push(block@));
        i = i + 1;
    }
    if series.len() > cap {
        let note = over_cap_note(series.len(), cap);
        let ghost so_far = out@;
        out.push(note);
        assert(each(out@) =~= each(so_far).push(note@));
    } else {
        assert(matrix_blocks(series@).take(i as int) =~= matrix_blocks(series@));
    }
    out
}

/// Single values as they are shown, at most so many of them.
pub fn shape_vector(series: &Vec<PromSeries>, max_series: u32) -> (shown: Vec<String>)
    ensures
        each(shown@) == capped(vector_lines(series@), max_series as nat),
{
    let cap: usize = max_series as usize;
    let mut out: Vec<String> = Vec::new();
    let mut i: usize = 0;
    while i < series.len() && i < cap
        invariant
            i <= series@.len(),
            i <= cap,
            each(out@) =~= vector_lines(series@).take(i as int),
        decreases series@.len() - i,
    {
        let mut line = format_selector(&series[i].metric);
        line.append(" => ");
        match &series[i].value {
            Some(text) => {
                line.append(text.as_str());
            },
            None => {
                line.append("");
            },
        }
        proof {
            reveal_strlit("");
            assert(""@ =~= Seq::<char>::empty());
        }
        let ghost so_far = out@;
        out.push(line);
        assert(each(out@) =~= each(so_far).push(line@));
        i = i + 1;
    }
    if series.len() > cap {
        let note = over_cap_note(series.len(), cap);
        let ghost so_far = out@;
        out.push(note);
        assert(each(out@) =~= each(so_far).push(note@));
    } else {
        assert(vector_lines(series@).take(i as int) =~= vector_lines(series@));
    }
    out
}

/// What is shown has at most one item more than the cap, and where everything
/// fits it is shown without a note.
pub proof fn capped_is_short(shown: Seq<Seq<char>>, cap: nat)
    ensures
        capped(shown, cap).len() <= cap + 1,
        shown.len() <= cap ==> capped(shown, cap) == shown,
        shown.len() > cap ==> capped(shown, cap).len() == cap + 1 && capped(shown, cap).last()
            == cap_note((shown.len() - cap) as nat),
        forall|i: int|
            0 <= i < shown.len() && i < cap ==> #[trigger] capped(shown, cap)[i] == shown[i],
{
}

/// The metric's name, in lower case, holds what is looked for, in lower case.
pub open spec fn is_kept(lower_name: Seq<char>, needle: Option<Seq<char>>) -> bool {
    needle matches Some(n) ==> occurs_in(n, lower_name)
}

/// Whether a metric's name, in lower case, holds what is looked for, in lower case.
pub fn keeps_metric(lower_name: &str, needle: &Option<String>) -> (r: bool)
    ensures
        r == is_kept(lower_name@, optional(*needle)),
{
    match needle {
        Some(n) => contains(lower_name, n.as_str()),
        None => true,
    }
}

/// The first item of a list.
pub open spec fn first_meta(metas: Seq<MetricMeta>) -> Option<MetricMeta> {
    if metas.len() > 0 {
        Some(metas[0])
    } else {
        None
    }
}

/// The metrics whose names hold what is looked for, in the order of their names.
pub open spec fn listed(
    data: Seq<(Seq<char>, Vec<MetricMeta>)>,
    needle: Option<Seq<char>>,
) -> Seq<Seq<char>>
    decreases data.len(),
{
    if data.len() == 0 {
        Seq::empty()
    } else {
        let (name, metas) = data.last();
        let rest = listed(data.drop_last(), needle);
        if is_kept(lowercase_text(name), needle) {
            rest.push(metric_line(name, first_meta(metas@)))
        } else {
            rest
        }
    }
}

/// Without a filter every metric is listed, and a filter lists some of them,
/// each as it is listed without.
pub proof fn filter_only_leaves_out(
    data: Seq<(Seq<char>, Vec<MetricMeta>)>,
    needle: Option<Seq<char>>,
)
    ensures
        listed(data, None).len() == data.len(),
        forall|i: int|
            0 <= i < data.len() ==> #[trigger] listed(data, None)[i] == metric_line(
                data[i].0,
                first_meta(data[i].1@),
            ),
        listed(data, needle).len() <= data.len(),
        forall|k: int|
            0 <= k < listed(data, needle).len() ==> listed(data, None).contains(
                #[trigger] listed(data, needle)[k],
            ),
    decreases data.len(),
{
    if data.len() > 0 {
        let shorter = data.drop_last();
        filter_only_leaves_out(shorter, needle);
        let all = listed(data, None);
        assert(all =~= listed(shorter, None).push(
            metric_line(data.last().0, first_meta(data.last().1@)),
        ));
        assert forall|i: int| 0 <= i < data.len() implies #[trigger] all[i] == metric_line(
            data[i].0,
            first_meta(data[i].1@),
        ) by {
            if i < shorter.len() {
                assert(all[i] == listed(shorter, None)[i]);
            }
        }
        assert forall|k: int| 0 <= k < listed(data, needle).len() implies all.contains(
            #[trigger] listed(data, needle)[k],
        ) by {
            let kept = listed(shorter, needle);
            if k < kept.len() {
                assert(listed(data, needle)[k] == kept[k]);
                let i = choose|i: int|
                    0 <= i < shorter.len() && listed(shorter, None)[i] == kept[k];
                assert(all[i] == kept[k]);
            } else {
                assert(all[data.len() - 1] == listed(data, needle)[k]);
            }
        }
    }
}

/// Two filters that are the same in lower case list the same metrics.
pub proof fn filter_ignores_case(
    data: Seq<(Seq<char>, Vec<MetricMeta>)>,
    a: Seq<char>,
    b: Seq<char>,
)
    requires
        lowercase_text(a) == lowercase_text(b),
    ensures
        listed(data, needle_of(Some(a))) == listed(data, needle_of(Some(b))),
{
}

/// How to ask Prometheus for metrics.
#[derive(Debug)]
pub struct PrometheusClient {
    pub endpoint: Endpoint,
    pub target_points: u32,
    pub max_series: u32,
    pub min_step_seconds: u32,
}

/// What is looked for, in lower case.
pub open spec fn needle_of(filter: Option<Seq<char>>) -> Option<Seq<char>> {
    match filter {
        Some(f) => Some(lowercase_text(f)),
        None => None,
    }
}

/// The characters of an optional filter.
pub open spec fn filter_chars(filter: Option<&str>) -> Option<Seq<char>> {
    match filter {
        Some(f) => Some(f@),
        None => None,
    }
}

impl PrometheusClient {
    /// A client of the Prometheus at a URL, which may end in slashes.
    pub fn new(
        base_url: &str,
        auth: Auth,
        target_points: u32,
        max_series: u32,
        min_step_seconds: u32,
    ) -> (client: Self)
        ensures
            client.endpoint.base_url@ == trimmed_end(base_url@, '/'),
            client.endpoint.auth == auth,
            client.endpoint.name@ == "Prometheus"@,
            client.target_points == target_points,
            client.max_series == max_series,
            client.min_step_seconds == min_step_seconds,
    {
        PrometheusClient {
            endpoint: Endpoint::new(base_url, auth, "Prometheus"),
            target_points,
            max_series,
            min_step_seconds,
        }
    }

    /// The request for the metrics that there are.
    pub fn list_metrics(&self) -> (request: Request)
        ensures
            request.url@ == self.endpoint.base_url@ + "/api/v1/metadata"@,
            request.params@ == Seq::<(String, String)>::empty(),
            request.credentials@ == self.endpoint.auth.credentials(),
    {
        self.endpoint.get_json("/api/v1/metadata", Vec::new())
    }

    /// The metrics as they are listed, in the order of their names: those
    /// whose names hold the filter, in whichever case.
    pub fn listed_metrics(
        &self,
        data: &TextMap<Vec<MetricMeta>>,
        filter: Option<&str>,
    ) -> (lines: Vec<String>)
        ensures
            each(lines@) == listed(data@, needle_of(filter_chars(filter))),
    {
        let needle: Option<String> = match filter {
            Some(f) => Some(lowercase(f)),
            None => None,
        };
        let mut lines: Vec<String> = Vec::new();
        let mut i: usize = 0;
        let n: usize = data.len();
        assert(each(lines@) =~= listed(data@.take(0), needle_of(filter_chars(filter))));
        while i < n
            invariant
                n == data@.len(),
                i <= n,
                optional(needle) == needle_of(filter_chars(filter)),
                each(lines@) == listed(data@.take(i as int), needle_of(filter_chars(filter))),
            decreases n - i,
        {
            let name = data.key_at(i);
            let metas = data.value_at(i);
            assert(data@.take(i + 1).drop_last() =~= data@.take(i as int));
            if keeps_metric(lowercase(name.as_str()).as_str(), &needle) {
                let line = if metas.len() > 0 {
                    format_metric(name.as_str(), Some(&metas[0]))
                } else {
                    format_metric(name.as_str(), None)
                };
                let ghost so_far = lines@;
                lines.push(line);
                assert(each(lines@) =~= each(so_far).push(line@));
            }
            i = i + 1;
        }
        assert(data@.take(n as int) =~= data@);
        lines
    }

    /// The request that a query leads to: to one path for an instant, to
    /// another for a range.
    pub fn query_metrics(&self, req: &MetricRequest) -> (request: Request)
        ensures
            request.url@ == self.endpoint.base_url@ + if req.instant {
                "/api/v1/query"@
            } else {
                "/api/v1/query_range"@
            },
            each_pair(request.params@) == req.params(
                req.step_seconds(self.target_points, self.min_step_seconds),
            ),
            request.credentials@ == self.endpoint.auth.credentials(),
    {
        let params = req.to_params(self.target_points, self.min_step_seconds);
        if req.instant {
            self.endpoint.get_json("/api/v1/query", params)
        } else {
            self.endpoint.get_json("/api/v1/query_range", params)
        }
    }

    /// The result of a query as it is shown: single values for a vector,
    /// series over time for anything else.
    pub open spec fn shown(
        &self,
        result_type: Seq<char>,
        result: Seq<PromSeries>,
    ) -> Seq<Seq<char>> {
        if result_type == "vector"@ {
            capped(vector_lines(result), self.max_series as nat)
        } else {
            capped(matrix_blocks(result), self.max_series as nat)
        }
    }

    /// The result of a query as it is shown: single values for a vector,
    /// series over time for anything else.
    pub fn shaped(&self, result_type: &str, result: &Vec<PromSeries>) -> (shown: Vec<String>)
        ensures
            each(shown@) == self.shown(result_type@, result@),
    {
        if same(result_type, "vector") {
            shape_vector(result, self.max_series)
        } else {
            shape_matrix(result, self.max_series)
        }
    }
}

} // verus!
