//! Laws of metric queries and of the series that come back.

use vstd::prelude::*;

use crate::backend::{Auth, Credential, Request};
use crate::map::{lookup, TextMap};
use crate::number::{decimal, decimal_text};
use crate::prometheus::query::{
    resolve_step, step_for_window, window_seconds, MetricRequest,
};
use crate::prometheus::{
    format_metric, format_selector, format_unix_ts, greatest, keeps_metric, least,
    listed, over_cap_note, point_text, rank_of_bits, readings, shape_matrix, shape_vector,
    shown_labels, shown_points, smaller, summarize, summary_text, unix_time, MetricMeta,
    PromSeries, PrometheusClient, Sample, UnixTime,
};
use crate::text::{each, each_pair, joined, lowercase_text, occurs_in};
use crate::time::{rfc3339_instant, utc_text};

verus! {

/// Without a request, the step times the points that are aimed at is the
/// window, but for what does not divide: the step is the largest that leaves
/// the window at least as many steps as points are aimed at. It is raised to
/// the floor where it is below it, and held at the largest number of 32 bits.
pub proof fn step_divides_the_window(
    window: i64,
    target_points: u32,
    min_step: u32,
    step: u32,
)
    requires
        call_ensures(step_for_window, (Some(window), None::<u32>, target_points, min_step), step),
        window > 0,
    ensures
        ({
            let target: int = if target_points == 0 {
                1
            } else {
                target_points as int
            };
            let floor: int = if min_step == 0 {
                1
            } else {
                min_step as int
            };
            &&& step >= floor
            &&& step > floor ==> step * target <= window
            &&& step < u32::MAX ==> window < (step + 1) * target
        }),
{
    let target: int = if target_points == 0 {
        1
    } else {
        target_points as int
    };
    let quotient = crate::prometheus::query::share(window as int, target_points);
    if target_points != 0 {
        assert(quotient * target <= window < (quotient + 1) * target) by (nonlinear_arith)
            requires
                target > 0,
                quotient == window as int / target,
        ;
    }
    assert(quotient * target <= window < (quotient + 1) * target);
    if step == u32::MAX {
        if quotient > step {
            assert(step * target <= quotient * target) by (nonlinear_arith)
                requires
                    step <= quotient,
                    target > 0,
            ;
        }
    } else {
        assert(step >= quotient);
        assert((quotient + 1) * target <= (step + 1) * target) by (nonlinear_arith)
            requires
                step >= quotient,
                target > 0,
        ;
    }
}

/// A step that is asked for is taken, unless it is zero; and where the window
/// is unknown or empty, the step is the floor, unless that is zero.
pub proof fn steps_without_a_window(
    window: Option<i64>,
    requested: Option<u32>,
    target_points: u32,
    min_step: u32,
    step: u32,
)
    requires
        call_ensures(step_for_window, (window, requested, target_points, min_step), step),
    ensures
        requested matches Some(n) ==> (n > 0 ==> step == n) && (n == 0 ==> step == 1),
        requested is None && (window is None || window->0 <= 0) ==> (min_step > 0 ==> step
            == min_step) && (min_step == 0 ==> step == 1),
{
}

/// The step of a span of time is that of its whole seconds.
pub proof fn step_of_a_span(
    start: &str,
    end: &str,
    requested: Option<u32>,
    target_points: u32,
    min_step: u32,
    window: Option<i64>,
    by_window: u32,
    step: u32,
)
    requires
        call_ensures(window_seconds, (start, end), window),
        call_ensures(step_for_window, (window, requested, target_points, min_step), by_window),
        call_ensures(resolve_step, (start, end, requested, target_points, min_step), step),
    ensures
        step == by_window,
{
}

/// A span has a length exactly where both of its ends are RFC 3339. Turned
/// round it is as long, the other way; between whole seconds it is their
/// difference, and otherwise as many seconds as are full.
pub proof fn lengths_of_spans(
    start: &str,
    end: &str,
    there: Option<i64>,
    back: Option<i64>,
)
    requires
        call_ensures(window_seconds, (start, end), there),
        call_ensures(window_seconds, (end, start), back),
    ensures
        there is Some <==> rfc3339_instant(start@) is Some && rfc3339_instant(end@) is Some,
        there is Some ==> back is Some && there->0 == -back->0,
        rfc3339_instant(start@) matches Some(s) ==> rfc3339_instant(end@) matches Some(e)
            ==> {
            let elapsed = (e.0 - s.0) * 1_000_000_000 + (e.1 - s.1);
            &&& s.1 == 0 && e.1 == 0 ==> there->0 == e.0 - s.0
            &&& 0 <= s.1 < 1_000_000_000 && 0 <= e.1 < 1_000_000_000 && elapsed >= 0 ==> there->0
                * 1_000_000_000 <= elapsed < (there->0 + 1) * 1_000_000_000
        },
{
    if there is Some {
        let s = rfc3339_instant(start@)->0;
        let e = rfc3339_instant(end@)->0;
        assert(crate::time::elapsed_nanos(s, e) == -crate::time::elapsed_nanos(e, s));
    }
}

/// The parameters of a query over a span: the PromQL and the span as they were
/// given, and the step in decimal. Those of an instant: the PromQL, and the
/// end of the span.
pub proof fn metric_parameters(
    req: &MetricRequest,
    target_points: u32,
    min_step: u32,
    params: Vec<(String, String)>,
    start: &str,
    end: &str,
    step: u32,
    shown: String,
)
    requires
        call_ensures(MetricRequest::to_params, (req, target_points, min_step), params),
        start@ == req.start@,
        end@ == req.end@,
        call_ensures(resolve_step, (start, end, req.step, target_points, min_step), step),
        call_ensures(decimal_text, (step as u64,), shown),
    ensures
        params@.len() == if req.instant {
            2int
        } else {
            4int
        },
        params@[0].0@ == "query"@ && params@[0].1@ == req.promql@,
        req.instant ==> params@[1].0@ == "time"@ && params@[1].1@ == req.end@,
        !req.instant ==> {
            &&& params@[1].0@ == "start"@ && params@[1].1@ == req.start@
            &&& params@[2].0@ == "end"@ && params@[2].1@ == req.end@
            &&& params@[3].0@ == "step"@ && params@[3].1@ == shown@
        },
{
    let pairs = each_pair(params@);
    assert(pairs.len() == params@.len());
    assert(pairs[0] == (params@[0].0@, params@[0].1@));
    assert(pairs[1] == (params@[1].0@, params@[1].1@));
    if !req.instant {
        assert(pairs[2] == (params@[2].0@, params@[2].1@));
        assert(pairs[3] == (params@[3].0@, params@[3].1@));
    }
}

/// A query goes to the path of an instant or to that of a range, with its
/// parameters and with the credentials of the client; the metrics are asked
/// for without parameters.
pub proof fn metric_requests(
    client: &PrometheusClient,
    req: &MetricRequest,
    params: Vec<(String, String)>,
    request: Request,
    listing: Request,
)
    requires
        call_ensures(
            MetricRequest::to_params,
            (req, client.target_points, client.min_step_seconds),
            params,
        ),
        call_ensures(PrometheusClient::query_metrics, (client, req), request),
        call_ensures(PrometheusClient::list_metrics, (client,), listing),
    ensures
        req.instant ==> request.url@ == client.endpoint.base_url@ + "/api/v1/query"@,
        !req.instant ==> request.url@ == client.endpoint.base_url@ + "/api/v1/query_range"@,
        request.params@.len() == params@.len(),
        forall|i: int|
            0 <= i < params@.len() ==> #[trigger] request.params@[i].0@ == params@[i].0@
                && request.params@[i].1@ == params@[i].1@,
        listing.url@ == client.endpoint.base_url@ + "/api/v1/metadata"@,
        listing.params@.len() == 0,
        listing.credentials@ == request.credentials@,
        client.endpoint.auth is Anonymous ==> request.credentials@.len() == 0,
        client.endpoint.auth matches Auth::Bearer(t) ==> request.credentials@ == seq![
            Credential::Bearer { token: t },
        ],
        client.endpoint.auth matches Auth::Basic { username: u, password: p }
            ==> request.credentials@ == seq![Credential::Basic { username: u, password: p }],
{
    let sent = each_pair(request.params@);
    let made = each_pair(params@);
    assert(sent == made);
    assert(sent.len() == request.params@.len() && made.len() == params@.len());
    assert forall|i: int| 0 <= i < params@.len() implies #[trigger] request.params@[i].0@
        == params@[i].0@ && request.params@[i].1@ == params@[i].1@ by {
        assert(sent[i] == made[i]);
    }
}

/// A time that the calendar holds is shown in words, of the second and the
/// nanoseconds that it has; any other is shown as it is written.
pub proof fn times_of_points(ts: &UnixTime, text: String)
    requires
        call_ensures(format_unix_ts, (ts,), text),
    ensures
        text@ == unix_time(*ts),
        -8_334_601_228_800 <= ts.secs <= 8_210_266_876_799 && (ts.sub_ns < 1_000_000_000 || (
        ts.sub_ns < 2_000_000_000 && ts.secs % 60 == 59)) ==> text@ == utc_text(
            ts.secs as int,
            ts.sub_ns as int,
            "%Y-%m-%dT%H:%M:%SZ"@,
        ),
        ts.secs < -8_334_601_228_800 || ts.secs > 8_210_266_876_799 || ts.sub_ns >= 2_000_000_000
            || (ts.sub_ns >= 1_000_000_000 && ts.secs % 60 != 59) ==> text@ == ts.text@,
        ts.sub_ns < 1_000_000_000 && -62_167_219_200 <= ts.secs <= 253_402_300_799
            ==> rfc3339_instant(text@) == Some((ts.secs as int, 0int)),
{
}

/// Numbers without a sign are in the order of their bits, those with one in the
/// opposite order and below them, the two zeros are the same, and what is not
/// a number is neither smaller nor larger than anything.
pub proof fn order_of_numbers(a: u64, b: u64)
    requires
        a <= 0x7ff0_0000_0000_0000,
        b <= 0x7ff0_0000_0000_0000,
    ensures
        ({
            let sign: u64 = 0x8000_0000_0000_0000;
            let minus_a = (a + sign) as u64;
            let minus_b = (b + sign) as u64;
            &&& smaller(a, b) <==> a < b
            &&& smaller(minus_a, minus_b) <==> b < a
            &&& smaller(minus_a, b) <==> a > 0 || b > 0
            &&& !smaller(a, minus_b)
        }),
{
}

/// What is not a number is neither smaller nor larger than anything.
pub proof fn what_is_no_number_has_no_place(a: u64, b: u64, place: Option<i64>)
    requires
        call_ensures(rank_of_bits, (a,), place),
        a % 0x8000_0000_0000_0000 > 0x7ff0_0000_0000_0000,
    ensures
        place is None,
        !smaller(a, b),
        !smaller(b, a),
{
}

/// One number is smaller than another exactly where both have a place and its
/// place comes first.
pub proof fn places_of_numbers(a: u64, b: u64, x: Option<i64>, y: Option<i64>)
    requires
        call_ensures(rank_of_bits, (a,), x),
        call_ensures(rank_of_bits, (b,), y),
    ensures
        smaller(a, b) <==> x is Some && y is Some && x->0 < y->0,
        x is Some <==> a % 0x8000_0000_0000_0000 <= 0x7ff0_0000_0000_0000,
{
}

/// Where the points that stand for a number are in a series.
spec fn places(values: Seq<Sample>) -> Seq<int>
    decreases values.len(),
{
    if values.len() == 0 {
        Seq::empty()
    } else if values.last().reading is Some {
        places(values.drop_last()).push(values.len() - 1)
    } else {
        places(values.drop_last())
    }
}

proof fn lemma_places(values: Seq<Sample>)
    ensures
        places(values).len() == readings(values).len(),
        forall|k: int|
            0 <= k < places(values).len() ==> {
                let i = #[trigger] places(values)[k];
                &&& 0 <= i < values.len()
                &&& values[i] == readings(values)[k]
                &&& values[i].reading is Some
            },
        forall|k: int, l: int|
            #![trigger places(values)[k], places(values)[l]]
            0 <= k < l < places(values).len() ==> places(values)[k] < places(values)[l],
        forall|i: int|
            0 <= i < values.len() && (#[trigger] values[i]).reading is Some ==> places(
                values,
            ).contains(i),
    decreases values.len(),
{
    if values.len() > 0 {
        let shorter = values.drop_last();
        lemma_places(shorter);
        let here = places(values);
        let there = places(shorter);
        assert forall|k: int| 0 <= k < here.len() implies {
            let i = #[trigger] here[k];
            &&& 0 <= i < values.len()
            &&& values[i] == readings(values)[k]
            &&& values[i].reading is Some
        } by {
            if k < there.len() {
                assert(here[k] == there[k]);
                assert(shorter[there[k]] == readings(shorter)[k]);
            }
        }
        assert forall|k: int, l: int|
            #![trigger here[k], here[l]]
            0 <= k < l < here.len() implies here[k] < here[l] by {
            if l < there.len() {
                assert(there[k] < there[l]);
            } else {
                assert(0 <= there[k] < shorter.len());
            }
        }
        assert forall|i: int| 0 <= i < values.len() && (#[trigger] values[i]).reading
            is Some implies here.contains(i) by {
            if i < shorter.len() {
                assert(shorter[i].reading is Some);
                let k = there.index_of(i);
                assert(there.contains(i));
                assert(here[k] == i);
            } else {
                assert(here[here.len() - 1] == i);
            }
        }
    }
}

/// A series has a summary exactly where some point of it stands for a number.
/// It counts every such point and no other: no number is smaller than the
/// smallest and none larger than the largest, each of them is the first of its
/// kind, and the last is that of the last point that stands for a number. What
/// is not a number counts as smallest or largest only where it comes first.
pub proof fn summary_counts_every_number(
    values: &Vec<Sample>,
    mean: &str,
    result: Option<String>,
) -> (at: (int, int, int, int))
    requires
        call_ensures(summarize, (values, mean), result),
    ensures
        result is None <==> forall|i: int|
            0 <= i < values@.len() ==> (#[trigger] values@[i]).reading is None,
        result matches Some(text) ==> {
            let (first, min, max, last) = at;
            &&& 0 <= first <= min <= last < values@.len()
            &&& first <= max <= last
            &&& values@[first].reading is Some && values@[last].reading is Some
            &&& values@[min].reading is Some && values@[max].reading is Some
            &&& forall|i: int|
                0 <= i < values@.len() && (#[trigger] values@[i]).reading is Some ==> {
                    let bits = values@[i].reading->0.bits;
                    let lowest = values@[min].reading->0.bits;
                    let highest = values@[max].reading->0.bits;
                    &&& first <= i <= last
                    &&& !smaller(bits, lowest)
                    &&& !smaller(highest, bits)
                    &&& i < min && bits % 0x8000_0000_0000_0000 <= 0x7ff0_0000_0000_0000
                        ==> smaller(lowest, bits)
                    &&& i < max && bits % 0x8000_0000_0000_0000 <= 0x7ff0_0000_0000_0000
                        ==> smaller(bits, highest)
                }
            &&& values@[first].reading->0.bits % 0x8000_0000_0000_0000 > 0x7ff0_0000_0000_0000
                ==> min == first && max == first
            &&& values@[first].reading->0.bits % 0x8000_0000_0000_0000 <= 0x7ff0_0000_0000_0000
                ==> values@[min].reading->0.bits % 0x8000_0000_0000_0000 <= 0x7ff0_0000_0000_0000
                && values@[max].reading->0.bits % 0x8000_0000_0000_0000 <= 0x7ff0_0000_0000_0000
            &&& text@ == "min="@ + values@[min].reading->0.text@ + " avg="@ + mean@ + " max="@
                + values@[max].reading->0.text@ + "@"@ + unix_time(values@[max].at) + " last="@
                + values@[last].reading->0.text@
        },
{
    let points = readings(values@);
    let map = places(values@);
    lemma_places(values@);
    if points.len() == 0 {
        assert forall|i: int| 0 <= i < values@.len() implies (#[trigger] values@[i]).reading
            is None by {
            if values@[i].reading is Some {
                assert(map.contains(i));
            }
        }
        (0, 0, 0, 0)
    } else {
        crate::prometheus::least_is_first_of_smallest(points);
        crate::prometheus::greatest_is_first_of_largest(points);
        let l = least(points);
        let g = greatest(points);
        let end = points.len() - 1;
        let at = (map[0], map[l], map[g], map[end]);
        assert(values@[map[0]].reading is Some);
        assert forall|i: int|
            0 <= i < values@.len() && (#[trigger] values@[i]).reading is Some implies {
            let bits = values@[i].reading->0.bits;
            let lowest = values@[at.1].reading->0.bits;
            let highest = values@[at.2].reading->0.bits;
            &&& at.0 <= i <= at.3
            &&& !smaller(bits, lowest)
            &&& !smaller(highest, bits)
            &&& i < at.1 && bits % 0x8000_0000_0000_0000 <= 0x7ff0_0000_0000_0000 ==> smaller(
                lowest,
                bits,
            )
            &&& i < at.2 && bits % 0x8000_0000_0000_0000 <= 0x7ff0_0000_0000_0000 ==> smaller(
                bits,
                highest,
            )
        } by {
            assert(map.contains(i));
            let k = map.index_of(i);
            assert(map[k] == i);
            assert(points[k] == values@[i]);
            assert(points[0] == values@[map[0]]);
            assert(points[l] == values@[map[l]]);
            assert(points[g] == values@[map[g]]);
            assert(k > 0 ==> map[0] < map[k]);
            assert(k < end ==> map[k] < map[end]);
            if k >= l && k != l {
                assert(map[l] < map[k]);
            }
            if k >= g && k != g {
                assert(map[g] < map[k]);
            }
        }
        at
    }
}

/// The summary of a series from its parts.
pub proof fn summaries_from_parts(
    min: &str,
    mean: &str,
    max: &str,
    peak: &str,
    last: &str,
    text: String,
)
    requires
        call_ensures(summary_text, (min, mean, max, peak, last), text),
    ensures
        text@ == "min="@ + min@ + " avg="@ + mean@ + " max="@ + max@ + "@"@ + peak@ + " last="@
            + last@,
{
}

/// The labels of a metric are shown one by one, in their order, each as its
/// key, an equals sign and its value between quotation marks; the name is left
/// out.
pub proof fn labels_by_parts(
    front: Seq<(Seq<char>, String)>,
    behind: Seq<(Seq<char>, String)>,
    label: (Seq<char>, String),
)
    ensures
        shown_labels(Seq::empty()).len() == 0,
        label.0 == "__name__"@ ==> shown_labels(seq![label]).len() == 0,
        label.0 != "__name__"@ ==> shown_labels(seq![label]) == seq![
            label.0 + "=\""@ + label.1@ + "\""@,
        ],
        shown_labels(front + behind) == shown_labels(front) + shown_labels(behind),
    decreases behind.len(),
{
    reveal_with_fuel(shown_labels, 2);
    assert(seq![label].drop_last() =~= Seq::empty());
    if label.0 != "__name__"@ {
        assert(shown_labels(seq![label]) =~= seq![label.0 + "=\""@ + label.1@ + "\""@]);
    }
    if behind.len() == 0 {
        assert(front + behind =~= front);
        assert(shown_labels(front) + shown_labels(behind) =~= shown_labels(front));
    } else {
        labels_by_parts(front, behind.drop_last(), label);
        assert((front + behind).drop_last() =~= front + behind.drop_last());
        assert(shown_labels(front + behind) =~= shown_labels(front) + shown_labels(behind));
    }
}

/// A selector is the name of the metric, empty where it has none, and behind
/// it the other labels between braces, if there are any.
pub proof fn selectors_have_a_name_and_labels(metric: &TextMap<String>, text: String)
    requires
        call_ensures(format_selector, (metric,), text),
    ensures
        ({
            let name = match lookup(metric@, "__name__"@) {
                Some(n) => n@,
                None => Seq::<char>::empty(),
            };
            let labels = shown_labels(metric@);
            &&& labels.len() == 0 ==> text@ == name
            &&& labels.len() > 0 ==> text@ == name + "{"@ + joined(labels, ", "@) + "}"@
        }),
{
}

/// The points of a series are shown one below the other, in their order, each
/// with its time and its value as it came.
pub proof fn points_by_parts(front: Seq<Sample>, behind: Seq<Sample>, point: Sample)
    ensures
        shown_points(Seq::empty()).len() == 0,
        shown_points(seq![point]) == "\n  "@ + unix_time(point.at) + " "@ + point.value@,
        shown_points(front + behind) == shown_points(front) + shown_points(behind),
    decreases behind.len(),
{
    reveal_with_fuel(shown_points, 2);
    assert(seq![point].drop_last() =~= Seq::empty());
    assert(shown_points(seq![point]) =~= "\n  "@ + unix_time(point.at) + " "@ + point.value@);
    if behind.len() == 0 {
        assert(front + behind =~= front);
        assert(shown_points(front) + shown_points(behind) =~= shown_points(front));
    } else {
        points_by_parts(front, behind.drop_last(), point);
        assert((front + behind).drop_last() =~= front + behind.drop_last());
        assert(shown_points(front + behind) =~= shown_points(front) + shown_points(behind));
    }
}

/// A point as it is shown.
pub proof fn points_from_parts(time: &str, value: &str, text: String)
    requires
        call_ensures(point_text, (time, value), text),
    ensures
        text@ == "\n  "@ + time@ + " "@ + value@,
{
}

/// As many series are shown as the cap allows, and where there are more a note
/// says how many.
pub proof fn matrices_are_capped(series: &Vec<PromSeries>, max_series: u32, shown: Vec<String>)
    requires
        call_ensures(shape_matrix, (series, max_series), shown),
    ensures
        series@.len() <= max_series ==> shown@.len() == series@.len(),
        series@.len() > max_series ==> shown@.len() == max_series + 1 && shown@[max_series as int]@
            == "... "@ + decimal((series@.len() - max_series) as nat)
            + " more series; aggregate in PromQL (e.g. sum by (label)) to narrow"@,
{
    assert(each(shown@).len() == shown@.len());
    assert(each(shown@)[max_series as int] == crate::prometheus::capped(
        crate::prometheus::matrix_blocks(series@),
        max_series as nat,
    )[max_series as int]);
}

/// Each series that is shown over time is shown in its place: its selector, its
/// summary behind a space where it has one, and then all of its points.
pub proof fn series_are_shown_whole(
    series: &Vec<PromSeries>,
    max_series: u32,
    shown: Vec<String>,
    i: int,
    mean: &str,
    selector: String,
    summary: Option<String>,
)
    requires
        call_ensures(shape_matrix, (series, max_series), shown),
        0 <= i < series@.len(),
        i < max_series,
        mean@ == series@[i].mean@,
        call_ensures(format_selector, (&series@[i].metric,), selector),
        call_ensures(summarize, (&series@[i].values, mean), summary),
    ensures
        summary matches Some(text) ==> shown@[i]@ == selector@ + seq![' '] + text@
            + shown_points(series@[i].values@),
        summary is None ==> shown@[i]@ == selector@ + shown_points(series@[i].values@),
{
    let blocks = crate::prometheus::matrix_blocks(series@);
    crate::prometheus::capped_is_short(blocks, max_series as nat);
    assert(each(shown@).len() == shown@.len());
    assert(each(shown@)[i] == shown@[i]@);
    assert(crate::prometheus::capped(blocks, max_series as nat)[i] == blocks[i]);
    assert(blocks[i] == crate::prometheus::matrix_block(series@[i]));
    if let Some(text) = summary {
        assert(selector@.push(' ') =~= selector@ + seq![' ']);
    }
}

/// Single values are capped as series over time are, and each is shown in its
/// place: its selector, an arrow, and its value, or nothing where it has none.
pub proof fn values_are_shown_by_selector(
    series: &Vec<PromSeries>,
    max_series: u32,
    shown: Vec<String>,
    i: int,
    selector: String,
)
    requires
        call_ensures(shape_vector, (series, max_series), shown),
        0 <= i < series@.len(),
        call_ensures(format_selector, (&series@[i].metric,), selector),
    ensures
        series@.len() <= max_series ==> shown@.len() == series@.len(),
        series@.len() > max_series ==> shown@.len() == max_series + 1 && shown@[max_series as int]@
            == "... "@ + decimal((series@.len() - max_series) as nat)
            + " more series; aggregate in PromQL (e.g. sum by (label)) to narrow"@,
        i < max_series ==> shown@[i]@ == selector@ + " => "@ + match series@[i].value {
            Some(text) => text@,
            None => Seq::<char>::empty(),
        },
{
    let lines = crate::prometheus::vector_lines(series@);
    crate::prometheus::capped_is_short(lines, max_series as nat);
    let out = crate::prometheus::capped(lines, max_series as nat);
    assert(each(shown@).len() == shown@.len());
    assert(each(shown@)[max_series as int] == out[max_series as int]);
    if i < max_series {
        assert(each(shown@)[i] == shown@[i]@);
        assert(out[i] == lines[i]);
        assert(lines[i] == crate::prometheus::vector_line(series@[i]));
    }
}

/// Nothing is shown of nothing.
pub proof fn no_series_show_nothing(
    series: &Vec<PromSeries>,
    max_series: u32,
    shown: Vec<String>,
    values: Vec<String>,
)
    requires
        series@.len() == 0,
        call_ensures(shape_matrix, (series, max_series), shown),
        call_ensures(shape_vector, (series, max_series), values),
    ensures
        shown@.len() == 0,
        values@.len() == 0,
{
    assert(each(shown@).len() == shown@.len());
    assert(each(values@).len() == values@.len());
}

/// The note on series that are not shown says how many there are.
pub proof fn notes_count_what_is_hidden(total: usize, cap: usize, text: String)
    requires
        cap <= total,
        call_ensures(over_cap_note, (total, cap), text),
    ensures
        text@ == "... "@ + decimal((total - cap) as nat)
            + " more series; aggregate in PromQL (e.g. sum by (label)) to narrow"@,
{
}

/// A result is shown as single values exactly where it is a vector, and under
/// the cap of the client.
pub proof fn results_are_shown_by_their_type(
    client: &PrometheusClient,
    result_type: &str,
    result: &Vec<PromSeries>,
    shown: Vec<String>,
    matrix: Vec<String>,
    vector: Vec<String>,
)
    requires
        call_ensures(PrometheusClient::shaped, (client, result_type, result), shown),
        call_ensures(shape_matrix, (result, client.max_series), matrix),
        call_ensures(shape_vector, (result, client.max_series), vector),
    ensures
        result_type@ == "vector"@ ==> shown@.len() == vector@.len() && forall|i: int|
            0 <= i < vector@.len() ==> #[trigger] shown@[i]@ == vector@[i]@,
        result_type@ != "vector"@ ==> shown@.len() == matrix@.len() && forall|i: int|
            0 <= i < matrix@.len() ==> #[trigger] shown@[i]@ == matrix@[i]@,
{
    let (s, m, v) = (each(shown@), each(matrix@), each(vector@));
    assert(s.len() == shown@.len() && m.len() == matrix@.len() && v.len() == vector@.len());
    if result_type@ == "vector"@ {
        assert(s == v);
        assert forall|i: int| 0 <= i < vector@.len() implies #[trigger] shown@[i]@
            == vector@[i]@ by {
            assert(s[i] == v[i]);
        }
    } else {
        assert(s == m);
        assert forall|i: int| 0 <= i < matrix@.len() implies #[trigger] shown@[i]@
            == matrix@[i]@ by {
            assert(s[i] == m[i]);
        }
    }
}

/// A metric is listed with its type between brackets and with what it is for
/// behind them; where neither is known it is listed by its name alone.
pub proof fn metrics_are_listed_with_their_type(
    name: &str,
    meta: &MetricMeta,
    known: String,
    unknown: String,
)
    requires
        call_ensures(format_metric, (name, Some(meta)), known),
        call_ensures(format_metric, (name, None::<&MetricMeta>), unknown),
    ensures
        unknown@ == name@,
        meta.help@.len() == 0 ==> known@ == name@ + " ("@ + meta.kind@ + ")"@,
        meta.help@.len() > 0 ==> known@ == name@ + " ("@ + meta.kind@ + ") "@ + meta.help@,
{
}

/// Metrics are listed one by one, in the order of their names. One is listed
/// exactly where its name, in lower case, holds what is looked for, or where
/// nothing is; with the first of what is known of it.
pub proof fn metrics_are_listed_one_by_one(
    front: Seq<(Seq<char>, Vec<MetricMeta>)>,
    behind: Seq<(Seq<char>, Vec<MetricMeta>)>,
    metric: (Seq<char>, Vec<MetricMeta>),
    needle: Option<Seq<char>>,
)
    ensures
        listed(Seq::empty(), needle).len() == 0,
        listed(front + behind, needle) == listed(front, needle) + listed(behind, needle),
        ({
            let wanted = match needle {
                Some(n) => occurs_in(n, lowercase_text(metric.0)),
                None => true,
            };
            let line = if metric.1@.len() == 0 {
                metric.0
            } else if metric.1@[0].help@.len() == 0 {
                metric.0 + " ("@ + metric.1@[0].kind@ + ")"@
            } else {
                metric.0 + " ("@ + metric.1@[0].kind@ + ") "@ + metric.1@[0].help@
            };
            &&& wanted ==> listed(seq![metric], needle) == seq![line]
            &&& !wanted ==> listed(seq![metric], needle).len() == 0
        }),
    decreases behind.len(),
{
    reveal_with_fuel(listed, 2);
    assert(seq![metric].drop_last() =~= Seq::empty());
    let line = crate::prometheus::metric_line(
        metric.0,
        crate::prometheus::first_meta(metric.1@),
    );
    if crate::prometheus::is_kept(lowercase_text(metric.0), needle) {
        assert(listed(seq![metric], needle) =~= seq![line]);
    }
    if behind.len() == 0 {
        assert(front + behind =~= front);
        assert(listed(front, needle) + listed(behind, needle) =~= listed(front, needle));
    } else {
        metrics_are_listed_one_by_one(front, behind.drop_last(), metric, needle);
        assert((front + behind).drop_last() =~= front + behind.drop_last());
        assert(listed(front + behind, needle) =~= listed(front, needle) + listed(behind, needle));
    }
}

/// The metrics of a map are listed under a filter, in lower case.
pub proof fn metrics_are_listed_under_a_filter(
    client: &PrometheusClient,
    data: &TextMap<Vec<MetricMeta>>,
    filter: &str,
    some: Vec<String>,
    all: Vec<String>,
)
    requires
        call_ensures(PrometheusClient::listed_metrics, (client, data, Some(filter)), some),
        call_ensures(PrometheusClient::listed_metrics, (client, data, None::<&str>), all),
    ensures
        all@.len() == data@.len(),
        some@.len() == listed(data@, Some(lowercase_text(filter@))).len(),
        forall|i: int|
            0 <= i < some@.len() ==> #[trigger] some@[i]@ == listed(
                data@,
                Some(lowercase_text(filter@)),
            )[i],
        forall|i: int| 0 <= i < all@.len() ==> #[trigger] all@[i]@ == listed(data@, None)[i],
{
    crate::prometheus::filter_only_leaves_out(data@, None);
    let (s, a) = (each(some@), each(all@));
    assert(s.len() == some@.len() && a.len() == all@.len());
    assert forall|i: int| 0 <= i < some@.len() implies #[trigger] some@[i]@ == listed(
        data@,
        Some(lowercase_text(filter@)),
    )[i] by {
        assert(s[i] == some@[i]@);
    }
    assert forall|i: int| 0 <= i < all@.len() implies #[trigger] all@[i]@ == listed(
        data@,
        None,
    )[i] by {
        assert(a[i] == all@[i]@);
    }
}

/// A name is kept exactly where it holds what is looked for, or where nothing
/// is.
pub proof fn names_are_kept_by_what_they_hold(
    name: &str,
    needle: &Option<String>,
    kept: bool,
)
    requires
        call_ensures(keeps_metric, (name, needle), kept),
    ensures
        needle is None ==> kept,
        *needle matches Some(n) ==> (kept <==> occurs_in(n@, name@)),
{
}

} // verus!
