//! Metric queries: the distance between points and the parameters of a query.

use vstd::prelude::*;
use vstd::string::*;

use crate::number::{decimal, decimal_text};
use crate::text::each_pair;
use crate::time::{elapsed_seconds, parse_rfc3339, rfc3339_instant, whole_seconds};

verus! {

/// A query in PromQL over a span of time, or at its end.
#[derive(Debug)]
pub struct MetricRequest {
    pub promql: String,
    pub start: String,
    pub end: String,
    pub step: Option<u32>,
    pub instant: bool,
}

/// The whole seconds of a span of time, where both of its ends are RFC 3339.
pub open spec fn window(start: Seq<char>, end: Seq<char>) -> Option<int> {
    match (rfc3339_instant(start), rfc3339_instant(end)) {
        (Some(s), Some(e)) => Some(whole_seconds(s, e)),
        _ => None,
    }
}

/// The whole seconds of a span of time, where both of its ends are RFC 3339.
pub fn window_seconds(start: &str, end: &str) -> (seconds: Option<i64>)
    ensures
        match seconds {
            Some(n) => window(start@, end@) == Some(n as int),
            None => window(start@, end@) is None,
        },
{
    let first = match parse_rfc3339(start) {
        Some(at) => at,
        None => {
            return None;
        },
    };
    let last = match parse_rfc3339(end) {
        Some(at) => at,
        None => {
            return None;
        },
    };
    Some(elapsed_seconds(first, last))
}

/// The larger of two numbers.
pub open spec fn larger(a: int, b: int) -> int {
    if a >= b {
        a
    } else {
        b
    }
}

/// The window divided by the points that are aimed at, which are at least one.
pub open spec fn share(window: int, target_points: u32) -> int {
    if target_points == 0 {
        window
    } else {
        window / target_points as int
    }
}

/// The seconds between two points: what is asked for, at least one; or else
/// the window divided by the points that are aimed at, at most what 32 bits
/// hold and at least the smallest distance; or that distance where the window
/// is unknown or empty.
pub open spec fn step_of(
    window: Option<int>,
    requested: Option<u32>,
    target_points: u32,
    min_step: u32,
) -> int {
    let floor = larger(min_step as int, 1);
    match requested {
        Some(step) => larger(step as int, 1),
        None => match window {
            Some(w) => if w > 0 {
                let wanted = share(w, target_points);
                if wanted > u32::MAX {
                    u32::MAX as int
                } else {
                    larger(wanted, floor)
                }
            } else {
                floor
            },
            None => floor,
        },
    }
}

fn at_least(n: u32, floor: u32) -> (r: u32)
    ensures
        r == larger(n as int, floor as int),
{
    if n >= floor {
        n
    } else {
        floor
    }
}

/// The seconds between two points of a window of that many seconds.
pub fn step_for_window(
    window: Option<i64>,
    requested: Option<u32>,
    target_points: u32,
    min_step: u32,
) -> (step: u32)
    ensures
        step == step_of(
            match window {
                Some(w) => Some(w as int),
                None => None::<int>,
            },
            requested,
            target_points,
            min_step,
        ),
        step >= 1,
{
    if let Some(asked) = requested {
        return at_least(asked, 1);
    }
    let floor: u32 = at_least(min_step, 1);
    match window {
        Some(w) => {
            if w > 0 {
                let quotient: i64 = if target_points == 0 {
                    w
                } else {
                    w / target_points as i64
                };
                if quotient > 0xffff_ffff {
                    0xffff_ffff
                } else {
                    at_least(quotient as u32, floor)
                }
            } else {
                floor
            }
        },
        None => floor,
    }
}

/// The seconds between two points of a span of time.
pub fn resolve_step(
    start: &str,
    end: &str,
    requested: Option<u32>,
    target_points: u32,
    min_step: u32,
) -> (step: u32)
    ensures
        step == step_of(window(start@, end@), requested, target_points, min_step),
        step >= 1,
{
    if requested.is_some() {
        step_for_window(None, requested, target_points, min_step)
    } else {
        step_for_window(window_seconds(start, end), requested, target_points, min_step)
    }
}

impl MetricRequest {
    /// The parameters of the query, where points lie `step` seconds apart.
    pub open spec fn params(&self, step: int) -> Seq<(Seq<char>, Seq<char>)> {
        if self.instant {
            seq![("query"@, self.promql@), ("time"@, self.end@)]
        } else {
            seq![
                ("query"@, self.promql@),
                ("start"@, self.start@),
                ("end"@, self.end@),
                ("step"@, decimal(step as nat)),
            ]
        }
    }

    /// The seconds between two points of the query.
    pub open spec fn step_seconds(&self, target_points: u32, min_step: u32) -> int {
        step_of(window(self.start@, self.end@), self.step, target_points, min_step)
    }

    /// The parameters of the query: a time for an instant, a span with the
    /// distance between points for a range. The PromQL goes in as it is.
    pub fn to_params(&self, target_points: u32, min_step: u32) -> (params: Vec<(String, String)>)
        ensures
            each_pair(params@) == self.params(self.step_seconds(target_points, min_step)),
    {
        let mut params: Vec<(String, String)> = Vec::new();
        params.push(("query".to_owned(), self.promql.clone()));
        if self.instant {
            params.push(("time".to_owned(), self.end.clone()));
        } else {
            let step: u32 = resolve_step(
                self.start.as_str(),
                self.end.as_str(),
                self.step,
                target_points,
                min_step,
            );
            params.push(("start".to_owned(), self.start.clone()));
            params.push(("end".to_owned(), self.end.clone()));
            params.push(("step".to_owned(), decimal_text(step as u64)));
        }
        assert(each_pair(params@) =~= self.params(self.step_seconds(target_points, min_step)));
        params
    }
}

/// A step is never zero, never below the smallest distance unless it was
/// asked for, and exactly what was asked for where that is not zero.
pub proof fn step_respects_request_and_floor(
    window: Option<int>,
    requested: Option<u32>,
    target_points: u32,
    min_step: u32,
)
    ensures
        1 <= step_of(window, requested, target_points, min_step) <= u32::MAX,
        requested is None ==> step_of(window, requested, target_points, min_step) >= min_step,
        requested matches Some(asked) ==> asked >= 1 ==> step_of(
            window,
            requested,
            target_points,
            min_step,
        ) == asked,
{
}

/// Where no step is asked for, the points of a window are fewer than twice
/// those that are aimed at, unless the step is the largest that there is. To
/// aim at none is to aim at one.
pub proof fn step_keeps_points_near_target(window: int, target_points: u32, min_step: u32)
    ensures
        ({
            let step = step_of(Some(window), None, target_points, min_step);
            step == u32::MAX || window < 2 * larger(target_points as int, 1) * step
        }),
{
    let target = larger(target_points as int, 1);
    let step = step_of(Some(window), None, target_points, min_step);
    if window <= 0 {
        assert(2 * target * step > 0) by (nonlinear_arith)
            requires
                target >= 1,
                step >= 1,
        ;
    } else if share(window, target_points) <= u32::MAX {
        let quotient = window / target;
        assert(quotient == share(window, target_points)) by {
            if target_points == 0 {
                vstd::arithmetic::div_mod::lemma_div_basics(window);
            }
        }
        assert(quotient >= 0) by (nonlinear_arith)
            requires
                target >= 1,
                window > 0,
                quotient == window / target,
        ;
        assert(step >= quotient && step >= 1);
        assert(window < (quotient + 1) * target) by (nonlinear_arith)
            requires
                target >= 1,
                quotient == window / target,
        ;
        assert((quotient + 1) * target <= 2 * target * step) by (nonlinear_arith)
            requires
                target >= 1,
                step >= quotient,
                step >= 1,
        ;
    }
}

/// The seconds of a window, where one that is unknown has none.
pub open spec fn seconds_or_zero(window: Option<int>) -> int {
    match window {
        Some(w) => w,
        None => 0,
    }
}

/// Where no step is asked for, the step is no shorter for a longer window, for
/// fewer points to aim at, or for a larger smallest distance.
pub proof fn step_is_monotone(
    shorter: Option<int>,
    longer: Option<int>,
    more_points: u32,
    fewer_points: u32,
    lower_floor: u32,
    higher_floor: u32,
)
    requires
        seconds_or_zero(shorter) <= seconds_or_zero(longer),
        fewer_points <= more_points,
        lower_floor <= higher_floor,
    ensures
        step_of(shorter, None, more_points, lower_floor) <= step_of(
            longer,
            None,
            fewer_points,
            higher_floor,
        ),
{
    let small = seconds_or_zero(shorter);
    let large = seconds_or_zero(longer);
    if small > 0 {
        let more = larger(more_points as int, 1);
        let fewer = larger(fewer_points as int, 1);
        vstd::arithmetic::div_mod::lemma_div_is_ordered(small, large, more);
        vstd::arithmetic::div_mod::lemma_div_is_ordered_by_denominator(large, fewer, more);
        vstd::arithmetic::div_mod::lemma_div_basics(small);
        vstd::arithmetic::div_mod::lemma_div_basics(large);
    }
}

/// The PromQL of a request goes into the parameters as it is, and only a
/// range query has a step.
pub proof fn promql_passes_through(request: MetricRequest, step: int)
    ensures
        request.params(step)[0] == ("query"@, request.promql@),
        request.instant ==> request.params(step).len() == 2 && request.params(step)[1] == (
            "time"@,
            request.end@,
        ),
        !request.instant ==> request.params(step).len() == 4 && request.params(step)[3] == (
            "step"@,
            decimal(step as nat),
        ),
{
}

} // verus!
