//! The regular grid of timestamps between two instants.

use crate::datatypes::TimeUnit;
use crate::duration::Duration;
use crate::error::FrameError;
use vstd::prelude::*;

verus! {

/// How far the grid from `start` still has to go to pass `end`.
pub open spec fn grid_measure(start: i64, end: i64) -> nat {
    if start > end {
        0
    } else {
        (end - start + 1) as nat
    }
}

/// The timestamps `head`, followed by what `tail` gives, or its error.
pub open spec fn prepend(head: Seq<i64>, tail: Result<Seq<i64>, FrameError>) -> Result<
    Seq<i64>,
    FrameError,
> {
    match tail {
        Ok(rest) => Ok(head + rest),
        Err(e) => Err(e),
    }
}

/// The grid that starts at `start` and goes on by steps of `every` as long
/// as it does not pass `end`. The step after each point of the grid is
/// taken, also after the last one: the grid fails where one of them cannot
/// be taken or does not lead forward.
pub open spec fn spec_datetime_range(every: Duration, unit: TimeUnit, start: i64, end: i64)
    -> Result<Seq<i64>, FrameError>
    decreases grid_measure(start, end),
{
    if start > end {
        Ok(Seq::empty())
    } else {
        match every.spec_add(unit, start) {
            None => Err(FrameError::DurationAdd),
            Some(next) => if next <= start {
                Err(FrameError::InvalidInterval)
            } else {
                prepend(seq![start], spec_datetime_range(every, unit, next, end))
            },
        }
    }
}

/// Generates the grid of timestamps from `start` on, by steps of `every`,
/// up to `end`, both ends included.
pub fn datetime_range_i64(start: i64, end: i64, every: Duration, unit: TimeUnit) -> (r: Result<
    Vec<i64>,
    FrameError,
>)
    ensures
        match r {
            Ok(ts) => spec_datetime_range(every, unit, start, end) == Ok::<Seq<i64>, FrameError>(
                ts@,
            ),
            Err(e) => spec_datetime_range(every, unit, start, end) == Err::<Seq<i64>, FrameError>(
                e,
            ),
        },
{
    let mut ts: Vec<i64> = Vec::new();
    let mut t: i64 = start;
    assert(Seq::<i64>::empty() + Seq::<i64>::empty() =~= Seq::<i64>::empty());
    while t <= end
        invariant
            spec_datetime_range(every, unit, start, end) == prepend(
                ts@,
                spec_datetime_range(every, unit, t, end),
            ),
        decreases grid_measure(t, end),
    {
        let next: i64 = match every.add(unit, t) {
            Ok(n) => n,
            Err(e) => {
                return Err(e);
            },
        };
        if next <= t {
            return Err(FrameError::InvalidInterval);
        }
        proof {
            match spec_datetime_range(every, unit, next, end) {
                Ok(rest) => {
                    assert(ts@ + (seq![t] + rest) =~= ts@.push(t) + rest);
                },
                Err(e) => {},
            }
        }
        ts.push(t);
        t = next;
    }
    proof {
        assert(ts@ + Seq::<i64>::empty() =~= ts@);
    }
    Ok(ts)
}

/// The grid covers the range without a gap. Every point lies between
/// `start` and `end`; each point is one step of `every` after the one
/// before it; and where `start` is not after `end`, the grid begins at
/// `start` and one more step from its last point leads past `end`.
pub proof fn lemma_grid_coverage(every: Duration, unit: TimeUnit, start: i64, end: i64)
    requires
        spec_datetime_range(every, unit, start, end) is Ok,
    ensures
        ({
            let g = spec_datetime_range(every, unit, start, end)->Ok_0;
            &&& forall|i: int| 0 <= i < g.len() ==> start <= #[trigger] g[i] <= end
            &&& forall|i: int|
                0 <= i < g.len() - 1 ==> every.spec_add(unit, #[trigger] g[i]) == Some(g[i + 1])
                    && g[i] < g[i + 1]
            &&& start > end ==> g.len() == 0
            &&& start <= end ==> g.len() > 0 && g[0] == start && every.spec_add(unit, g.last())
                is Some && every.spec_add(unit, g.last())->Some_0 > end
        }),
    decreases grid_measure(start, end),
{
    if start <= end {
        let next = every.spec_add(unit, start)->Some_0;
        lemma_grid_coverage(every, unit, next, end);
        let rest = spec_datetime_range(every, unit, next, end)->Ok_0;
        let g = spec_datetime_range(every, unit, start, end)->Ok_0;
        assert(g =~= seq![start] + rest);
        assert forall|i: int| 0 <= i < g.len() implies start <= #[trigger] g[i] <= end by {
            if i > 0 {
                assert(g[i] == rest[i - 1]);
            }
        }
        assert forall|i: int| 0 <= i < g.len() - 1 implies every.spec_add(unit, #[trigger] g[i])
            == Some(g[i + 1]) && g[i] < g[i + 1] by {
            if i > 0 {
                assert(g[i] == rest[i - 1]);
                assert(g[i + 1] == rest[i]);
            } else {
                assert(g[1] == rest[0]);
            }
        }
        if rest.len() > 0 {
            assert(g.last() == rest.last());
        }
    }
}

/// Where `end` is itself a point of the grid, the grid ends at it.
pub proof fn lemma_grid_reaches_last(every: Duration, unit: TimeUnit, start: i64, end: i64)
    requires
        spec_datetime_range(every, unit, start, end) is Ok,
        spec_datetime_range(every, unit, start, end)->Ok_0.contains(end),
    ensures
        spec_datetime_range(every, unit, start, end)->Ok_0.last() == end,
    decreases grid_measure(start, end),
{
    let g = spec_datetime_range(every, unit, start, end)->Ok_0;
    lemma_grid_coverage(every, unit, start, end);
    let k = choose|k: int| 0 <= k < g.len() && g[k] == end;
    if k < g.len() - 1 {
        assert(g[k] < g[k + 1]);
        assert(g[k + 1] <= end);
    }
}

} // verus!
