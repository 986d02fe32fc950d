//! Aligning a frame to a grid of timestamps: the left join of the grid
//! against the frame on its time column.

use crate::datatypes::{clone_cell, value_conforms, AnyValue, AnyValueView, CellView};
use crate::frame::{series_views, DataFrame, DataFrameView, Series, SeriesView};
use std::collections::HashMap;
use vstd::prelude::*;

verus! {

/// The rows of a time column that hold the timestamp `t`, in their order.
pub open spec fn matching_rows(times: Seq<CellView>, t: i64) -> Seq<usize>
    decreases times.len(),
{
    if times.len() == 0 {
        Seq::empty()
    } else {
        let rest = matching_rows(times.drop_last(), t);
        if times.last() == Some(AnyValueView::Datetime(t)) {
            rest.push((times.len() - 1) as usize)
        } else {
            rest
        }
    }
}

/// The rows of the result that one point of the grid gives: one for each
/// row of the frame with that timestamp, or one without a row of the frame
/// where there is none.
pub open spec fn rows_for_point(times: Seq<CellView>, t: i64) -> Seq<(i64, Option<usize>)> {
    let found = matching_rows(times, t);
    if found.len() == 0 {
        seq![(t, None::<usize>)]
    } else {
        found.map_values(|i: usize| (t, Some(i)))
    }
}

/// The rows of the result, in order: each with its timestamp and the row
/// of the frame that it takes its other cells from, if any.
pub open spec fn join_plan(grid: Seq<i64>, times: Seq<CellView>) -> Seq<(i64, Option<usize>)>
    decreases grid.len(),
{
    if grid.len() == 0 {
        Seq::empty()
    } else {
        join_plan(grid.drop_last(), times) + rows_for_point(times, grid.last())
    }
}

/// The cells of a column at the rows of a plan, absent where the plan has
/// no row.
pub open spec fn spec_take(values: Seq<CellView>, plan: Seq<(i64, Option<usize>)>) -> Seq<
    CellView,
> {
    Seq::new(
        plan.len(),
        |k: int|
            match plan[k].1 {
                Some(i) => values[i as int],
                None => None,
            },
    )
}

/// The time column of the result: the timestamps of the plan.
pub open spec fn spec_plan_times(plan: Seq<(i64, Option<usize>)>) -> Seq<CellView> {
    Seq::new(plan.len(), |k: int| Some(AnyValueView::Datetime(plan[k].0)))
}

/// A column of the frame, read at the rows of the plan.
pub open spec fn spec_take_column(column: SeriesView, plan: Seq<(i64, Option<usize>)>)
    -> SeriesView {
    SeriesView { name: column.name, dtype: column.dtype, values: spec_take(column.values, plan) }
}

/// The left join of a grid against a frame on the frame's time column, the
/// column at `idx`. The time column comes first and holds the grid, a point
/// once for each row of the frame with that timestamp and once where there
/// is none; the other columns follow in their order, absent in the rows
/// that the grid adds.
pub open spec fn spec_left_join(grid: Seq<i64>, source: DataFrameView, idx: int) -> DataFrameView {
    let plan = join_plan(grid, source.columns[idx].values);
    let time = SeriesView {
        name: source.columns[idx].name,
        dtype: source.columns[idx].dtype,
        values: spec_plan_times(plan),
    };
    DataFrameView {
        columns: seq![time] + source.columns.remove(idx).map_values(
            |c: SeriesView| spec_take_column(c, plan),
        ),
    }
}

/// Every row that a plan names is a row of the column.
pub open spec fn plan_in_bounds(plan: Seq<(i64, Option<usize>)>, height: nat) -> bool {
    forall|k: int|
        0 <= k < plan.len() ==> match (#[trigger] plan[k]).1 {
            Some(i) => i < height,
            None => true,
        }
}

proof fn lemma_matching_rows_in_bounds(times: Seq<CellView>, t: i64)
    requires
        times.len() <= usize::MAX,
    ensures
        forall|k: int|
            0 <= k < matching_rows(times, t).len() ==> (#[trigger] matching_rows(times, t)[k])
                < times.len(),
    decreases times.len(),
{
    if times.len() > 0 {
        lemma_matching_rows_in_bounds(times.drop_last(), t);
        let rest = matching_rows(times.drop_last(), t);
        let all = matching_rows(times, t);
        assert forall|k: int| 0 <= k < all.len() implies (#[trigger] all[k]) < times.len() by {
            if k < rest.len() {
                assert(all[k] == rest[k]);
            }
        }
    }
}

proof fn lemma_join_plan_in_bounds(grid: Seq<i64>, times: Seq<CellView>)
    requires
        times.len() <= usize::MAX,
    ensures
        plan_in_bounds(join_plan(grid, times), times.len()),
    decreases grid.len(),
{
    if grid.len() > 0 {
        lemma_join_plan_in_bounds(grid.drop_last(), times);
        lemma_matching_rows_in_bounds(times, grid.last());
        let before = join_plan(grid.drop_last(), times);
        let added = rows_for_point(times, grid.last());
        let plan = join_plan(grid, times);
        assert forall|k: int| 0 <= k < plan.len() implies match (#[trigger] plan[k]).1 {
            Some(i) => i < times.len(),
            None => true,
        } by {
            if k < before.len() {
                assert(plan[k] == before[k]);
            } else {
                assert(plan[k] == added[k - before.len()]);
            }
        }
    }
}

/// The first row at or after row `i` that holds the timestamp `t`.
pub open spec fn first_match_from(times: Seq<CellView>, t: i64, i: int) -> Option<usize>
    decreases times.len() - i,
{
    if i < 0 || i >= times.len() {
        None
    } else if times[i] == Some(AnyValueView::Datetime(t)) {
        Some(i as usize)
    } else {
        first_match_from(times, t, i + 1)
    }
}

/// The rows at or after row `i` that hold the timestamp `t`, in order.
pub open spec fn rows_from(times: Seq<CellView>, t: i64, i: int) -> Seq<usize>
    decreases times.len() - i,
{
    if i < 0 || i >= times.len() {
        Seq::empty()
    } else if times[i] == Some(AnyValueView::Datetime(t)) {
        seq![i as usize] + rows_from(times, t, i + 1)
    } else {
        rows_from(times, t, i + 1)
    }
}

proof fn lemma_first_match(times: Seq<CellView>, t: i64, i: int)
    requires
        0 <= i,
        times.len() <= usize::MAX,
    ensures
        match first_match_from(times, t, i) {
            Some(j) => i <= j < times.len() && times[j as int] == Some(AnyValueView::Datetime(t))
                && rows_from(times, t, i) == seq![j] + rows_from(times, t, j + 1),
            None => rows_from(times, t, i) == Seq::<usize>::empty(),
        },
    decreases times.len() - i,
{
    if i < times.len() && times[i] != Some(AnyValueView::Datetime(t)) {
        lemma_first_match(times, t, i + 1);
    }
}

proof fn lemma_rows_from_prefix(times: Seq<CellView>, t: i64, k: int)
    requires
        0 <= k <= times.len(),
    ensures
        matching_rows(times.take(k), t) + rows_from(times, t, k) == matching_rows(times, t),
    decreases times.len() - k,
{
    if k == times.len() {
        assert(times.take(k) =~= times);
        assert(matching_rows(times, t) + Seq::<usize>::empty() =~= matching_rows(times, t));
    } else {
        lemma_rows_from_prefix(times, t, k + 1);
        assert(times.take(k + 1).drop_last() =~= times.take(k));
        assert(times.take(k + 1).last() == times[k]);
        let before = matching_rows(times.take(k), t);
        let after = rows_from(times, t, k + 1);
        if times[k] == Some(AnyValueView::Datetime(t)) {
            assert(before.push(k as usize) + after =~= before + (seq![k as usize] + after));
        }
    }
}

/// For each timestamp of a time column its rows, linked in their order:
/// `heads` holds the first row of each timestamp, and `next` leads from a
/// row to the next row with the same timestamp.
pub struct TimeIndex {
    heads: HashMap<i64, usize>,
    next: Vec<Option<usize>>,
}

impl TimeIndex {
    /// The index leads through the rows of each timestamp from row `from`
    /// on.
    pub closed spec fn indexes_from(&self, times: Seq<CellView>, from: int) -> bool {
        &&& self.next@.len() == times.len()
        &&& forall|t: i64|
            match #[trigger] first_match_from(times, t, from) {
                Some(j) => self.heads@.contains_key(t) && self.heads@[t] == j,
                None => !self.heads@.contains_key(t),
            }
        &&& forall|j: int, t: i64|
            from <= j < times.len() && times[j] == Some(AnyValueView::Datetime(t))
                ==> self.next@[j] == #[trigger] first_match_from(times, t, j + 1)
    }

    /// The index leads through the rows of each timestamp of the column.
    pub open spec fn indexes(&self, times: Seq<CellView>) -> bool {
        self.indexes_from(times, 0)
    }

    /// Builds the index of a time column in one pass from its end.
    pub fn new(times: &Vec<Option<AnyValue>>) -> (r: TimeIndex)
        ensures
            r.indexes(times.deep_view()),
    {
        broadcast use vstd::std_specs::hash::group_hash_axioms;

        let ghost tv = times.deep_view();
        let mut next: Vec<Option<usize>> = Vec::with_capacity(times.len());
        let mut k: usize = 0;
        while k < times.len()
            invariant
                k <= times.len(),
                next.len() == k,
            decreases times.len() - k,
        {
            next.push(None);
            k += 1;
        }
        let mut index = TimeIndex { heads: HashMap::new(), next };
        let mut i: usize = times.len();
        while i > 0
            invariant
                i <= times.len(),
                tv == times.deep_view(),
                index.indexes_from(tv, i as int),
            decreases i,
        {
            i -= 1;
            assert(tv[i as int] == times@[i as int].deep_view());
            match &times[i] {
                Some(AnyValue::Datetime(t)) => {
                    let ghost before = index;
                    let follower: Option<usize> = match index.heads.get(t) {
                        Some(j) => Some(*j),
                        None => None,
                    };
                    assert(follower == first_match_from(tv, *t, i + 1));
                    index.next[i] = follower;
                    index.heads.insert(*t, i);
                    proof {
                        assert forall|s: i64|
                            match #[trigger] first_match_from(tv, s, i as int) {
                                Some(j) => index.heads@.contains_key(s) && index.heads@[s] == j,
                                None => !index.heads@.contains_key(s),
                            } by {
                            if s != *t {
                                assert(first_match_from(tv, s, i as int) == first_match_from(
                                    tv,
                                    s,
                                    i + 1,
                                ));
                            }
                        }
                        assert forall|j: int, s: i64|
                            i <= j < tv.len() && tv[j] == Some(AnyValueView::Datetime(s)) implies index.next@[j]
                                == #[trigger] first_match_from(tv, s, j + 1) by {
                            if j > i {
                                assert(before.next@[j] == first_match_from(tv, s, j + 1));
                            }
                        }
                    }
                },
                _ => {
                    proof {
                        assert forall|s: i64|
                            match #[trigger] first_match_from(tv, s, i as int) {
                                Some(j) => index.heads@.contains_key(s) && index.heads@[s] == j,
                                None => !index.heads@.contains_key(s),
                            } by {
                            assert(first_match_from(tv, s, i as int) == first_match_from(
                                tv,
                                s,
                                i + 1,
                            ));
                        }
                    }
                },
            }
        }
        index
    }

    /// The rows of the column that hold the timestamp `t`, in their order.
    pub fn rows(&self, times: &Vec<Option<AnyValue>>, t: i64) -> (r: Vec<usize>)
        requires
            self.indexes(times.deep_view()),
        ensures
            r@ == matching_rows(times.deep_view(), t),
    {
        broadcast use vstd::std_specs::hash::group_hash_axioms;

        let ghost tv = times.deep_view();
        let mut found: Vec<usize> = Vec::new();
        let mut cur: Option<usize> = match self.heads.get(&t) {
            Some(j) => Some(*j),
            None => None,
        };
        let ghost mut from: int = 0;
        proof {
            assert(tv.len() == times.len());
            assert(cur == first_match_from(tv, t, 0));
            assert(found@ + rows_from(tv, t, 0) =~= rows_from(tv, t, 0));
        }
        while cur.is_some()
            invariant
                tv == times.deep_view(),
                tv.len() <= usize::MAX,
                self.indexes(tv),
                0 <= from <= tv.len(),
                cur == first_match_from(tv, t, from),
                found@ + rows_from(tv, t, from) == rows_from(tv, t, 0),
            decreases tv.len() - from,
        {
            let j: usize = cur.unwrap();
            proof {
                lemma_first_match(tv, t, from);
                assert(found@.push(j) + rows_from(tv, t, j + 1) =~= found@ + (seq![j] + rows_from(
                    tv,
                    t,
                    j + 1,
                )));
            }
            found.push(j);
            cur = self.next[j];
            proof {
                from = j + 1;
            }
        }
        proof {
            lemma_first_match(tv, t, from);
            assert(found@ + Seq::<usize>::empty() =~= found@);
            lemma_rows_from_prefix(tv, t, 0);
            assert(tv.take(0) =~= Seq::empty());
            assert(Seq::<usize>::empty() + rows_from(tv, t, 0) =~= rows_from(tv, t, 0));
        }
        found
    }
}

/// Lays out the rows of the left join of a grid against a time column.
pub fn plan_left_join(grid: &Vec<i64>, times: &Vec<Option<AnyValue>>) -> (r: Vec<
    (i64, Option<usize>),
>)
    ensures
        r@ == join_plan(grid@, times.deep_view()),
        plan_in_bounds(r@, times@.len()),
{
    let ghost tv = times.deep_view();
    let index = TimeIndex::new(times);
    let mut plan: Vec<(i64, Option<usize>)> = Vec::new();
    let mut k: usize = 0;
    assert(grid@.take(0) =~= Seq::empty());
    while k < grid.len()
        invariant
            k <= grid.len(),
            tv == times.deep_view(),
            index.indexes(tv),
            plan@ == join_plan(grid@.take(k as int), tv),
        decreases grid.len() - k,
    {
        let t: i64 = grid[k];
        assert(grid@.take(k + 1).drop_last() =~= grid@.take(k as int));
        assert(grid@.take(k + 1).last() == t);
        let found = index.rows(times, t);
        let ghost before = plan@;
        if found.len() == 0 {
            plan.push((t, None));
            assert(plan@ =~= before + rows_for_point(tv, t));
        } else {
            let ghost added = rows_for_point(tv, t);
            let mut m: usize = 0;
            while m < found.len()
                invariant
                    m <= found.len(),
                    found@.len() > 0,
                    found@ == matching_rows(tv, t),
                    added == rows_for_point(tv, t),
                    plan@ == before + added.take(m as int),
                decreases found.len() - m,
            {
                plan.push((t, Some(found[m])));
                assert(before + added.take(m + 1) =~= (before + added.take(m as int)).push(
                    added[m as int],
                ));
                m += 1;
            }
            assert(added.take(m as int) =~= added);
        }
        k += 1;
    }
    proof {
        assert(grid@.take(k as int) =~= grid@);
        assert(tv.len() == times.len());
        lemma_join_plan_in_bounds(grid@, tv);
    }
    plan
}

/// Reads a column at the rows of a plan.
pub fn take_cells(values: &Vec<Option<AnyValue>>, plan: &Vec<(i64, Option<usize>)>) -> (r: Vec<
    Option<AnyValue>,
>)
    requires
        plan_in_bounds(plan@, values@.len()),
    ensures
        r.deep_view() == spec_take(values.deep_view(), plan@),
{
    let mut out: Vec<Option<AnyValue>> = Vec::with_capacity(plan.len());
    let mut k: usize = 0;
    while k < plan.len()
        invariant
            k <= plan.len(),
            out.len() == k,
            plan_in_bounds(plan@, values@.len()),
            forall|j: int|
                0 <= j < k ==> out@[j].deep_view() == spec_take(values.deep_view(), plan@)[j],
        decreases plan.len() - k,
    {
        let cell = match plan[k].1 {
            Some(i) => {
                assert(plan@[k as int].1 == Some(i));
                clone_cell(&values[i])
            },
            None => None,
        };
        out.push(cell);
        k += 1;
    }
    assert(out.deep_view() =~= spec_take(values.deep_view(), plan@));
    out
}

/// The timestamps of a plan as the cells of a time column.
pub fn plan_times(plan: &Vec<(i64, Option<usize>)>) -> (r: Vec<Option<AnyValue>>)
    ensures
        r.deep_view() == spec_plan_times(plan@),
{
    let mut out: Vec<Option<AnyValue>> = Vec::with_capacity(plan.len());
    let mut k: usize = 0;
    while k < plan.len()
        invariant
            k <= plan.len(),
            out.len() == k,
            forall|j: int| 0 <= j < k ==> out@[j].deep_view() == spec_plan_times(plan@)[j],
        decreases plan.len() - k,
    {
        out.push(Some(AnyValue::Datetime(plan[k].0)));
        k += 1;
    }
    assert(out.deep_view() =~= spec_plan_times(plan@));
    out
}

/// The left join of a well-formed frame with a datetime column at `idx` is
/// a well-formed frame.
pub proof fn lemma_left_join_wf(grid: Seq<i64>, source: DataFrameView, idx: int)
    requires
        source.wf(),
        source.height() <= usize::MAX,
        0 <= idx < source.columns.len(),
        source.columns[idx].dtype is Datetime,
    ensures
        spec_left_join(grid, source, idx).wf(),
        spec_left_join(grid, source, idx).columns.len() == source.columns.len(),
        spec_left_join(grid, source, idx).height() == join_plan(
            grid,
            source.columns[idx].values,
        ).len(),
{
    let times = source.columns[idx].values;
    let plan = join_plan(grid, times);
    let out = spec_left_join(grid, source, idx);
    let others = source.columns.remove(idx);
    assert(times.len() == source.height());
    lemma_join_plan_in_bounds(grid, times);
    assert forall|c: int| 0 <= c < out.columns.len() implies (#[trigger] out.columns[c]).wf()
        && out.columns[c].values.len() == plan.len() by {
        if c > 0 {
            let src = others[c - 1];
            assert(src == source.columns[if c - 1 < idx {
                c - 1
            } else {
                c
            }]);
            assert(src.wf());
            assert(src.values.len() == source.height());
            assert(times.len() == source.height());
            assert(out.columns[c] == spec_take_column(src, plan));
            assert forall|k: int| 0 <= k < plan.len() implies match #[trigger] spec_take(
                src.values,
                plan,
            )[k] {
                Some(v) => value_conforms(src.dtype, v),
                None => true,
            } by {
                match plan[k].1 {
                    Some(i) => {
                        assert(spec_take(src.values, plan)[k] == src.values[i as int]);
                    },
                    None => {},
                }
            }
        }
    }
    assert forall|i: int, j: int| 0 <= i < j < out.columns.len() implies (
    #[trigger] out.columns[i]).name != (#[trigger] out.columns[j]).name by {
        let sj = if j - 1 < idx {
            j - 1
        } else {
            j
        };
        assert(out.columns[j].name == source.columns[sj].name);
        if i == 0 {
            assert(out.columns[i].name == source.columns[idx].name);
            if sj < idx {
                assert(source.columns[sj].name != source.columns[idx].name);
            } else {
                assert(source.columns[idx].name != source.columns[sj].name);
            }
        } else {
            let si = if i - 1 < idx {
                i - 1
            } else {
                i
            };
            assert(out.columns[i].name == source.columns[si].name);
            assert(source.columns[si].name != source.columns[sj].name);
        }
    }
    assert(out.columns[0].values.len() == plan.len());
}

/// Joins a grid of timestamps against a frame on the frame's time column,
/// the datetime column at `idx`, keeping every point of the grid.
pub fn left_join_on_time(grid: &Vec<i64>, source: &DataFrame, idx: usize) -> (r: DataFrame)
    requires
        idx < source@.columns.len(),
        source@.columns[idx as int].dtype is Datetime,
    ensures
        r@ == spec_left_join(grid@, source@, idx as int),
        r@.wf(),
{
    let columns = source.columns();
    let time = &columns[idx];
    let times = time.values();
    let plan = plan_left_join(grid, times);
    let ghost expected = spec_left_join(grid@, source@, idx as int);
    proof {
        assert(time@ == source@.columns[idx as int]);
        assert(source@.height() == times.len());
        lemma_left_join_wf(grid@, source@, idx as int);
    }
    let mut out: Vec<Series> = Vec::with_capacity(columns.len());
    out.push(Series::from_parts(time.name().clone(), time.dtype().clone(), plan_times(&plan)));
    let mut c: usize = 0;
    while c < columns.len()
        invariant
            c <= columns.len(),
            idx < columns.len(),
            columns@.len() == source@.columns.len(),
            forall|i: int| 0 <= i < columns@.len() ==> (#[trigger] columns@[i])@ == source@.columns[i],
            source@.wf(),
            expected == spec_left_join(grid@, source@, idx as int),
            expected.wf(),
            plan@ == join_plan(grid@, source@.columns[idx as int].values),
            plan_in_bounds(plan@, source@.columns[idx as int].values.len()),
            out.len() == 1 + if c <= idx {
                c as int
            } else {
                c - 1
            },
            forall|k: int| 0 <= k < out.len() ==> (#[trigger] out@[k])@ == expected.columns[k],
        decreases columns.len() - c,
    {
        if c != idx {
            let col = &columns[c];
            let cells = col.values();
            assert(col@ == source@.columns[c as int]);
            assert(source@.columns[c as int].values.len() == source@.height());
            assert(source@.columns[idx as int].values.len() == source@.height());
            let taken = take_cells(cells, &plan);
            let ghost pos = out.len() as int;
            assert(source@.columns.remove(idx as int)[pos - 1] == source@.columns[c as int]);
            assert(expected.columns[pos] == spec_take_column(source@.columns[c as int], plan@));
            assert(expected.columns[pos].wf());
            out.push(Series::from_parts(col.name().clone(), col.dtype().clone(), taken));
        }
        c += 1;
    }
    assert(series_views(out@) =~= expected.columns);
    DataFrame::from_columns(out)
}

} // verus!
