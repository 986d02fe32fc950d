//! Upsampling: laying a frame out on a regular grid of timestamps, as a
//! whole or group by group.

use crate::concat::{all_same_schema, all_wf, frame_views, spec_schema, spec_vstack, vstack};
use crate::datatypes::{
    conforms, value_conforms, AnyValue, AnyValueView, CellView, DataType, DataTypeView, TimeUnit,
};
use crate::date_range::{datetime_range_i64, spec_datetime_range};
use crate::duration::Duration;
use crate::error::FrameError;
use crate::fill_null::{fill_by, spec_fill_by};
use crate::frame::{series_views, DataFrame, DataFrameView, Series, SeriesView};
use crate::group_by::{
    by_indices, group_by, group_by_stable, groups_view, names_of, rows_in_bounds,
    spec_by_indices, spec_groups, spec_take_rows, take_rows,
};
use crate::join::{left_join_on_time, spec_left_join};
use crate::timezone::{localize_timestamp, spec_localize, spec_unlocalize, unlocalize_timestamp};
use vstd::prelude::*;

verus! {

/// The integer by which a value of a time column is ordered. Values of
/// types without such an integer all count the same.
pub open spec fn spec_time_key(v: AnyValueView) -> int {
    match v {
        AnyValueView::Int64(x) => x as int,
        AnyValueView::Date(d) => d as int,
        AnyValueView::Datetime(t) => t as int,
        _ => 0,
    }
}

/// The present values of the column never decrease from one row to a later
/// one.
pub open spec fn is_time_sorted(values: Seq<CellView>) -> bool {
    forall|i: int, j: int|
        0 <= i < j < values.len() && (#[trigger] values[i]) is Some && (#[trigger] values[j])
            is Some ==> spec_time_key(values[i]->Some_0) <= spec_time_key(values[j]->Some_0)
}

/// The timestamp of the first row that has one.
pub open spec fn spec_first_time(values: Seq<CellView>) -> Option<i64>
    decreases values.len(),
{
    if values.len() == 0 {
        None
    } else {
        match values[0] {
            Some(AnyValueView::Datetime(t)) => Some(t),
            _ => spec_first_time(values.drop_first()),
        }
    }
}

/// The timestamp of the last row that has one.
pub open spec fn spec_last_time(values: Seq<CellView>) -> Option<i64>
    decreases values.len(),
{
    if values.len() == 0 {
        None
    } else {
        match values.last() {
            Some(AnyValueView::Datetime(t)) => Some(t),
            _ => spec_last_time(values.drop_last()),
        }
    }
}

/// The bounds of the grid on the wall clock: the first and the last
/// timestamp as they are where the column has no time zone, else as the
/// wall-clock times that its zone shows at them.
pub open spec fn spec_bounds(first: i64, last: i64, unit: TimeUnit, zone: Option<Seq<char>>)
    -> Result<(i64, i64), FrameError> {
    match zone {
        None => Ok((first, last)),
        Some(z) => match (spec_unlocalize(first, unit, z), spec_unlocalize(last, unit, z)) {
            (Some(a), Some(b)) => Ok((a, b)),
            _ => Err(FrameError::TimeZone),
        },
    }
}

/// The wall-clock times of a grid turned into the instants at which the
/// zone shows them.
pub open spec fn spec_localize_all(grid: Seq<i64>, unit: TimeUnit, zone: Seq<char>) -> Option<
    Seq<i64>,
>
    decreases grid.len(),
{
    if grid.len() == 0 {
        Some(Seq::empty())
    } else {
        match (
            spec_localize_all(grid.drop_last(), unit, zone),
            spec_localize(grid.last(), unit, zone),
        ) {
            (Some(before), Some(t)) => Some(before.push(t)),
            _ => None,
        }
    }
}

/// The grid as it stands in the time column: as it is where the column has
/// no time zone, else as instants of its zone.
pub open spec fn spec_localize_grid(grid: Seq<i64>, unit: TimeUnit, zone: Option<Seq<char>>)
    -> Result<Seq<i64>, FrameError> {
    match zone {
        None => Ok(grid),
        Some(z) => match spec_localize_all(grid, unit, z) {
            Some(g) => Ok(g),
            None => Err(FrameError::TimeZone),
        },
    }
}

/// The grid of a time column: from its first timestamp, moved by `offset`,
/// by steps of `every` up to its last timestamp, on the wall clock of the
/// column's zone.
pub open spec fn spec_grid(
    values: Seq<CellView>,
    unit: TimeUnit,
    zone: Option<Seq<char>>,
    every: Duration,
    offset: Duration,
) -> Result<Seq<i64>, FrameError> {
    match (spec_first_time(values), spec_last_time(values)) {
        (Some(first), Some(last)) => match spec_bounds(first, last, unit, zone) {
            Err(e) => Err(e),
            Ok((first, last)) => match offset.spec_add(unit, first) {
                None => Err(FrameError::DurationAdd),
                Some(start) => match spec_datetime_range(every, unit, start, last) {
                    Err(e) => Err(e),
                    Ok(grid) => spec_localize_grid(grid, unit, zone),
                },
            },
        },
        _ => Err(FrameError::NoBoundaries),
    }
}

/// A frame upsampled as one group: the grid of its time column, the column
/// at `idx`, joined against the frame.
pub open spec fn spec_upsample_single(
    source: DataFrameView,
    idx: int,
    every: Duration,
    offset: Duration,
) -> Result<DataFrameView, FrameError> {
    match source.columns[idx].dtype {
        DataTypeView::Datetime(unit, zone) => match spec_grid(
            source.columns[idx].values,
            unit,
            zone,
            every,
            offset,
        ) {
            Err(e) => Err(e),
            Ok(grid) => Ok(spec_left_join(grid, source, idx)),
        },
        _ => Err(FrameError::UnsupportedDtype),
    }
}

/// The integer by which a value of a time column is ordered.
fn time_key(v: &AnyValue) -> (r: i64)
    ensures
        r == spec_time_key(v@),
{
    match v {
        AnyValue::Int64(x) => *x,
        AnyValue::Date(d) => *d as i64,
        AnyValue::Datetime(t) => *t,
        _ => 0,
    }
}

/// Whether the present values of a column never decrease.
pub fn check_time_sorted(values: &Vec<Option<AnyValue>>) -> (r: bool)
    ensures
        r == is_time_sorted(values.deep_view()),
{
    let ghost vv = values.deep_view();
    let mut prev: Option<i64> = None;
    let ghost mut at: int = -1;
    let mut i: usize = 0;
    while i < values.len()
        invariant
            i <= values.len(),
            vv == values.deep_view(),
            -1 <= at < i,
            prev is Some <==> at >= 0,
            at >= 0 ==> vv[at] is Some && spec_time_key(vv[at]->Some_0) == prev->Some_0,
            forall|j: int|
                0 <= j < i && (#[trigger] vv[j]) is Some ==> at >= 0 && spec_time_key(
                    vv[j]->Some_0,
                ) <= prev->Some_0,
            forall|j: int, k: int|
                0 <= j < k < i && (#[trigger] vv[j]) is Some && (#[trigger] vv[k]) is Some
                    ==> spec_time_key(vv[j]->Some_0) <= spec_time_key(vv[k]->Some_0),
        decreases values.len() - i,
    {
        assert(vv[i as int] == values@[i as int].deep_view());
        match &values[i] {
            Some(v) => {
                let key = time_key(v);
                match prev {
                    Some(p) => {
                        if key < p {
                            assert(vv[at] is Some && vv[i as int] is Some);
                            assert(!is_time_sorted(vv));
                            return false;
                        }
                    },
                    None => {},
                }
                prev = Some(key);
                proof {
                    at = i as int;
                }
            },
            None => {},
        }
        i += 1;
    }
    true
}

/// The timestamp of the first row that has one.
pub fn first_time(values: &Vec<Option<AnyValue>>) -> (r: Option<i64>)
    ensures
        r == spec_first_time(values.deep_view()),
{
    let ghost vv = values.deep_view();
    let mut i: usize = 0;
    assert(vv.skip(0) =~= vv);
    while i < values.len()
        invariant
            i <= values.len(),
            vv == values.deep_view(),
            spec_first_time(vv) == spec_first_time(vv.skip(i as int)),
        decreases values.len() - i,
    {
        assert(vv.skip(i as int)[0] == values@[i as int].deep_view());
        assert(vv.skip(i as int).drop_first() =~= vv.skip(i + 1));
        match &values[i] {
            Some(AnyValue::Datetime(t)) => {
                return Some(*t);
            },
            _ => {},
        }
        i += 1;
    }
    None
}

/// The timestamp of the last row that has one.
pub fn last_time(values: &Vec<Option<AnyValue>>) -> (r: Option<i64>)
    ensures
        r == spec_last_time(values.deep_view()),
{
    let ghost vv = values.deep_view();
    let mut i: usize = values.len();
    assert(vv.take(i as int) =~= vv);
    while i > 0
        invariant
            i <= values.len(),
            vv == values.deep_view(),
            spec_last_time(vv) == spec_last_time(vv.take(i as int)),
        decreases i,
    {
        assert(vv.take(i as int).last() == values@[i - 1].deep_view());
        assert(vv.take(i as int).drop_last() =~= vv.take(i - 1));
        match &values[i - 1] {
            Some(AnyValue::Datetime(t)) => {
                return Some(*t);
            },
            _ => {},
        }
        i -= 1;
    }
    None
}

/// Turns the wall-clock times of a grid into instants of the zone.
pub fn localize_grid(grid: &Vec<i64>, unit: TimeUnit, zone: &str) -> (r: Result<
    Vec<i64>,
    FrameError,
>)
    ensures
        match r {
            Ok(g) => spec_localize_all(grid@, unit, zone@) == Some(g@),
            Err(e) => e == FrameError::TimeZone && spec_localize_all(grid@, unit, zone@) is None,
        },
{
    let mut out: Vec<i64> = Vec::with_capacity(grid.len());
    let mut k: usize = 0;
    assert(grid@.take(0) =~= Seq::empty());
    while k < grid.len()
        invariant
            k <= grid.len(),
            spec_localize_all(grid@.take(k as int), unit, zone@) == Some(out@),
        decreases grid.len() - k,
    {
        assert(grid@.take(k + 1).drop_last() =~= grid@.take(k as int));
        assert(grid@.take(k + 1).last() == grid@[k as int]);
        match localize_timestamp(grid[k], unit, zone) {
            Ok(t) => {
                out.push(t);
            },
            Err(_) => {
                proof {
                    lemma_localize_all_fails(grid@, unit, zone@, k + 1);
                }
                return Err(FrameError::TimeZone);
            },
        }
        k += 1;
    }
    assert(grid@.take(k as int) =~= grid@);
    Ok(out)
}

proof fn lemma_localize_all_fails(grid: Seq<i64>, unit: TimeUnit, zone: Seq<char>, n: int)
    requires
        0 <= n <= grid.len(),
        spec_localize_all(grid.take(n), unit, zone) is None,
    ensures
        spec_localize_all(grid, unit, zone) is None,
    decreases grid.len(),
{
    if n < grid.len() {
        assert(grid.drop_last().take(n) =~= grid.take(n));
        lemma_localize_all_fails(grid.drop_last(), unit, zone, n);
    } else {
        assert(grid.take(n) =~= grid);
    }
}

/// Computes the grid of a time column.
pub fn time_grid(
    values: &Vec<Option<AnyValue>>,
    unit: TimeUnit,
    zone: &Option<String>,
    every: Duration,
    offset: Duration,
) -> (r: Result<Vec<i64>, FrameError>)
    ensures
        match r {
            Ok(g) => spec_grid(values.deep_view(), unit, zone.deep_view(), every, offset) == Ok::<
                Seq<i64>,
                FrameError,
            >(g@),
            Err(e) => spec_grid(values.deep_view(), unit, zone.deep_view(), every, offset) == Err::<
                Seq<i64>,
                FrameError,
            >(e),
        },
{
    let (first, last) = match (first_time(values), last_time(values)) {
        (Some(first), Some(last)) => (first, last),
        _ => {
            return Err(FrameError::NoBoundaries);
        },
    };
    let (first, last) = match zone {
        Some(z) => {
            let a = match unlocalize_timestamp(first, unit, z.as_str()) {
                Ok(a) => a,
                Err(e) => {
                    return Err(e);
                },
            };
            let b = match unlocalize_timestamp(last, unit, z.as_str()) {
                Ok(b) => b,
                Err(e) => {
                    return Err(e);
                },
            };
            (a, b)
        },
        None => (first, last),
    };
    let moved = match unit {
        TimeUnit::Nanoseconds => offset.add_ns(first),
        TimeUnit::Microseconds => offset.add_us(first),
        TimeUnit::Milliseconds => offset.add_ms(first),
    };
    let start = match moved {
        Ok(s) => s,
        Err(e) => {
            return Err(e);
        },
    };
    let grid = match datetime_range_i64(start, last, every, unit) {
        Ok(g) => g,
        Err(e) => {
            return Err(e);
        },
    };
    match zone {
        Some(z) => localize_grid(&grid, unit, z.as_str()),
        None => Ok(grid),
    }
}

/// Upsamples a frame as one group: generates the grid of its time column,
/// the column at `idx`, and joins it against the frame.
pub fn upsample_single_impl(source: &DataFrame, idx: usize, every: Duration, offset: Duration) -> (r:
    Result<DataFrame, FrameError>)
    requires
        idx < source@.columns.len(),
    ensures
        match r {
            Ok(out) => spec_upsample_single(source@, idx as int, every, offset) == Ok::<
                DataFrameView,
                FrameError,
            >(out@) && out@.wf(),
            Err(e) => spec_upsample_single(source@, idx as int, every, offset) == Err::<
                DataFrameView,
                FrameError,
            >(e),
        },
{
    let columns = source.columns();
    let column = &columns[idx];
    assert(column@ == source@.columns[idx as int]);
    match column.dtype() {
        DataType::Datetime(unit, zone) => {
            let grid = match time_grid(column.values(), *unit, zone, every, offset) {
                Ok(g) => g,
                Err(e) => {
                    return Err(e);
                },
            };
            Ok(left_join_on_time(&grid, source, idx))
        },
        _ => Err(FrameError::UnsupportedDtype),
    }
}

/// A group of rows upsampled: the frame of its rows upsampled as one
/// group, then the grouping columns filled forward, so that the rows that
/// the grid adds belong to the group.
pub open spec fn spec_upsample_group(
    source: DataFrameView,
    idx: int,
    by: Seq<Seq<char>>,
    rows: Seq<usize>,
    every: Duration,
    offset: Duration,
) -> Result<DataFrameView, FrameError> {
    match spec_upsample_single(spec_take_rows(source, rows), idx, every, offset) {
        Err(e) => Err(e),
        Ok(out) => spec_fill_by(out, by),
    }
}

/// The groups upsampled one after the other, or the error of the first
/// group that fails.
pub open spec fn spec_upsample_groups(
    source: DataFrameView,
    idx: int,
    by: Seq<Seq<char>>,
    groups: Seq<Seq<usize>>,
    every: Duration,
    offset: Duration,
) -> Result<Seq<DataFrameView>, FrameError>
    decreases groups.len(),
{
    if groups.len() == 0 {
        Ok(Seq::empty())
    } else {
        match spec_upsample_groups(source, idx, by, groups.drop_last(), every, offset) {
            Err(e) => Err(e),
            Ok(frames) => match spec_upsample_group(
                source,
                idx,
                by,
                groups.last(),
                every,
                offset,
            ) {
                Err(e) => Err(e),
                Ok(frame) => Ok(frames.push(frame)),
            },
        }
    }
}

/// A frame with a datetime column at `idx` upsampled: as one group where
/// `by` is empty or the frame has no rows, else group by group, the results
/// stacked in the order of the groups.
pub open spec fn spec_upsample_datetime(
    source: DataFrameView,
    by: Seq<Seq<char>>,
    idx: int,
    every: Duration,
    offset: Duration,
) -> Result<DataFrameView, FrameError> {
    if by.len() == 0 {
        spec_upsample_single(source, idx, every, offset)
    } else {
        match spec_by_indices(source, by) {
            None => Err(FrameError::ColumnNotFound),
            Some(by_idx) => {
                let groups = spec_groups(source, by_idx);
                if groups.len() == 0 {
                    spec_upsample_single(source, idx, every, offset)
                } else {
                    match spec_upsample_groups(source, idx, by, groups, every, offset) {
                        Err(e) => Err(e),
                        Ok(frames) => Ok(spec_vstack(frames)),
                    }
                }
            },
        }
    }
}

/// The cells of a date column as timestamps in milliseconds: the midnight
/// that begins each day.
pub open spec fn spec_widen_cells(values: Seq<CellView>) -> Seq<CellView> {
    Seq::new(
        values.len(),
        |i: int|
            match values[i] {
                Some(AnyValueView::Date(d)) => Some(
                    AnyValueView::Datetime((d * 86_400_000) as i64),
                ),
                _ => None,
            },
    )
}

/// The frame with its date column at `idx` turned into a datetime column
/// in milliseconds without a time zone.
pub open spec fn spec_widen(frame: DataFrameView, idx: int) -> DataFrameView {
    DataFrameView {
        columns: frame.columns.update(
            idx,
            SeriesView {
                name: frame.columns[idx].name,
                dtype: DataTypeView::Datetime(TimeUnit::Milliseconds, None),
                values: spec_widen_cells(frame.columns[idx].values),
            },
        ),
    }
}

/// The day in which a timestamp in milliseconds lies.
pub open spec fn spec_day_of(t: i64) -> int {
    t as int / 86_400_000
}

/// Every timestamp lies in a day that a date can hold.
pub open spec fn dates_in_range(values: Seq<CellView>) -> bool {
    forall|i: int|
        0 <= i < values.len() ==> match #[trigger] values[i] {
            Some(AnyValueView::Datetime(t)) => i32::MIN <= spec_day_of(t) <= i32::MAX,
            _ => true,
        }
}

/// The cells of a datetime column in milliseconds as dates.
pub open spec fn spec_narrow_cells(values: Seq<CellView>) -> Seq<CellView> {
    Seq::new(
        values.len(),
        |i: int|
            match values[i] {
                Some(AnyValueView::Datetime(t)) => Some(AnyValueView::Date(spec_day_of(t) as i32)),
                _ => None,
            },
    )
}

/// The frame with its datetime column at `idx` turned into a date column.
pub open spec fn spec_narrow(frame: DataFrameView, idx: int) -> Result<DataFrameView, FrameError> {
    if dates_in_range(frame.columns[idx].values) {
        Ok(
            DataFrameView {
                columns: frame.columns.update(
                    idx,
                    SeriesView {
                        name: frame.columns[idx].name,
                        dtype: DataTypeView::Date,
                        values: spec_narrow_cells(frame.columns[idx].values),
                    },
                ),
            },
        )
    } else {
        Err(FrameError::DateOutOfRange)
    }
}

/// A frame upsampled on the column named `time_column`. The column must
/// exist and be sorted. A date column is upsampled as the datetime column
/// of its midnights, in milliseconds, and turned back into dates.
pub open spec fn spec_upsample(
    source: DataFrameView,
    by: Seq<Seq<char>>,
    time_column: Seq<char>,
    every: Duration,
    offset: Duration,
) -> Result<DataFrameView, FrameError> {
    match source.index_of(time_column) {
        None => Err(FrameError::ColumnNotFound),
        Some(idx) => {
            if !is_time_sorted(source.columns[idx].values) {
                Err(FrameError::NotSorted)
            } else if source.columns[idx].dtype is Date {
                match spec_upsample_datetime(spec_widen(source, idx), by, idx, every, offset) {
                    Err(e) => Err(e),
                    Ok(out) => match out.index_of(time_column) {
                        None => Err(FrameError::ColumnNotFound),
                        Some(t) => spec_narrow(out, t),
                    },
                }
            } else {
                spec_upsample_datetime(source, by, idx, every, offset)
            }
        },
    }
}

/// The names and types of the columns of a frame joined on its column at
/// `idx`: that column first, then the others in their order.
pub open spec fn spec_join_schema(frame: DataFrameView, idx: int) -> Seq<
    (Seq<char>, DataTypeView),
> {
    seq![(frame.columns[idx].name, frame.columns[idx].dtype)] + spec_schema(frame).remove(idx)
}

proof fn lemma_fill_by_schema(frame: DataFrameView, by: Seq<Seq<char>>)
    requires
        spec_fill_by(frame, by) is Ok,
    ensures
        spec_schema(spec_fill_by(frame, by)->Ok_0) == spec_schema(frame),
    decreases by.len(),
{
    if by.len() > 0 {
        lemma_fill_by_schema(frame, by.drop_last());
        let filled = spec_fill_by(frame, by.drop_last())->Ok_0;
        let c = filled.index_of(by.last())->Some_0;
        let out = spec_fill_by(frame, by)->Ok_0;
        assert(0 <= c < filled.columns.len());
        assert(spec_schema(out) =~= spec_schema(filled));
    }
}

proof fn lemma_group_schema(
    source: DataFrameView,
    idx: int,
    by: Seq<Seq<char>>,
    rows: Seq<usize>,
    every: Duration,
    offset: Duration,
)
    requires
        0 <= idx < source.columns.len(),
        spec_upsample_group(source, idx, by, rows, every, offset) is Ok,
    ensures
        spec_schema(spec_upsample_group(source, idx, by, rows, every, offset)->Ok_0)
            == spec_join_schema(source, idx),
{
    let sub = spec_take_rows(source, rows);
    let joined = spec_upsample_single(sub, idx, every, offset)->Ok_0;
    lemma_fill_by_schema(joined, by);
    assert(spec_schema(joined) =~= spec_join_schema(source, idx));
}

proof fn lemma_groups_fail(
    source: DataFrameView,
    idx: int,
    by: Seq<Seq<char>>,
    groups: Seq<Seq<usize>>,
    every: Duration,
    offset: Duration,
    n: int,
)
    requires
        0 <= n <= groups.len(),
        spec_upsample_groups(source, idx, by, groups.take(n), every, offset) is Err,
    ensures
        spec_upsample_groups(source, idx, by, groups, every, offset) == spec_upsample_groups(
            source,
            idx,
            by,
            groups.take(n),
            every,
            offset,
        ),
    decreases groups.len(),
{
    if n < groups.len() {
        assert(groups.drop_last().take(n) =~= groups.take(n));
        lemma_groups_fail(source, idx, by, groups.drop_last(), every, offset, n);
    } else {
        assert(groups.take(n) =~= groups);
    }
}

/// Every frame is well formed and has the given names and types of
/// columns.
pub open spec fn all_of_schema(
    frames: Seq<DataFrameView>,
    schema: Seq<(Seq<char>, DataTypeView)>,
) -> bool {
    forall|f: int|
        0 <= f < frames.len() ==> (#[trigger] frames[f]).wf() && spec_schema(frames[f]) == schema
}

proof fn lemma_all_of_schema_push(
    frames: Seq<DataFrameView>,
    frame: DataFrameView,
    schema: Seq<(Seq<char>, DataTypeView)>,
)
    requires
        all_of_schema(frames, schema),
        frame.wf(),
        spec_schema(frame) == schema,
    ensures
        all_of_schema(frames.push(frame), schema),
{
    let more = frames.push(frame);
    assert forall|f: int| 0 <= f < more.len() implies (#[trigger] more[f]).wf() && spec_schema(
        more[f],
    ) == schema by {
        if f < frames.len() {
            assert(more[f] == frames[f]);
        }
    }
}

proof fn lemma_all_of_schema_stacks(
    frames: Seq<DataFrameView>,
    schema: Seq<(Seq<char>, DataTypeView)>,
)
    requires
        all_of_schema(frames, schema),
    ensures
        all_wf(frames),
        all_same_schema(frames),
{
    assert forall|f: int| 0 <= f < frames.len() implies spec_schema(#[trigger] frames[f])
        == spec_schema(frames[0]) by {
        assert(frames[0].wf());
    }
}

/// Upsamples one group of rows of a frame and fills its grouping columns
/// forward.
pub fn upsample_group(
    source: &DataFrame,
    by: &Vec<String>,
    idx: usize,
    rows: &Vec<usize>,
    every: Duration,
    offset: Duration,
) -> (r: Result<DataFrame, FrameError>)
    requires
        idx < source@.columns.len(),
        rows_in_bounds(rows@, source@.height()),
    ensures
        match r {
            Ok(out) => spec_upsample_group(
                source@,
                idx as int,
                names_of(by@),
                rows@,
                every,
                offset,
            ) == Ok::<DataFrameView, FrameError>(out@) && out@.wf() && spec_schema(out@)
                == spec_join_schema(source@, idx as int),
            Err(e) => spec_upsample_group(
                source@,
                idx as int,
                names_of(by@),
                rows@,
                every,
                offset,
            ) == Err::<DataFrameView, FrameError>(e),
        },
{
    let sub = take_rows(source, rows);
    let joined = match upsample_single_impl(&sub, idx, every, offset) {
        Ok(f) => f,
        Err(e) => {
            return Err(e);
        },
    };
    let filled = match fill_by(joined, by) {
        Ok(f) => f,
        Err(e) => {
            return Err(e);
        },
    };
    proof {
        lemma_group_schema(source@, idx as int, names_of(by@), rows@, every, offset);
    }
    Ok(filled)
}

/// Upsamples a frame with a datetime column at `idx`, as one group or group
/// by group. The groups are taken one after the other, never side by side,
/// so that only one group's join is held at a time.
pub fn upsample_datetime(
    source: &DataFrame,
    by: &Vec<String>,
    idx: usize,
    every: Duration,
    offset: Duration,
    stable: bool,
) -> (r: Result<DataFrame, FrameError>)
    requires
        idx < source@.columns.len(),
    ensures
        match r {
            Ok(out) => spec_upsample_datetime(source@, names_of(by@), idx as int, every, offset)
                == Ok::<DataFrameView, FrameError>(out@) && out@.wf(),
            Err(e) => spec_upsample_datetime(source@, names_of(by@), idx as int, every, offset)
                == Err::<DataFrameView, FrameError>(e),
        },
{
    let ghost names = names_of(by@);
    if by.len() == 0 {
        return upsample_single_impl(source, idx, every, offset);
    }
    let by_idx = match by_indices(source, by) {
        Some(b) => b,
        None => {
            return Err(FrameError::ColumnNotFound);
        },
    };
    let groups = if stable {
        group_by_stable(source, &by_idx)
    } else {
        group_by(source, &by_idx)
    };
    let ghost gv = groups_view(groups@);
    let ghost schema = spec_join_schema(source@, idx as int);
    if groups.len() == 0 {
        return upsample_single_impl(source, idx, every, offset);
    }
    let mut frames: Vec<DataFrame> = Vec::with_capacity(groups.len());
    let mut g: usize = 0;
    proof {
        assert(gv.take(0) =~= Seq::empty());
        assert(frame_views(frames@) =~= Seq::empty());
    }
    while g < groups.len()
        invariant
            g <= groups.len(),
            idx < source@.columns.len(),
            names == names_of(by@),
            gv == groups_view(groups@),
            gv == spec_groups(source@, by_idx@),
            names.len() > 0,
            spec_by_indices(source@, names) == Some(by_idx@),
            schema == spec_join_schema(source@, idx as int),
            forall|k: int|
                0 <= k < groups@.len() ==> rows_in_bounds(
                    (#[trigger] groups@[k])@,
                    source@.height(),
                ),
            frames.len() == g,
            spec_upsample_groups(source@, idx as int, names, gv.take(g as int), every, offset)
                == Ok::<Seq<DataFrameView>, FrameError>(frame_views(frames@)),
            all_of_schema(frame_views(frames@), schema),
        decreases groups.len() - g,
    {
        let rows = &groups[g];
        proof {
            assert(gv.take(g + 1).drop_last() =~= gv.take(g as int));
            assert(gv.take(g + 1).last() == rows@);
        }
        let ghost before = frame_views(frames@);
        match upsample_group(source, by, idx, rows, every, offset) {
            Ok(frame) => {
                proof {
                    lemma_all_of_schema_push(before, frame@, schema);
                }
                frames.push(frame);
                assert(frame_views(frames@) =~= before.push(frame@));
            },
            Err(e) => {
                proof {
                    assert(spec_upsample_groups(
                        source@,
                        idx as int,
                        names,
                        gv.take(g + 1),
                        every,
                        offset,
                    ) == Err::<Seq<DataFrameView>, FrameError>(e));
                    lemma_groups_fail(source@, idx as int, names, gv, every, offset, g + 1);
                }
                return Err(e);
            },
        }
        g += 1;
    }
    proof {
        assert(gv.take(g as int) =~= gv);
        lemma_all_of_schema_stacks(frame_views(frames@), schema);
    }
    Ok(vstack(&frames))
}

/// Turns the cells of a date column into timestamps in milliseconds.
pub fn widen_cells(values: &Vec<Option<AnyValue>>) -> (r: Vec<Option<AnyValue>>)
    ensures
        r.deep_view() == spec_widen_cells(values.deep_view()),
{
    let mut out: Vec<Option<AnyValue>> = Vec::with_capacity(values.len());
    let mut i: usize = 0;
    while i < values.len()
        invariant
            i <= values.len(),
            out.len() == i,
            forall|k: int|
                0 <= k < i ==> out@[k].deep_view() == spec_widen_cells(values.deep_view())[k],
        decreases values.len() - i,
    {
        let cell = match &values[i] {
            Some(AnyValue::Date(d)) => Some(AnyValue::Datetime((*d as i64) * 86_400_000i64)),
            _ => None,
        };
        out.push(cell);
        i += 1;
    }
    assert(out.deep_view() =~= spec_widen_cells(values.deep_view()));
    out
}

/// Turns the cells of a datetime column in milliseconds into dates, if
/// they all lie in days that a date can hold.
pub fn narrow_cells(values: &Vec<Option<AnyValue>>) -> (r: Option<Vec<Option<AnyValue>>>)
    ensures
        match r {
            Some(out) => dates_in_range(values.deep_view()) && out.deep_view()
                == spec_narrow_cells(values.deep_view()),
            None => !dates_in_range(values.deep_view()),
        },
{
    let ghost vv = values.deep_view();
    let mut out: Vec<Option<AnyValue>> = Vec::with_capacity(values.len());
    let mut i: usize = 0;
    while i < values.len()
        invariant
            i <= values.len(),
            vv == values.deep_view(),
            out.len() == i,
            dates_in_range(vv.take(i as int)),
            forall|k: int| 0 <= k < i ==> out@[k].deep_view() == spec_narrow_cells(vv)[k],
        decreases values.len() - i,
    {
        assert(vv[i as int] == values@[i as int].deep_view());
        let cell = match &values[i] {
            Some(AnyValue::Datetime(t)) => {
                let day: i64 = match t.checked_div_euclid(86_400_000i64) {
                    Some(d) => d,
                    None => {
                        assert(false);
                        0
                    },
                };
                if day < i32::MIN as i64 || day > i32::MAX as i64 {
                    return None;
                }
                Some(AnyValue::Date(day as i32))
            },
            _ => None,
        };
        out.push(cell);
        assert forall|k: int| 0 <= k < i + 1 implies match #[trigger] vv.take(i + 1)[k] {
            Some(AnyValueView::Datetime(t)) => i32::MIN <= spec_day_of(t) <= i32::MAX,
            _ => true,
        } by {
            if k < i {
                assert(vv.take(i as int)[k] == vv[k]);
            }
        }
        i += 1;
    }
    assert(vv.take(i as int) =~= vv);
    assert(out.deep_view() =~= spec_narrow_cells(vv));
    Some(out)
}

proof fn lemma_update_wf(frame: DataFrameView, idx: int, column: SeriesView)
    requires
        frame.wf(),
        0 <= idx < frame.columns.len(),
        column.wf(),
        column.name == frame.columns[idx].name,
        column.values.len() == frame.columns[idx].values.len(),
    ensures
        (DataFrameView { columns: frame.columns.update(idx, column) }).wf(),
{
    let out = DataFrameView { columns: frame.columns.update(idx, column) };
    assert(frame.columns[idx].values.len() == frame.height());
    assert(frame.columns[0].values.len() == frame.height());
    assert forall|k: int| 0 <= k < out.columns.len() implies (#[trigger] out.columns[k]).wf()
        && out.columns[k].values.len() == out.height() by {
        assert(frame.columns[k].wf());
        assert(frame.columns[k].values.len() == frame.height());
    }
    assert forall|i: int, j: int| 0 <= i < j < out.columns.len() implies (
    #[trigger] out.columns[i]).name != (#[trigger] out.columns[j]).name by {
        assert(frame.columns[i].name != frame.columns[j].name);
    }
}

fn replace_column(df: &DataFrame, idx: usize, dtype: DataType, cells: Vec<Option<AnyValue>>) -> (r:
    DataFrame)
    requires
        idx < df@.columns.len(),
        conforms(dtype@, cells.deep_view()),
        cells@.len() == df@.columns[idx as int].values.len(),
    ensures
        r@ == (DataFrameView {
            columns: df@.columns.update(
                idx as int,
                SeriesView {
                    name: df@.columns[idx as int].name,
                    dtype: dtype@,
                    values: cells.deep_view(),
                },
            ),
        }),
        r@.wf(),
{
    let columns = df.columns();
    let ghost column = SeriesView {
        name: df@.columns[idx as int].name,
        dtype: dtype@,
        values: cells.deep_view(),
    };
    let ghost expected = DataFrameView { columns: df@.columns.update(idx as int, column) };
    proof {
        lemma_update_wf(df@, idx as int, column);
    }
    let mut before: Vec<Series> = Vec::with_capacity(columns.len());
    let mut k: usize = 0;
    while k < idx
        invariant
            k <= idx,
            idx < columns.len(),
            columns@.len() == df@.columns.len(),
            forall|i: int| 0 <= i < columns@.len() ==> (#[trigger] columns@[i])@ == df@.columns[i],
            before.len() == k,
            forall|i: int| 0 <= i < k ==> (#[trigger] before@[i])@ == df@.columns[i],
        decreases idx - k,
    {
        before.push(columns[k].clone());
        k += 1;
    }
    assert(columns@[idx as int]@ == df@.columns[idx as int]);
    before.push(Series::from_parts(columns[idx].name().clone(), dtype, cells));
    k = idx + 1;
    while k < columns.len()
        invariant
            idx < k <= columns.len(),
            columns@.len() == df@.columns.len(),
            forall|i: int| 0 <= i < columns@.len() ==> (#[trigger] columns@[i])@ == df@.columns[i],
            before.len() == k,
            expected.columns == df@.columns.update(idx as int, column),
            forall|i: int| 0 <= i < k ==> (#[trigger] before@[i])@ == expected.columns[i],
        decreases columns.len() - k,
    {
        before.push(columns[k].clone());
        k += 1;
    }
    assert(series_views(before@) =~= expected.columns);
    DataFrame::from_columns(before)
}

/// Turns the date column at `idx` into a datetime column in milliseconds.
pub fn widen_dates(df: &DataFrame, idx: usize) -> (r: DataFrame)
    requires
        idx < df@.columns.len(),
    ensures
        r@ == spec_widen(df@, idx as int),
        r@.wf(),
{
    let columns = df.columns();
    assert(columns@[idx as int]@ == df@.columns[idx as int]);
    let cells = widen_cells(columns[idx].values());
    assert(cells.deep_view().len() == cells@.len());
    replace_column(df, idx, DataType::Datetime(TimeUnit::Milliseconds, None), cells)
}

/// Turns the datetime column at `idx`, in milliseconds, into a date column.
pub fn narrow_to_dates(df: &DataFrame, idx: usize) -> (r: Result<DataFrame, FrameError>)
    requires
        idx < df@.columns.len(),
    ensures
        match r {
            Ok(out) => spec_narrow(df@, idx as int) == Ok::<DataFrameView, FrameError>(out@)
                && out@.wf(),
            Err(e) => spec_narrow(df@, idx as int) == Err::<DataFrameView, FrameError>(e),
        },
{
    let columns = df.columns();
    assert(columns@[idx as int]@ == df@.columns[idx as int]);
    match narrow_cells(columns[idx].values()) {
        Some(cells) => {
            assert(cells.deep_view().len() == cells@.len());
            Ok(replace_column(df, idx, DataType::Date, cells))
        },
        None => Err(FrameError::DateOutOfRange),
    }
}

/// Upsamples a frame on the column named `index_column`, with the groups
/// in the order of their first rows where `stable` is set.
pub fn upsample_impl(
    source: &DataFrame,
    by: Vec<String>,
    index_column: &str,
    every: Duration,
    offset: Duration,
    stable: bool,
) -> (r: Result<DataFrame, FrameError>)
    ensures
        match r {
            Ok(out) => spec_upsample(source@, names_of(by@), index_column@, every, offset) == Ok::<
                DataFrameView,
                FrameError,
            >(out@) && out@.wf(),
            Err(e) => spec_upsample(source@, names_of(by@), index_column@, every, offset) == Err::<
                DataFrameView,
                FrameError,
            >(e),
        },
{
    let idx = match source.find_idx_by_name(index_column) {
        Some(i) => i,
        None => {
            return Err(FrameError::ColumnNotFound);
        },
    };
    let columns = source.columns();
    let column = &columns[idx];
    assert(column@ == source@.columns[idx as int]);
    if !check_time_sorted(column.values()) {
        return Err(FrameError::NotSorted);
    }
    match column.dtype() {
        DataType::Date => {
            let wide = widen_dates(source, idx);
            let out = match upsample_datetime(&wide, &by, idx, every, offset, stable) {
                Ok(f) => f,
                Err(e) => {
                    return Err(e);
                },
            };
            match out.find_idx_by_name(index_column) {
                None => Err(FrameError::ColumnNotFound),
                Some(t) => narrow_to_dates(&out, t),
            }
        },
        _ => upsample_datetime(source, &by, idx, every, offset, stable),
    }
}

/// Upsampling at a regular frequency.
pub trait PolarsUpsample {
    /// The frame that is upsampled.
    spec fn frame(&self) -> DataFrameView;

    /// Upsamples a frame at a regular frequency: first groups it by the
    /// columns `by`, then lays each group out on the grid that starts at its
    /// first timestamp, moved by `offset`, and goes on by steps of `every`.
    /// The groups come in the order of `upsample_stable`.
    fn upsample(
        &self,
        by: Vec<String>,
        time_column: &str,
        every: Duration,
        offset: Duration,
    ) -> (r: Result<DataFrame, FrameError>)
        ensures
            match r {
                Ok(out) => spec_upsample(self.frame(), names_of(by@), time_column@, every, offset)
                    == Ok::<DataFrameView, FrameError>(out@) && out@.wf(),
                Err(e) => spec_upsample(self.frame(), names_of(by@), time_column@, every, offset)
                    == Err::<DataFrameView, FrameError>(e),
            },
    ;

    /// Upsamples a frame at a regular frequency, with the groups in the
    /// order in which they first occur in the frame.
    fn upsample_stable(
        &self,
        by: Vec<String>,
        time_column: &str,
        every: Duration,
        offset: Duration,
    ) -> (r: Result<DataFrame, FrameError>)
        ensures
            match r {
                Ok(out) => spec_upsample(self.frame(), names_of(by@), time_column@, every, offset)
                    == Ok::<DataFrameView, FrameError>(out@) && out@.wf(),
                Err(e) => spec_upsample(self.frame(), names_of(by@), time_column@, every, offset)
                    == Err::<DataFrameView, FrameError>(e),
            },
    ;
}

impl PolarsUpsample for DataFrame {
    open spec fn frame(&self) -> DataFrameView {
        self@
    }

    fn upsample(
        &self,
        by: Vec<String>,
        time_column: &str,
        every: Duration,
        offset: Duration,
    ) -> (r: Result<DataFrame, FrameError>) {
        upsample_impl(self, by, time_column, every, offset, false)
    }

    fn upsample_stable(
        &self,
        by: Vec<String>,
        time_column: &str,
        every: Duration,
        offset: Duration,
    ) -> (r: Result<DataFrame, FrameError>) {
        upsample_impl(self, by, time_column, every, offset, true)
    }
}

/// Upsampling on a time column that is not sorted fails with `NotSorted`,
/// whatever the grouping, the step and the offset are.
pub proof fn lemma_unsorted_is_rejected(
    source: DataFrameView,
    by: Seq<Seq<char>>,
    time_column: Seq<char>,
    every: Duration,
    offset: Duration,
)
    requires
        source.index_of(time_column) is Some,
        !is_time_sorted(source.columns[source.index_of(time_column)->Some_0].values),
    ensures
        spec_upsample(source, by, time_column, every, offset) == Err::<DataFrameView, FrameError>(
            FrameError::NotSorted,
        ),
{
}

/// Turning dates into the timestamps of their midnights loses nothing:
/// every timestamp is a whole number of days, turning them back gives the
/// dates again, and the order of the column is the same.
pub proof fn lemma_widen_is_lossless(values: Seq<CellView>)
    requires
        conforms(DataTypeView::Date, values),
    ensures
        forall|i: int|
            0 <= i < values.len() ==> match #[trigger] spec_widen_cells(values)[i] {
                Some(AnyValueView::Datetime(t)) => t as int % 86_400_000 == 0,
                _ => values[i] is None,
            },
        dates_in_range(spec_widen_cells(values)),
        spec_narrow_cells(spec_widen_cells(values)) == values,
        is_time_sorted(spec_widen_cells(values)) == is_time_sorted(values),
{
    let wide = spec_widen_cells(values);
    assert forall|i: int| 0 <= i < values.len() implies match #[trigger] values[i] {
        Some(AnyValueView::Date(d)) => wide[i] == Some(
            AnyValueView::Datetime((d * 86_400_000) as i64),
        ) && spec_day_of((d * 86_400_000) as i64) == d && spec_time_key(wide[i]->Some_0) == d
            * 86_400_000,
        Some(_) => false,
        None => wide[i] is None,
    } by {
        match values[i] {
            Some(v) => {
                assert(value_conforms(DataTypeView::Date, v));
            },
            None => {},
        }
    }
    assert forall|i: int| 0 <= i < values.len() implies match #[trigger] wide[i] {
        Some(AnyValueView::Datetime(t)) => t as int % 86_400_000 == 0 && i32::MIN <= spec_day_of(t)
            <= i32::MAX,
        _ => values[i] is None,
    } by {
        assert(values[i] is None || values[i] is Some);
    }
    assert(spec_narrow_cells(wide) =~= values) by {
        assert forall|i: int| 0 <= i < values.len() implies spec_narrow_cells(wide)[i]
            == values[i] by {
            assert(values[i] is None || values[i] is Some);
        }
    }
    if is_time_sorted(values) {
        assert forall|i: int, j: int|
            0 <= i < j < wide.len() && (#[trigger] wide[i]) is Some && (#[trigger] wide[j])
                is Some implies spec_time_key(wide[i]->Some_0) <= spec_time_key(
            wide[j]->Some_0,
        ) by {
            assert(values[i] is Some && values[j] is Some);
        }
    }
    if is_time_sorted(wide) {
        assert forall|i: int, j: int|
            0 <= i < j < values.len() && (#[trigger] values[i]) is Some && (#[trigger] values[j])
                is Some implies spec_time_key(values[i]->Some_0) <= spec_time_key(
            values[j]->Some_0,
        ) by {
            assert(wide[i] is Some && wide[j] is Some);
        }
    }
}

/// Upsampling a frame on a date column gives what upsampling the same
/// frame on the datetime column of its midnights, in milliseconds, gives,
/// with the time column of the result turned back into dates.
pub proof fn lemma_date_round_trip(
    source: DataFrameView,
    by: Seq<Seq<char>>,
    time_column: Seq<char>,
    every: Duration,
    offset: Duration,
)
    requires
        source.wf(),
        source.index_of(time_column) is Some,
        source.columns[source.index_of(time_column)->Some_0].dtype is Date,
    ensures
        ({
            let idx = source.index_of(time_column)->Some_0;
            let wide = spec_widen(source, idx);
            spec_upsample(source, by, time_column, every, offset) == match spec_upsample(
                wide,
                by,
                time_column,
                every,
                offset,
            ) {
                Err(e) => Err::<DataFrameView, FrameError>(e),
                Ok(out) => match out.index_of(time_column) {
                    None => Err(FrameError::ColumnNotFound),
                    Some(t) => spec_narrow(out, t),
                },
            }
        }),
{
    let idx = source.index_of(time_column)->Some_0;
    let wide = spec_widen(source, idx);
    assert(0 <= idx < source.columns.len() && source.columns[idx].name == time_column);
    assert(wide.columns[idx].name == time_column);
    let c = wide.index_of(time_column)->Some_0;
    assert(0 <= c < wide.columns.len() && wide.columns[c].name == time_column);
    if c < idx {
        assert(source.columns[c].name != source.columns[idx].name);
    } else if c > idx {
        assert(source.columns[idx].name != source.columns[c].name);
    }
    assert(source.columns[idx].wf());
    lemma_widen_is_lossless(source.columns[idx].values);
}

} // verus!
