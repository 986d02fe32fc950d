//! Filling absent cells with the last value before them.

use crate::datatypes::{clone_cell, conforms, value_conforms, AnyValue, CellView, DataTypeView};
use crate::error::FrameError;
use crate::frame::{series_views, DataFrame, DataFrameView, Series, SeriesView};
use crate::group_by::names_of;
use vstd::prelude::*;

verus! {

/// A column in which each absent cell has taken the value of the nearest
/// present cell before it; absent cells before the first present one stay
/// absent.
pub open spec fn spec_forward_fill(values: Seq<CellView>) -> Seq<CellView>
    decreases values.len(),
{
    if values.len() == 0 {
        Seq::empty()
    } else {
        let before = spec_forward_fill(values.drop_last());
        let cell = if values.last() is Some || before.len() == 0 {
            values.last()
        } else {
            before.last()
        };
        before.push(cell)
    }
}

/// The frame with the column at `c` filled forward.
pub open spec fn spec_fill_column(frame: DataFrameView, c: int) -> DataFrameView {
    DataFrameView {
        columns: frame.columns.update(
            c,
            SeriesView {
                name: frame.columns[c].name,
                dtype: frame.columns[c].dtype,
                values: spec_forward_fill(frame.columns[c].values),
            },
        ),
    }
}

/// The frame with each of the named columns filled forward, one after the
/// other.
pub open spec fn spec_fill_by(frame: DataFrameView, by: Seq<Seq<char>>) -> Result<
    DataFrameView,
    FrameError,
>
    decreases by.len(),
{
    if by.len() == 0 {
        Ok(frame)
    } else {
        match spec_fill_by(frame, by.drop_last()) {
            Err(e) => Err(e),
            Ok(filled) => match filled.index_of(by.last()) {
                None => Err(FrameError::ColumnNotFound),
                Some(c) => Ok(spec_fill_column(filled, c)),
            },
        }
    }
}

/// Filling keeps the length of a column and the type of its cells.
pub proof fn lemma_forward_fill_conforms(dtype: DataTypeView, values: Seq<CellView>)
    requires
        conforms(dtype, values),
    ensures
        spec_forward_fill(values).len() == values.len(),
        conforms(dtype, spec_forward_fill(values)),
    decreases values.len(),
{
    if values.len() > 0 {
        let head = values.drop_last();
        assert forall|i: int| 0 <= i < head.len() implies match #[trigger] head[i] {
            Some(v) => value_conforms(dtype, v),
            None => true,
        } by {
            assert(head[i] == values[i]);
        }
        lemma_forward_fill_conforms(dtype, head);
        let before = spec_forward_fill(head);
        let filled = spec_forward_fill(values);
        assert forall|i: int| 0 <= i < filled.len() implies match #[trigger] filled[i] {
            Some(v) => value_conforms(dtype, v),
            None => true,
        } by {
            if i < before.len() {
                assert(filled[i] == before[i]);
            } else if values.last() is Some || before.len() == 0 {
                assert(filled[i] == values[values.len() - 1]);
            } else {
                assert(filled[i] == before[before.len() - 1]);
            }
        }
    }
}

/// Filling a column of a well-formed frame leaves a well-formed frame with
/// the same names and types.
pub proof fn lemma_fill_column_wf(frame: DataFrameView, c: int)
    requires
        frame.wf(),
        0 <= c < frame.columns.len(),
    ensures
        spec_fill_column(frame, c).wf(),
        spec_fill_column(frame, c).columns.len() == frame.columns.len(),
        forall|k: int|
            0 <= k < frame.columns.len() ==> (#[trigger] spec_fill_column(frame, c).columns[k]).name
                == frame.columns[k].name && spec_fill_column(frame, c).columns[k].dtype
                == frame.columns[k].dtype,
{
    let out = spec_fill_column(frame, c);
    assert(frame.columns[c].wf());
    lemma_forward_fill_conforms(frame.columns[c].dtype, frame.columns[c].values);
    assert(frame.columns[c].values.len() == frame.height());
    assert forall|k: int| 0 <= k < out.columns.len() implies (#[trigger] out.columns[k]).wf()
        && out.columns[k].values.len() == out.height() by {
        assert(frame.columns[k].wf());
        assert(frame.columns[k].values.len() == frame.height());
        assert(frame.columns[0].values.len() == frame.height());
    }
    assert forall|i: int, j: int| 0 <= i < j < out.columns.len() implies (
    #[trigger] out.columns[i]).name != (#[trigger] out.columns[j]).name by {
        assert(frame.columns[i].name != frame.columns[j].name);
    }
}

/// Fills the absent cells of a column with the last value before them.
pub fn forward_fill(values: &Vec<Option<AnyValue>>) -> (r: Vec<Option<AnyValue>>)
    ensures
        r.deep_view() == spec_forward_fill(values.deep_view()),
{
    let ghost vv = values.deep_view();
    let mut out: Vec<Option<AnyValue>> = Vec::with_capacity(values.len());
    let mut i: usize = 0;
    assert(vv.take(0) =~= Seq::empty());
    assert(out.deep_view() =~= Seq::empty());
    while i < values.len()
        invariant
            i <= values.len(),
            vv == values.deep_view(),
            out.len() == i,
            out.deep_view() == spec_forward_fill(vv.take(i as int)),
        decreases values.len() - i,
    {
        assert(vv.take(i + 1).drop_last() =~= vv.take(i as int));
        assert(vv.take(i + 1).last() == values@[i as int].deep_view());
        let ghost before = out.deep_view();
        let cell = if values[i].is_some() || i == 0 {
            clone_cell(&values[i])
        } else {
            assert(before.last() == out@[i - 1].deep_view());
            clone_cell(&out[i - 1])
        };
        out.push(cell);
        assert(out.deep_view() =~= before.push(cell.deep_view()));
        i += 1;
    }
    assert(vv.take(i as int) =~= vv);
    out
}

/// Fills the column at `c` forward.
pub fn fill_column(df: &DataFrame, c: usize) -> (r: DataFrame)
    requires
        c < df@.columns.len(),
    ensures
        r@ == spec_fill_column(df@, c as int),
        r@.wf(),
{
    let columns = df.columns();
    let ghost expected = spec_fill_column(df@, c as int);
    proof {
        lemma_fill_column_wf(df@, c as int);
    }
    let mut out: Vec<Series> = Vec::with_capacity(columns.len());
    let mut k: usize = 0;
    while k < columns.len()
        invariant
            k <= columns.len(),
            c < columns.len(),
            columns@.len() == df@.columns.len(),
            forall|i: int| 0 <= i < columns@.len() ==> (#[trigger] columns@[i])@ == df@.columns[i],
            expected == spec_fill_column(df@, c as int),
            expected.wf(),
            out.len() == k,
            forall|i: int| 0 <= i < k ==> (#[trigger] out@[i])@ == expected.columns[i],
        decreases columns.len() - k,
    {
        let col = &columns[k];
        assert(col@ == df@.columns[k as int]);
        if k == c {
            let filled = forward_fill(col.values());
            assert(expected.columns[k as int].wf());
            out.push(Series::from_parts(col.name().clone(), col.dtype().clone(), filled));
        } else {
            out.push(col.clone());
        }
        k += 1;
    }
    assert(series_views(out@) =~= expected.columns);
    DataFrame::from_columns(out)
}

/// Fills each of the named columns forward, one after the other.
pub fn fill_by(df: DataFrame, by: &Vec<String>) -> (r: Result<DataFrame, FrameError>)
    ensures
        match r {
            Ok(out) => spec_fill_by(df@, names_of(by@)) == Ok::<
                DataFrameView,
                FrameError,
            >(out@) && out@.wf(),
            Err(e) => spec_fill_by(df@, names_of(by@)) == Err::<
                DataFrameView,
                FrameError,
            >(e),
        },
{
    let ghost names = names_of(by@);
    let ghost start = df@;
    let mut cur = df;
    cur.well_formed();
    let mut k: usize = 0;
    assert(names.take(0) =~= Seq::empty());
    while k < by.len()
        invariant
            k <= by.len(),
            names == names_of(by@),
            start == df@,
            cur@.wf(),
            spec_fill_by(start, names.take(k as int)) == Ok::<DataFrameView, FrameError>(cur@),
        decreases by.len() - k,
    {
        assert(names.take(k + 1).drop_last() =~= names.take(k as int));
        assert(names.take(k + 1).last() == by@[k as int]@);
        match cur.find_idx_by_name(by[k].as_str()) {
            None => {
                proof {
                    assert(spec_fill_by(start, names.take(k + 1)) == Err::<
                        DataFrameView,
                        FrameError,
                    >(FrameError::ColumnNotFound));
                    lemma_fill_by_fails(start, names, k + 1);
                }
                return Err(FrameError::ColumnNotFound);
            },
            Some(c) => {
                cur = fill_column(&cur, c);
            },
        }
        k += 1;
    }
    assert(names.take(k as int) =~= names);
    Ok(cur)
}

proof fn lemma_fill_by_fails(frame: DataFrameView, by: Seq<Seq<char>>, n: int)
    requires
        0 <= n <= by.len(),
        spec_fill_by(frame, by.take(n)) is Err,
    ensures
        spec_fill_by(frame, by) == spec_fill_by(frame, by.take(n)),
    decreases by.len(),
{
    if n < by.len() {
        assert(by.drop_last().take(n) =~= by.take(n));
        lemma_fill_by_fails(frame, by.drop_last(), n);
    } else {
        assert(by.take(n) =~= by);
    }
}

} // verus!
