//! Stacking frames with the same columns on top of each other.

use crate::datatypes::{clone_cell, value_conforms, AnyValue, CellView, DataTypeView};
use crate::frame::{series_views, DataFrame, DataFrameView, Series, SeriesView};
use vstd::prelude::*;

verus! {

/// The names and types of the columns of a frame, in order.
pub open spec fn spec_schema(frame: DataFrameView) -> Seq<(Seq<char>, DataTypeView)> {
    Seq::new(frame.columns.len(), |c: int| (frame.columns[c].name, frame.columns[c].dtype))
}

/// The mathematical values of a sequence of frames.
pub open spec fn frame_views(frames: Seq<DataFrame>) -> Seq<DataFrameView> {
    frames.map_values(|f: DataFrame| f@)
}

/// Every frame has the columns of the first, by name and type.
pub open spec fn all_same_schema(frames: Seq<DataFrameView>) -> bool {
    forall|f: int|
        0 <= f < frames.len() ==> spec_schema(#[trigger] frames[f]) == spec_schema(frames[0])
}

/// Every frame is well formed.
pub open spec fn all_wf(frames: Seq<DataFrameView>) -> bool {
    forall|f: int| 0 <= f < frames.len() ==> (#[trigger] frames[f]).wf()
}

/// The cells of the column at `c` of each frame in turn.
pub open spec fn spec_concat_cells(frames: Seq<DataFrameView>, c: int) -> Seq<CellView>
    decreases frames.len(),
{
    if frames.len() == 0 {
        Seq::empty()
    } else {
        spec_concat_cells(frames.drop_last(), c) + frames.last().columns[c].values
    }
}

/// The frames stacked in their order: the columns of the first, each with
/// the cells of all.
pub open spec fn spec_vstack(frames: Seq<DataFrameView>) -> DataFrameView {
    DataFrameView {
        columns: Seq::new(
            frames[0].columns.len(),
            |c: int|
                SeriesView {
                    name: frames[0].columns[c].name,
                    dtype: frames[0].columns[c].dtype,
                    values: spec_concat_cells(frames, c),
                },
        ),
    }
}

/// The total number of rows of a sequence of frames.
pub open spec fn total_height(frames: Seq<DataFrameView>) -> nat
    decreases frames.len(),
{
    if frames.len() == 0 {
        0
    } else {
        total_height(frames.drop_last()) + frames.last().height()
    }
}

proof fn lemma_concat_cells(frames: Seq<DataFrameView>, first: DataFrameView, c: int)
    requires
        forall|f: int| 0 <= f < frames.len() ==> (#[trigger] frames[f]).wf(),
        forall|f: int|
            0 <= f < frames.len() ==> spec_schema(#[trigger] frames[f]) == spec_schema(first),
        0 <= c < first.columns.len(),
    ensures
        spec_concat_cells(frames, c).len() == total_height(frames),
        crate::datatypes::conforms(first.columns[c].dtype, spec_concat_cells(frames, c)),
    decreases frames.len(),
{
    if frames.len() > 0 {
        let head = frames.drop_last();
        let last = frames.last();
        assert forall|f: int| 0 <= f < head.len() implies (#[trigger] head[f]).wf() && spec_schema(
            head[f],
        ) == spec_schema(first) by {
            assert(head[f] == frames[f]);
        }
        lemma_concat_cells(head, first, c);
        assert(last == frames[frames.len() - 1]);
        assert(last.wf());
        assert(spec_schema(last) == spec_schema(first));
        assert(spec_schema(last).len() == spec_schema(first).len());
        assert(spec_schema(last)[c] == spec_schema(first)[c]);
        assert(last.columns[c].dtype == first.columns[c].dtype);
        assert(last.columns[c].wf());
        assert(last.columns[c].values.len() == last.height());
        let before = spec_concat_cells(head, c);
        let all = spec_concat_cells(frames, c);
        assert forall|i: int| 0 <= i < all.len() implies match #[trigger] all[i] {
            Some(v) => value_conforms(first.columns[c].dtype, v),
            None => true,
        } by {
            if i < before.len() {
                assert(all[i] == before[i]);
            } else {
                assert(all[i] == last.columns[c].values[i - before.len()]);
            }
        }
    }
}

/// Stacking well-formed frames with the same columns gives a well-formed
/// frame with those columns.
pub proof fn lemma_vstack_wf(frames: Seq<DataFrameView>)
    requires
        frames.len() > 0,
        forall|f: int| 0 <= f < frames.len() ==> (#[trigger] frames[f]).wf(),
        all_same_schema(frames),
    ensures
        spec_vstack(frames).wf(),
        spec_schema(spec_vstack(frames)) == spec_schema(frames[0]),
{
    let out = spec_vstack(frames);
    let first = frames[0];
    assert(first.wf());
    assert forall|c: int| 0 <= c < out.columns.len() implies (#[trigger] out.columns[c]).wf()
        && out.columns[c].values.len() == total_height(frames) by {
        lemma_concat_cells(frames, first, c);
    }
    assert forall|i: int, j: int| 0 <= i < j < out.columns.len() implies (
    #[trigger] out.columns[i]).name != (#[trigger] out.columns[j]).name by {
        assert(first.columns[i].name != first.columns[j].name);
    }
    assert(spec_schema(out) =~= spec_schema(first));
}

/// Stacks frames with the same columns in their order.
pub fn vstack(frames: &Vec<DataFrame>) -> (r: DataFrame)
    requires
        frames@.len() > 0,
        all_wf(frame_views(frames@)),
        all_same_schema(frame_views(frames@)),
    ensures
        r@ == spec_vstack(frame_views(frames@)),
        r@.wf(),
{
    let ghost views = frame_views(frames@);
    let ghost expected = spec_vstack(views);
    let first = frames[0].columns();
    proof {
        lemma_vstack_wf(views);
        assert(views[0] == frames@[0]@);
    }
    let width: usize = first.len();
    let mut out: Vec<Series> = Vec::with_capacity(width);
    let mut c: usize = 0;
    while c < width
        invariant
            c <= width,
            width == views[0].columns.len(),
            frames@.len() > 0,
            views == frame_views(frames@),
            all_same_schema(views),
            expected == spec_vstack(views),
            expected.wf(),
            first@.len() == width,
            forall|i: int| 0 <= i < first@.len() ==> (#[trigger] first@[i])@ == views[0].columns[i],
            out.len() == c,
            forall|i: int| 0 <= i < c ==> (#[trigger] out@[i])@ == expected.columns[i],
        decreases width - c,
    {
        let mut cells: Vec<Option<AnyValue>> = Vec::new();
        let mut f: usize = 0;
        assert(views.take(0) =~= Seq::empty());
        assert(cells.deep_view() =~= Seq::empty());
        while f < frames.len()
            invariant
                f <= frames.len(),
                c < width,
                width == views[0].columns.len(),
                views == frame_views(frames@),
                all_same_schema(views),
                cells.deep_view() == spec_concat_cells(views.take(f as int), c as int),
            decreases frames.len() - f,
        {
            let columns = frames[f].columns();
            assert(views[f as int] == frames@[f as int]@);
            assert(spec_schema(views[f as int]) == spec_schema(views[0]));
            assert(spec_schema(views[f as int]).len() == spec_schema(views[0]).len());
            let col = &columns[c];
            let values = col.values();
            let ghost base = cells.deep_view();
            let ghost cv = values.deep_view();
            assert(cv == views[f as int].columns[c as int].values);
            let mut i: usize = 0;
            assert(base + cv.take(0) =~= base);
            while i < values.len()
                invariant
                    i <= values.len(),
                    cv == values.deep_view(),
                    cells.deep_view() == base + cv.take(i as int),
                decreases values.len() - i,
            {
                let ghost before = cells.deep_view();
                let cell = clone_cell(&values[i]);
                cells.push(cell);
                assert(cells.deep_view() =~= before.push(cv[i as int]));
                assert(base + cv.take(i + 1) =~= (base + cv.take(i as int)).push(cv[i as int]));
                i += 1;
            }
            assert(cv.take(i as int) =~= cv);
            assert(views.take(f + 1).drop_last() =~= views.take(f as int));
            assert(views.take(f + 1).last() == views[f as int]);
            f += 1;
        }
        assert(views.take(f as int) =~= views);
        let col = &first[c];
        assert(col@ == views[0].columns[c as int]);
        assert(expected.columns[c as int].wf());
        out.push(Series::from_parts(col.name().clone(), col.dtype().clone(), cells));
        c += 1;
    }
    assert(series_views(out@) =~= expected.columns);
    DataFrame::from_columns(out)
}

} // verus!
