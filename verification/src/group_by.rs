//! Splitting a frame into groups of rows that agree on some columns.

use crate::datatypes::{clone_cell, same_cell, value_conforms, AnyValue, CellView};
use crate::frame::{series_views, DataFrame, DataFrameView, Series, SeriesView};
use vstd::prelude::*;

verus! {

/// The positions of the named columns, if the frame has them all.
pub open spec fn spec_by_indices(frame: DataFrameView, by: Seq<Seq<char>>) -> Option<Seq<usize>>
    decreases by.len(),
{
    if by.len() == 0 {
        Some(Seq::empty())
    } else {
        match (spec_by_indices(frame, by.drop_last()), frame.index_of(by.last())) {
            (Some(before), Some(c)) => Some(before.push(c as usize)),
            _ => None,
        }
    }
}

/// The names of a list of strings.
pub open spec fn names_of(by: Seq<String>) -> Seq<Seq<char>> {
    by.map_values(|s: String| s@)
}

/// Every position is the position of a column.
pub open spec fn columns_in_bounds(by: Seq<usize>, width: nat) -> bool {
    forall|k: int| 0 <= k < by.len() ==> (#[trigger] by[k]) < width
}

/// Every row is a row of the frame.
pub open spec fn rows_in_bounds(rows: Seq<usize>, height: nat) -> bool {
    forall|k: int| 0 <= k < rows.len() ==> (#[trigger] rows[k]) < height
}

/// What row `i` holds in the grouping columns.
pub open spec fn row_key(frame: DataFrameView, by: Seq<usize>, i: int) -> Seq<CellView> {
    Seq::new(by.len(), |c: int| frame.columns[by[c] as int].values[i])
}

/// No row before row `i` agrees with it on the grouping columns.
pub open spec fn is_group_head(frame: DataFrameView, by: Seq<usize>, i: int) -> bool {
    forall|j: int| 0 <= j < i ==> #[trigger] row_key(frame, by, j) != row_key(frame, by, i)
}

/// The first rows of the groups among the first `n` rows, in order.
pub open spec fn group_heads(frame: DataFrameView, by: Seq<usize>, n: nat) -> Seq<usize>
    decreases n,
{
    if n == 0 {
        Seq::empty()
    } else {
        let rest = group_heads(frame, by, (n - 1) as nat);
        if is_group_head(frame, by, n - 1) {
            rest.push((n - 1) as usize)
        } else {
            rest
        }
    }
}

/// The rows among the first `n` that agree with row `head` on the grouping
/// columns, in order.
pub open spec fn group_rows(frame: DataFrameView, by: Seq<usize>, head: int, n: nat) -> Seq<usize>
    decreases n,
{
    if n == 0 {
        Seq::empty()
    } else {
        let rest = group_rows(frame, by, head, (n - 1) as nat);
        if row_key(frame, by, n - 1) == row_key(frame, by, head) {
            rest.push((n - 1) as usize)
        } else {
            rest
        }
    }
}

/// The groups of a frame: one for each combination of values in the
/// grouping columns, in the order in which the combinations first occur,
/// each with its rows in order.
pub open spec fn spec_groups(frame: DataFrameView, by: Seq<usize>) -> Seq<Seq<usize>> {
    let heads = group_heads(frame, by, frame.height());
    Seq::new(heads.len(), |g: int| group_rows(frame, by, heads[g] as int, frame.height()))
}

/// The rows of a sequence of groups.
pub open spec fn groups_view(groups: Seq<Vec<usize>>) -> Seq<Seq<usize>> {
    groups.map_values(|g: Vec<usize>| g@)
}

/// The cells of a column at the given rows.
pub open spec fn spec_select(values: Seq<CellView>, rows: Seq<usize>) -> Seq<CellView> {
    Seq::new(rows.len(), |k: int| values[rows[k] as int])
}

/// The frame made of the given rows of a frame.
pub open spec fn spec_take_rows(frame: DataFrameView, rows: Seq<usize>) -> DataFrameView {
    DataFrameView {
        columns: Seq::new(
            frame.columns.len(),
            |c: int|
                SeriesView {
                    name: frame.columns[c].name,
                    dtype: frame.columns[c].dtype,
                    values: spec_select(frame.columns[c].values, rows),
                },
        ),
    }
}

proof fn lemma_group_rows_in_bounds(frame: DataFrameView, by: Seq<usize>, head: int, n: nat)
    requires
        n <= usize::MAX,
    ensures
        rows_in_bounds(group_rows(frame, by, head, n), n),
    decreases n,
{
    if n > 0 {
        lemma_group_rows_in_bounds(frame, by, head, (n - 1) as nat);
        let rest = group_rows(frame, by, head, (n - 1) as nat);
        let all = group_rows(frame, by, head, n);
        assert forall|k: int| 0 <= k < all.len() implies (#[trigger] all[k]) < n by {
            if k < rest.len() {
                assert(all[k] == rest[k]);
            }
        }
    }
}

/// Taking rows of a well-formed frame gives a well-formed frame with the
/// same columns.
pub proof fn lemma_take_rows_wf(frame: DataFrameView, rows: Seq<usize>)
    requires
        frame.wf(),
        rows_in_bounds(rows, frame.height()),
    ensures
        spec_take_rows(frame, rows).wf(),
        spec_take_rows(frame, rows).columns.len() == frame.columns.len(),
        frame.columns.len() > 0 ==> spec_take_rows(frame, rows).height() == rows.len(),
{
    let out = spec_take_rows(frame, rows);
    assert forall|c: int| 0 <= c < out.columns.len() implies (#[trigger] out.columns[c]).wf() by {
        let src = frame.columns[c];
        assert(src.wf());
        assert(src.values.len() == frame.height());
        assert forall|k: int| 0 <= k < rows.len() implies match #[trigger] out.columns[c].values[k] {
            Some(v) => value_conforms(src.dtype, v),
            None => true,
        } by {
            assert(out.columns[c].values[k] == src.values[rows[k] as int]);
        }
    }
    assert forall|i: int, j: int| 0 <= i < j < out.columns.len() implies (
    #[trigger] out.columns[i]).name != (#[trigger] out.columns[j]).name by {
        assert(frame.columns[i].name != frame.columns[j].name);
    }
}

/// Finds the positions of the named columns.
pub fn by_indices(df: &DataFrame, by: &Vec<String>) -> (r: Option<Vec<usize>>)
    ensures
        match r {
            Some(idx) => spec_by_indices(df@, names_of(by@)) == Some(idx@) && columns_in_bounds(
                idx@,
                df@.columns.len(),
            ),
            None => spec_by_indices(df@, names_of(by@)) is None,
        },
{
    let ghost names = names_of(by@);
    let mut out: Vec<usize> = Vec::with_capacity(by.len());
    let mut k: usize = 0;
    assert(names.take(0) =~= Seq::empty());
    while k < by.len()
        invariant
            k <= by.len(),
            names == names_of(by@),
            spec_by_indices(df@, names.take(k as int)) == Some(out@),
            columns_in_bounds(out@, df@.columns.len()),
        decreases by.len() - k,
    {
        assert(names.take(k + 1).drop_last() =~= names.take(k as int));
        assert(names.take(k + 1).last() == by@[k as int]@);
        match df.find_idx_by_name(by[k].as_str()) {
            Some(c) => {
                out.push(c);
            },
            None => {
                proof {
                    lemma_missing_column(df@, names, k + 1);
                }
                return None;
            },
        }
        k += 1;
    }
    assert(names.take(k as int) =~= names);
    Some(out)
}

proof fn lemma_missing_column(frame: DataFrameView, by: Seq<Seq<char>>, n: int)
    requires
        0 <= n <= by.len(),
        spec_by_indices(frame, by.take(n)) is None,
    ensures
        spec_by_indices(frame, by) is None,
    decreases by.len(),
{
    if n < by.len() {
        assert(by.drop_last().take(n) =~= by.take(n));
        lemma_missing_column(frame, by.drop_last(), n);
    } else {
        assert(by.take(n) =~= by);
    }
}

/// Whether two rows agree on the grouping columns.
pub fn same_key(df: &DataFrame, by: &Vec<usize>, i: usize, j: usize) -> (r: bool)
    requires
        columns_in_bounds(by@, df@.columns.len()),
        i < df@.height(),
        j < df@.height(),
    ensures
        r == (row_key(df@, by@, i as int) == row_key(df@, by@, j as int)),
{
    let columns = df.columns();
    let ghost ki = row_key(df@, by@, i as int);
    let ghost kj = row_key(df@, by@, j as int);
    let mut c: usize = 0;
    while c < by.len()
        invariant
            c <= by.len(),
            columns_in_bounds(by@, df@.columns.len()),
            i < df@.height(),
            j < df@.height(),
            df@.wf(),
            columns@.len() == df@.columns.len(),
            forall|k: int| 0 <= k < columns@.len() ==> (#[trigger] columns@[k])@ == df@.columns[k],
            ki == row_key(df@, by@, i as int),
            kj == row_key(df@, by@, j as int),
            forall|k: int| 0 <= k < c ==> ki[k] == kj[k],
        decreases by.len() - c,
    {
        let col = &columns[by[c]];
        let cells = col.values();
        assert(col@ == df@.columns[by@[c as int] as int]);
        assert(df@.columns[by@[c as int] as int].values.len() == df@.height());
        if !same_cell(&cells[i], &cells[j]) {
            assert(ki[c as int] != kj[c as int]);
            return false;
        }
        c += 1;
    }
    assert(ki =~= kj);
    true
}

/// Some row of `heads` agrees with row `i` on the grouping columns.
#[verifier::opaque]
pub open spec fn has_head(frame: DataFrameView, by: Seq<usize>, heads: Seq<usize>, i: int) -> bool {
    exists|k: int|
        0 <= k < heads.len() && row_key(frame, by, (#[trigger] heads[k]) as int) == row_key(
            frame,
            by,
            i,
        )
}

proof fn lemma_has_head_push(
    frame: DataFrameView,
    by: Seq<usize>,
    heads: Seq<usize>,
    h: usize,
    i: int,
)
    ensures
        has_head(frame, by, heads.push(h), i) <==> has_head(frame, by, heads, i) || row_key(
            frame,
            by,
            h as int,
        ) == row_key(frame, by, i),
        !has_head(frame, by, Seq::empty(), i),
{
    reveal(has_head);
    let more = heads.push(h);
    if has_head(frame, by, heads, i) {
        let k = choose|k: int|
            0 <= k < heads.len() && row_key(frame, by, (#[trigger] heads[k]) as int) == row_key(
                frame,
                by,
                i,
            );
        assert(more[k] == heads[k]);
    }
    if row_key(frame, by, h as int) == row_key(frame, by, i) {
        assert(more[heads.len() as int] == h);
    }
    if has_head(frame, by, more, i) {
        let k = choose|k: int|
            0 <= k < more.len() && row_key(frame, by, (#[trigger] more[k]) as int) == row_key(
                frame,
                by,
                i,
            );
        if k < heads.len() {
            assert(heads[k] == more[k]);
        }
    }
}

proof fn lemma_head_step(
    frame: DataFrameView,
    by: Seq<usize>,
    heads: Seq<usize>,
    i: usize,
    found: bool,
)
    requires
        heads == group_heads(frame, by, i as nat),
        rows_in_bounds(heads, i as nat),
        forall|j: int| 0 <= j < i ==> #[trigger] has_head(frame, by, heads, j),
        found == has_head(frame, by, heads, i as int),
        i < usize::MAX,
    ensures
        found ==> heads == group_heads(frame, by, (i + 1) as nat),
        found ==> forall|j: int| 0 <= j < i + 1 ==> #[trigger] has_head(frame, by, heads, j),
        !found ==> heads.push(i) == group_heads(frame, by, (i + 1) as nat),
        !found ==> rows_in_bounds(heads.push(i), (i + 1) as nat),
        !found ==> forall|j: int|
            0 <= j < i + 1 ==> #[trigger] has_head(frame, by, heads.push(i), j),
{
    let next = if found {
        heads
    } else {
        heads.push(i)
    };
    if found {
        reveal(has_head);
        let k = choose|k: int|
            0 <= k < heads.len() && row_key(frame, by, (#[trigger] heads[k]) as int) == row_key(
                frame,
                by,
                i as int,
            );
        assert(heads[k] < i);
        assert(row_key(frame, by, heads[k] as int) == row_key(frame, by, i as int));
        assert(!is_group_head(frame, by, i as int));
    } else {
        assert forall|j: int| 0 <= j < i implies #[trigger] row_key(frame, by, j) != row_key(
            frame,
            by,
            i as int,
        ) by {
            reveal(has_head);
            assert(has_head(frame, by, heads, j));
            let k = choose|k: int|
                0 <= k < heads.len() && row_key(frame, by, (#[trigger] heads[k]) as int)
                    == row_key(frame, by, j);
            assert(row_key(frame, by, heads[k] as int) != row_key(frame, by, i as int));
        }
        assert(is_group_head(frame, by, i as int));
        assert forall|k: int| 0 <= k < next.len() implies (#[trigger] next[k]) < i + 1 by {
            if k < heads.len() {
                assert(next[k] == heads[k]);
            }
        }
    }
    assert forall|j: int| 0 <= j < i + 1 implies #[trigger] has_head(frame, by, next, j) by {
        if !found {
            lemma_has_head_push(frame, by, heads, i, j);
        }
        if j < i {
            assert(has_head(frame, by, heads, j));
        }
    }
}

/// The first rows of the groups of a frame, in order.
fn find_group_heads(df: &DataFrame, by: &Vec<usize>) -> (heads: Vec<usize>)
    requires
        columns_in_bounds(by@, df@.columns.len()),
    ensures
        heads@ == group_heads(df@, by@, df@.height()),
        rows_in_bounds(heads@, df@.height()),
{
    let n: usize = df.height();
    let mut heads: Vec<usize> = Vec::new();
    let mut i: usize = 0;
    while i < n
        invariant
            i <= n,
            n == df@.height(),
            columns_in_bounds(by@, df@.columns.len()),
            heads@ == group_heads(df@, by@, i as nat),
            rows_in_bounds(heads@, i as nat),
            forall|j: int| 0 <= j < i ==> #[trigger] has_head(df@, by@, heads@, j),
        decreases n - i,
    {
        let mut found: bool = false;
        let mut k: usize = 0;
        proof {
            lemma_has_head_push(df@, by@, Seq::empty(), 0, i as int);
            assert(heads@.take(0) =~= Seq::empty());
        }
        while k < heads.len()
            invariant
                k <= heads.len(),
                i < n,
                n == df@.height(),
                columns_in_bounds(by@, df@.columns.len()),
                rows_in_bounds(heads@, i as nat),
                found == has_head(df@, by@, heads@.take(k as int), i as int),
            decreases heads.len() - k,
        {
            proof {
                lemma_has_head_push(df@, by@, heads@.take(k as int), heads@[k as int], i as int);
                assert(heads@.take(k + 1) =~= heads@.take(k as int).push(heads@[k as int]));
            }
            if same_key(df, by, heads[k], i) {
                found = true;
            }
            k += 1;
        }
        let ghost before = heads@;
        proof {
            assert(heads@.take(k as int) =~= heads@);
            lemma_head_step(df@, by@, before, i, found);
        }
        if !found {
            heads.push(i);
        }
        i += 1;
    }
    heads
}

/// The groups of a frame by the columns at the given positions, in the
/// order in which their combinations of values first occur.
pub fn group_by_stable(df: &DataFrame, by: &Vec<usize>) -> (r: Vec<Vec<usize>>)
    requires
        columns_in_bounds(by@, df@.columns.len()),
    ensures
        groups_view(r@) == spec_groups(df@, by@),
        forall|g: int| 0 <= g < r@.len() ==> rows_in_bounds((#[trigger] r@[g])@, df@.height()),
{
    let n: usize = df.height();
    let ghost fv = df@;
    let heads = find_group_heads(df, by);
    let mut groups: Vec<Vec<usize>> = Vec::with_capacity(heads.len());
    let mut g: usize = 0;
    while g < heads.len()
        invariant
            g <= heads.len(),
            n == df@.height(),
            fv == df@,
            columns_in_bounds(by@, fv.columns.len()),
            heads@ == group_heads(fv, by@, n as nat),
            rows_in_bounds(heads@, n as nat),
            groups.len() == g,
            forall|m: int|
                0 <= m < g ==> (#[trigger] groups@[m])@ == group_rows(
                    fv,
                    by@,
                    heads@[m] as int,
                    n as nat,
                ),
        decreases heads.len() - g,
    {
        let head: usize = heads[g];
        let mut rows: Vec<usize> = Vec::new();
        let mut i: usize = 0;
        while i < n
            invariant
                i <= n,
                head < n,
                n == df@.height(),
                fv == df@,
                columns_in_bounds(by@, fv.columns.len()),
                rows@ == group_rows(fv, by@, head as int, i as nat),
            decreases n - i,
        {
            if same_key(df, by, i, head) {
                rows.push(i);
            }
            i += 1;
        }
        groups.push(rows);
        g += 1;
    }
    proof {
        assert(groups_view(groups@) =~= spec_groups(fv, by@));
        assert forall|m: int| 0 <= m < groups@.len() implies rows_in_bounds(
            (#[trigger] groups@[m])@,
            fv.height(),
        ) by {
            lemma_group_rows_in_bounds(fv, by@, heads@[m] as int, n as nat);
        }
    }
    groups
}

/// The groups of a frame by the columns at the given positions, for callers
/// that ask for no order. No order is cheaper to produce here than that of
/// `group_by_stable`, so the groups come in it.
pub fn group_by(df: &DataFrame, by: &Vec<usize>) -> (r: Vec<Vec<usize>>)
    requires
        columns_in_bounds(by@, df@.columns.len()),
    ensures
        groups_view(r@) == spec_groups(df@, by@),
        forall|g: int| 0 <= g < r@.len() ==> rows_in_bounds((#[trigger] r@[g])@, df@.height()),
{
    group_by_stable(df, by)
}

/// Reads a column at the given rows.
pub fn select_cells(values: &Vec<Option<AnyValue>>, rows: &Vec<usize>) -> (r: Vec<Option<AnyValue>>)
    requires
        rows_in_bounds(rows@, values@.len()),
    ensures
        r.deep_view() == spec_select(values.deep_view(), rows@),
{
    let mut out: Vec<Option<AnyValue>> = Vec::with_capacity(rows.len());
    let mut k: usize = 0;
    while k < rows.len()
        invariant
            k <= rows.len(),
            out.len() == k,
            rows_in_bounds(rows@, values@.len()),
            forall|j: int|
                0 <= j < k ==> out@[j].deep_view() == spec_select(values.deep_view(), rows@)[j],
        decreases rows.len() - k,
    {
        out.push(clone_cell(&values[rows[k]]));
        k += 1;
    }
    assert(out.deep_view() =~= spec_select(values.deep_view(), rows@));
    out
}

/// The frame made of the given rows of a frame, in the given order.
pub fn take_rows(df: &DataFrame, rows: &Vec<usize>) -> (r: DataFrame)
    requires
        rows_in_bounds(rows@, df@.height()),
    ensures
        r@ == spec_take_rows(df@, rows@),
        r@.wf(),
{
    let columns = df.columns();
    let ghost expected = spec_take_rows(df@, rows@);
    proof {
        lemma_take_rows_wf(df@, rows@);
    }
    let mut out: Vec<Series> = Vec::with_capacity(columns.len());
    let mut c: usize = 0;
    while c < columns.len()
        invariant
            c <= columns.len(),
            columns@.len() == df@.columns.len(),
            forall|i: int| 0 <= i < columns@.len() ==> (#[trigger] columns@[i])@ == df@.columns[i],
            df@.wf(),
            rows_in_bounds(rows@, df@.height()),
            expected == spec_take_rows(df@, rows@),
            expected.wf(),
            out.len() == c,
            forall|k: int| 0 <= k < c ==> (#[trigger] out@[k])@ == expected.columns[k],
        decreases columns.len() - c,
    {
        let col = &columns[c];
        let cells = col.values();
        assert(col@ == df@.columns[c as int]);
        assert(df@.columns[c as int].values.len() == df@.height());
        let taken = select_cells(cells, rows);
        assert(expected.columns[c as int].wf());
        out.push(Series::from_parts(col.name().clone(), col.dtype().clone(), taken));
        c += 1;
    }
    assert(series_views(out@) =~= expected.columns);
    DataFrame::from_columns(out)
}

} // verus!
