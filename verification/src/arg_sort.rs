//! The index-producing sort: it returns the positions that would order a
//! column, with the absent values grouped at one end.

use crate::ordering::{directed_order, in_order, IdxSize, SortKey};
use rayon::slice::ParallelSliceMut;
use vstd::prelude::*;

verus! {

/// How a column is to be sorted.
#[derive(Clone, Copy, Debug, PartialEq, Eq, Structural)]
pub struct SortOptions {
    /// Greatest values first.
    pub descending: bool,
    /// Absent values after the present ones, not before them.
    pub nulls_last: bool,
    /// Sort on several threads.
    pub multithreaded: bool,
}

impl Default for SortOptions {
    fn default() -> (r: SortOptions)
        ensures
            !r.descending,
            !r.nulls_last,
            r.multithreaded,
    {
        SortOptions { descending: false, nulls_last: false, multithreaded: true }
    }
}

/// A named column of row positions.
#[derive(Debug, PartialEq, Eq)]
pub struct IdxCa {
    pub name: String,
    pub values: Vec<IdxSize>,
}

/// The chunks of a column laid end to end.
pub open spec fn flatten_chunks(chunks: Seq<Vec<Option<SortKey>>>) -> Seq<Option<SortKey>>
    decreases chunks.len(),
{
    if chunks.len() == 0 {
        Seq::empty()
    } else {
        flatten_chunks(chunks.drop_last()) + chunks.last()@
    }
}

/// How many values of a column are absent.
pub open spec fn count_nulls(s: Seq<Option<SortKey>>) -> nat
    decreases s.len(),
{
    if s.len() == 0 {
        0
    } else {
        count_nulls(s.drop_last()) + if s.last() is None {
            1nat
        } else {
            0nat
        }
    }
}

/// `vals` holds the present values of `flat`, each with its position, and
/// `nulls` the positions of the absent ones, both in the order of the column.
pub open spec fn is_null_partition(
    flat: Seq<Option<SortKey>>,
    vals: Seq<(IdxSize, SortKey)>,
    nulls: Seq<IdxSize>,
) -> bool {
    &&& vals.len() + nulls.len() == flat.len()
    &&& nulls.len() == count_nulls(flat)
    &&& forall|k: int|
        0 <= k < vals.len() ==> (#[trigger] vals[k]).0 < flat.len() && flat[vals[k].0 as int]
            == Some(vals[k].1)
    &&& forall|j: int, k: int|
        0 <= j < k < vals.len() ==> (#[trigger] vals[j]).0 < (#[trigger] vals[k]).0
    &&& forall|k: int|
        0 <= k < nulls.len() ==> (#[trigger] nulls[k]) < flat.len() && flat[nulls[k] as int] is None
    &&& forall|j: int, k: int|
        0 <= j < k < nulls.len() ==> (#[trigger] nulls[j]) < (#[trigger] nulls[k])
    &&& forall|p: int|
        0 <= p < flat.len() ==> match #[trigger] flat[p] {
            Some(v) => vals.contains((p as IdxSize, v)),
            None => nulls.contains(p as IdxSize),
        }
}

proof fn lemma_count_nulls_bound(s: Seq<Option<SortKey>>)
    ensures
        count_nulls(s) <= s.len(),
    decreases s.len(),
{
    if s.len() > 0 {
        lemma_count_nulls_bound(s.drop_last());
    }
}

proof fn lemma_flatten_prefix_len(chunks: Seq<Vec<Option<SortKey>>>, c: int)
    requires
        0 <= c <= chunks.len(),
    ensures
        flatten_chunks(chunks.take(c)).len() <= flatten_chunks(chunks).len(),
    decreases chunks.len(),
{
    if c == chunks.len() {
        assert(chunks.take(c) =~= chunks);
    } else {
        assert(chunks.drop_last().take(c) =~= chunks.take(c));
        lemma_flatten_prefix_len(chunks.drop_last(), c);
    }
}

proof fn lemma_partition_push(
    flat: Seq<Option<SortKey>>,
    vals: Seq<(IdxSize, SortKey)>,
    nulls: Seq<IdxSize>,
    x: Option<SortKey>,
)
    requires
        is_null_partition(flat, vals, nulls),
        flat.len() < IdxSize::MAX,
    ensures
        match x {
            Some(v) => is_null_partition(
                flat.push(x),
                vals.push((flat.len() as IdxSize, v)),
                nulls,
            ),
            None => is_null_partition(flat.push(x), vals, nulls.push(flat.len() as IdxSize)),
        },
{
    let n = flat.len() as IdxSize;
    let flat2 = flat.push(x);
    assert(flat2.drop_last() =~= flat);
    match x {
        Some(v) => {
            let vals2 = vals.push((n, v));
            assert forall|j: int, k: int| 0 <= j < k < vals2.len() implies (#[trigger] vals2[j]).0
                < (#[trigger] vals2[k]).0 by {
                if k == vals.len() {
                    assert(vals[j].0 < flat.len());
                }
            }
            assert forall|p: int| 0 <= p < flat2.len() implies match #[trigger] flat2[p] {
                Some(w) => vals2.contains((p as IdxSize, w)),
                None => nulls.contains(p as IdxSize),
            } by {
                if p < flat.len() {
                    match flat[p] {
                        Some(w) => {
                            let k = choose|k: int|
                                0 <= k < vals.len() && vals[k] == (p as IdxSize, w);
                            assert(vals2[k] == (p as IdxSize, w));
                        },
                        None => {},
                    }
                } else {
                    assert(vals2[vals.len() as int] == (n, v));
                }
            }
        },
        None => {
            let nulls2 = nulls.push(n);
            assert forall|j: int, k: int| 0 <= j < k < nulls2.len() implies (#[trigger] nulls2[j])
                < (#[trigger] nulls2[k]) by {
                if k == nulls.len() {
                    assert(nulls[j] < flat.len());
                }
            }
            assert forall|p: int| 0 <= p < flat2.len() implies match #[trigger] flat2[p] {
                Some(w) => vals.contains((p as IdxSize, w)),
                None => nulls2.contains(p as IdxSize),
            } by {
                if p < flat.len() {
                    match flat[p] {
                        Some(w) => {},
                        None => {
                            let k = choose|k: int| 0 <= k < nulls.len() && nulls[k] == p as IdxSize;
                            assert(nulls2[k] == p as IdxSize);
                        },
                    }
                } else {
                    assert(nulls2[nulls.len() as int] == n);
                }
            }
        },
    }
}

/// Splits a column into its present values, each paired with its position,
/// and the positions of its absent values. Both buffers are sized once from
/// the counts that the caller knows.
pub fn partition_nulls(
    chunks: &Vec<Vec<Option<SortKey>>>,
    null_count: usize,
    len: usize,
    nulls_last: bool,
) -> (r: (Vec<(IdxSize, SortKey)>, Vec<IdxSize>))
    requires
        flatten_chunks(chunks@).len() == len,
        count_nulls(flatten_chunks(chunks@)) == null_count,
        len <= IdxSize::MAX,
    ensures
        is_null_partition(flatten_chunks(chunks@), r.0@, r.1@),
{
    proof {
        lemma_count_nulls_bound(flatten_chunks(chunks@));
    }
    let mut vals: Vec<(IdxSize, SortKey)> = Vec::with_capacity(len - null_count);
    let null_cap: usize = if nulls_last {
        null_count
    } else {
        len
    };
    let mut nulls_idx: Vec<IdxSize> = Vec::with_capacity(null_cap);
    let mut count: IdxSize = 0;
    let ghost mut seen: Seq<Option<SortKey>> = Seq::empty();
    let mut c: usize = 0;
    proof {
        assert(chunks@.take(0) =~= Seq::empty());
    }
    while c < chunks.len()
        invariant
            c <= chunks.len(),
            flatten_chunks(chunks@).len() == len,
            len <= IdxSize::MAX,
            seen == flatten_chunks(chunks@.take(c as int)),
            count == seen.len(),
            is_null_partition(seen, vals@, nulls_idx@),
        decreases chunks.len() - c,
    {
        let chunk = &chunks[c];
        let ghost before = seen;
        proof {
            assert(chunks@.take(c + 1).drop_last() =~= chunks@.take(c as int));
            assert(chunks@.take(c + 1).last() == chunks@[c as int]);
            lemma_flatten_prefix_len(chunks@, c + 1);
            assert(chunk@.take(0) =~= Seq::empty());
            assert(before + chunk@.take(0) =~= before);
        }
        let mut j: usize = 0;
        while j < chunk.len()
            invariant
                j <= chunk.len(),
                len <= IdxSize::MAX,
                before.len() + chunk@.len() <= len,
                seen == before + chunk@.take(j as int),
                count == seen.len(),
                is_null_partition(seen, vals@, nulls_idx@),
            decreases chunk.len() - j,
        {
            let i = count;
            count += 1;
            proof {
                lemma_partition_push(seen, vals@, nulls_idx@, chunk@[j as int]);
                assert(before + chunk@.take(j + 1) =~= seen.push(chunk@[j as int]));
                seen = seen.push(chunk@[j as int]);
            }
            match chunk[j] {
                Some(v) => {
                    vals.push((i, v));
                },
                None => {
                    nulls_idx.push(i);
                },
            }
            j += 1;
        }
        proof {
            assert(chunk@.take(j as int) =~= chunk@);
        }
        c += 1;
    }
    proof {
        assert(chunks@.take(c as int) =~= chunks@);
    }
    (vals, nulls_idx)
}

/// The values of `vals` come in the order of the given direction.
pub open spec fn is_sorted_by_value(vals: Seq<(IdxSize, SortKey)>, descending: bool) -> bool {
    forall|i: int, j: int|
        0 <= i < j < vals.len() ==> in_order(
            (#[trigger] vals[i]).1,
            (#[trigger] vals[j]).1,
            descending,
        )
}

/// Sorts on the calling thread, with `sort_unstable_by` of the standard
/// library's slices and `directed_order` as its comparator. Trusted: the
/// buffer keeps its entries and ends up ordered by that comparator; which of
/// two entries with equal values comes first is left open.
#[verifier::external_body]
fn sort_unstable_by_value(vals: &mut Vec<(IdxSize, SortKey)>, descending: bool)
    ensures
        final(vals)@.to_multiset() == old(vals)@.to_multiset(),
        is_sorted_by_value(final(vals)@, descending),
{
    vals.sort_unstable_by(|a, b| directed_order(a, b, descending));
}

/// Sorts on the thread pool, with `par_sort_unstable_by` of rayon's
/// `ParallelSliceMut` and `directed_order` as its comparator. Trusted: the
/// buffer keeps its entries and ends up ordered by that comparator; which of
/// two entries with equal values comes first is left open.
#[verifier::external_body]
fn par_sort_unstable_by_value(vals: &mut Vec<(IdxSize, SortKey)>, descending: bool)
    ensures
        final(vals)@.to_multiset() == old(vals)@.to_multiset(),
        is_sorted_by_value(final(vals)@, descending),
{
    vals.par_sort_unstable_by(|a, b| directed_order(a, b, descending));
}

/// Sorts the present values in the given direction, on several threads if
/// `parallel` is set. Both ways give the same order of values.
pub fn arg_sort_branch(vals: &mut Vec<(IdxSize, SortKey)>, descending: bool, parallel: bool)
    ensures
        final(vals)@.to_multiset() == old(vals)@.to_multiset(),
        is_sorted_by_value(final(vals)@, descending),
{
    if parallel {
        par_sort_unstable_by_value(vals, descending);
    } else {
        sort_unstable_by_value(vals, descending);
    }
}

/// The permutation that the sorted values and the positions of the absent
/// values make up.
pub open spec fn assembled(
    vals: Seq<(IdxSize, SortKey)>,
    nulls: Seq<IdxSize>,
    descending: bool,
    nulls_last: bool,
) -> Seq<IdxSize> {
    let positions = vals.map_values(|e: (IdxSize, SortKey)| e.0);
    let nulls = if descending {
        nulls.reverse()
    } else {
        nulls
    };
    if nulls_last {
        positions + nulls
    } else {
        nulls + positions
    }
}

/// Reverses a buffer of positions where it stands.
pub fn reverse_in_place(v: &mut Vec<IdxSize>)
    ensures
        final(v)@ == old(v)@.reverse(),
{
    let n: usize = v.len();
    let mut i: usize = 0;
    while i < n / 2
        invariant
            n == v.len(),
            n == old(v).len(),
            i <= n / 2,
            forall|k: int| 0 <= k < i ==> v@[k] == old(v)@[n - 1 - k],
            forall|k: int| n - i <= k < n ==> v@[k] == old(v)@[n - 1 - k],
            forall|k: int| i <= k < n - i ==> v@[k] == old(v)@[k],
        decreases n / 2 - i,
    {
        let a: IdxSize = v[i];
        let b: IdxSize = v[n - 1 - i];
        v[i] = b;
        v[n - 1 - i] = a;
        i += 1;
    }
    assert(v@ =~= old(v)@.reverse());
}

/// Joins the sorted positions and the positions of the absent values into
/// the permutation. With the absent values first, their buffer becomes the
/// result and the sorted positions are added to it.
pub fn assemble_indices(
    vals: Vec<(IdxSize, SortKey)>,
    nulls_idx: Vec<IdxSize>,
    descending: bool,
    nulls_last: bool,
    len: usize,
) -> (idx: Vec<IdxSize>)
    ensures
        idx@ == assembled(vals@, nulls_idx@, descending, nulls_last),
{
    let ghost positions = vals@.map_values(|e: (IdxSize, SortKey)| e.0);
    if nulls_last {
        let mut idx: Vec<IdxSize> = Vec::with_capacity(len);
        let mut k: usize = 0;
        while k < vals.len()
            invariant
                k <= vals.len(),
                positions == vals@.map_values(|e: (IdxSize, SortKey)| e.0),
                idx@ == positions.take(k as int),
            decreases vals.len() - k,
        {
            idx.push(vals[k].0);
            assert(positions.take(k + 1) =~= positions.take(k as int).push(vals@[k as int].0));
            k += 1;
        }
        assert(positions.take(k as int) =~= positions);
        if descending {
            let mut m: usize = nulls_idx.len();
            while m > 0
                invariant
                    m <= nulls_idx.len(),
                    idx@ == positions + nulls_idx@.reverse().take(nulls_idx.len() - m),
                decreases m,
            {
                m -= 1;
                idx.push(nulls_idx[m]);
                assert(positions + nulls_idx@.reverse().take(nulls_idx.len() - m) =~= (positions
                    + nulls_idx@.reverse().take(nulls_idx.len() - m - 1)).push(nulls_idx@[m as int]));
            }
            assert(nulls_idx@.reverse().take(nulls_idx.len() as int) =~= nulls_idx@.reverse());
        } else {
            let mut m: usize = 0;
            while m < nulls_idx.len()
                invariant
                    m <= nulls_idx.len(),
                    idx@ == positions + nulls_idx@.take(m as int),
                decreases nulls_idx.len() - m,
            {
                idx.push(nulls_idx[m]);
                assert(positions + nulls_idx@.take(m + 1) =~= (positions + nulls_idx@.take(
                    m as int,
                )).push(nulls_idx@[m as int]));
                m += 1;
            }
            assert(nulls_idx@.take(m as int) =~= nulls_idx@);
        }
        idx
    } else {
        let mut idx = nulls_idx;
        if descending {
            reverse_in_place(&mut idx);
        }
        let ghost first = idx@;
        let mut k: usize = 0;
        while k < vals.len()
            invariant
                k <= vals.len(),
                positions == vals@.map_values(|e: (IdxSize, SortKey)| e.0),
                idx@ == first + positions.take(k as int),
            decreases vals.len() - k,
        {
            idx.push(vals[k].0);
            assert(first + positions.take(k + 1) =~= (first + positions.take(k as int)).push(
                vals@[k as int].0,
            ));
            k += 1;
        }
        assert(positions.take(k as int) =~= positions);
        idx
    }
}

/// Every position below `n` occurs in `p` exactly once.
pub open spec fn is_permutation(p: Seq<IdxSize>, n: nat) -> bool {
    &&& p.len() == n
    &&& forall|i: int| 0 <= i < p.len() ==> (#[trigger] p[i]) < n
    &&& forall|i: int, j: int| 0 <= i < j < p.len() ==> (#[trigger] p[i]) != (#[trigger] p[j])
    &&& forall|k: IdxSize| k < n ==> #[trigger] p.contains(k)
}

/// Where the block of present values begins in the result.
pub open spec fn first_valid(flat: Seq<Option<SortKey>>, nulls_last: bool) -> int {
    if nulls_last {
        0
    } else {
        count_nulls(flat) as int
    }
}

/// Where the block of absent values begins in the result.
pub open spec fn first_null(flat: Seq<Option<SortKey>>, nulls_last: bool) -> int {
    if nulls_last {
        flat.len() - count_nulls(flat)
    } else {
        0
    }
}

/// The block of present values holds positions of present values only, and
/// reading the column at them in turn gives values in the given direction.
pub open spec fn values_ordered(
    flat: Seq<Option<SortKey>>,
    descending: bool,
    nulls_last: bool,
    p: Seq<IdxSize>,
) -> bool {
    let lo = first_valid(flat, nulls_last);
    let hi = lo + flat.len() - count_nulls(flat);
    &&& forall|i: int| lo <= i < hi ==> flat[(#[trigger] p[i]) as int] is Some
    &&& forall|i: int, j: int|
        lo <= i < j < hi ==> in_order(
            flat[(#[trigger] p[i]) as int].unwrap(),
            flat[(#[trigger] p[j]) as int].unwrap(),
            descending,
        )
}

/// The absent values stand in one block, at the start or at the end, in the
/// order of the column, or in its reverse when the sort is descending.
pub open spec fn nulls_grouped(
    flat: Seq<Option<SortKey>>,
    descending: bool,
    nulls_last: bool,
    p: Seq<IdxSize>,
) -> bool {
    let lo = first_null(flat, nulls_last);
    let hi = lo + count_nulls(flat);
    &&& forall|i: int| lo <= i < hi ==> flat[(#[trigger] p[i]) as int] is None
    &&& forall|i: int, j: int|
        lo <= i < j < hi ==> if descending {
            (#[trigger] p[i]) > (#[trigger] p[j])
        } else {
            p[i] < p[j]
        }
}

/// `p` is a result of sorting `flat` by position: a permutation of its
/// positions with the present values in order and the absent ones grouped.
pub open spec fn is_arg_sort(
    flat: Seq<Option<SortKey>>,
    descending: bool,
    nulls_last: bool,
    p: Seq<IdxSize>,
) -> bool {
    &&& is_permutation(p, flat.len())
    &&& values_ordered(flat, descending, nulls_last, p)
    &&& nulls_grouped(flat, descending, nulls_last, p)
}

proof fn lemma_assembled_is_arg_sort(
    flat: Seq<Option<SortKey>>,
    dense: Seq<(IdxSize, SortKey)>,
    sorted: Seq<(IdxSize, SortKey)>,
    nulls: Seq<IdxSize>,
    descending: bool,
    nulls_last: bool,
)
    requires
        is_null_partition(flat, dense, nulls),
        sorted.to_multiset() == dense.to_multiset(),
        is_sorted_by_value(sorted, descending),
    ensures
        is_arg_sort(flat, descending, nulls_last, assembled(sorted, nulls, descending, nulls_last)),
{
    broadcast use vstd::seq_lib::group_to_multiset_ensures;

    let p = assembled(sorted, nulls, descending, nulls_last);
    let positions = sorted.map_values(|e: (IdxSize, SortKey)| e.0);
    let turned = if descending {
        nulls.reverse()
    } else {
        nulls
    };
    let nn = nulls.len() as int;
    let nv = sorted.len() as int;
    assert(sorted.len() == sorted.to_multiset().len());
    assert(dense.len() == dense.to_multiset().len());
    assert(nv == dense.len());
    // every sorted entry is an entry of the column
    assert forall|k: int| 0 <= k < nv implies (#[trigger] sorted[k]).0 < flat.len()
        && flat[sorted[k].0 as int] == Some(sorted[k].1) by {
        assert(sorted.contains(sorted[k]));
        assert(dense.to_multiset().count(sorted[k]) > 0);
        assert(dense.contains(sorted[k]));
        let j = choose|j: int| 0 <= j < dense.len() && dense[j] == sorted[k];
        assert(dense[j].0 < flat.len());
    }
    // no entry occurs twice
    assert(dense.no_duplicates()) by {
        assert forall|i: int, j: int|
            0 <= i < dense.len() && 0 <= j < dense.len() && i != j implies dense[i]
            != dense[j] by {
            if i < j {
                assert(dense[i].0 < dense[j].0);
            } else {
                assert(dense[j].0 < dense[i].0);
            }
        }
    }
    dense.lemma_multiset_has_no_duplicates();
    sorted.lemma_multiset_has_no_duplicates_conv();
    assert forall|i: int, j: int| 0 <= i < j < nv implies (#[trigger] sorted[i]).0
        != (#[trigger] sorted[j]).0 by {
        if sorted[i].0 == sorted[j].0 {
            assert(flat[sorted[i].0 as int] == Some(sorted[i].1));
            assert(flat[sorted[j].0 as int] == Some(sorted[j].1));
            assert(sorted[i] == sorted[j]);
        }
    }
    // the reversed positions of the absent values
    assert forall|k: int| 0 <= k < nn implies (#[trigger] turned[k]) < flat.len()
        && flat[turned[k] as int] is None by {
        if descending {
            assert(turned[k] == nulls[nn - 1 - k]);
        }
    }
    assert forall|i: int, j: int| 0 <= i < j < nn implies if descending {
        (#[trigger] turned[i]) > (#[trigger] turned[j])
    } else {
        turned[i] < turned[j]
    } by {
        if descending {
            assert(turned[i] == nulls[nn - 1 - i]);
            assert(turned[j] == nulls[nn - 1 - j]);
        }
    }
    assert(turned.len() == nn);
    let v0 = first_valid(flat, nulls_last);
    let n0 = first_null(flat, nulls_last);
    assert(forall|i: int| 0 <= i < nv ==> p[v0 + i] == (#[trigger] sorted[i]).0);
    assert(forall|i: int| 0 <= i < nn ==> p[n0 + i] == #[trigger] turned[i]);
    assert(forall|i: int| v0 <= i < v0 + nv ==> (#[trigger] p[i]) == sorted[i - v0].0);
    assert(forall|i: int| n0 <= i < n0 + nn ==> (#[trigger] p[i]) == turned[i - n0]);
    assert(p.len() == flat.len());
    assert forall|i: int| 0 <= i < p.len() implies (#[trigger] p[i]) < flat.len() by {
        if v0 <= i < v0 + nv {
            assert(p[i] == sorted[i - v0].0);
        } else {
            assert(p[i] == turned[i - n0]);
        }
    }
    assert forall|i: int, j: int| 0 <= i < j < p.len() implies (#[trigger] p[i]) != (
    #[trigger] p[j]) by {
        let vi = v0 <= i < v0 + nv;
        let vj = v0 <= j < v0 + nv;
        if vi && vj {
            assert(p[i] == sorted[i - v0].0 && p[j] == sorted[j - v0].0);
        } else if !vi && !vj {
            assert(p[i] == turned[i - n0] && p[j] == turned[j - n0]);
        } else if vi {
            assert(p[i] == sorted[i - v0].0 && p[j] == turned[j - n0]);
            assert(flat[p[i] as int] is Some);
            assert(flat[p[j] as int] is None);
        } else {
            assert(p[j] == sorted[j - v0].0 && p[i] == turned[i - n0]);
            assert(flat[p[j] as int] is Some);
            assert(flat[p[i] as int] is None);
        }
    }
    assert forall|k: IdxSize| k < flat.len() implies #[trigger] p.contains(k) by {
        match flat[k as int] {
            Some(v) => {
                assert(dense.contains((k, v)));
                assert(sorted.to_multiset().count((k, v)) > 0);
                assert(sorted.contains((k, v)));
                let i = choose|i: int| 0 <= i < sorted.len() && sorted[i] == (k, v);
                assert(p[v0 + i] == sorted[i].0);
            },
            None => {
                assert(nulls.contains(k));
                let i = choose|i: int| 0 <= i < nulls.len() && nulls[i] == k;
                if descending {
                    assert(turned[nn - 1 - i] == nulls[i]);
                    assert(p[n0 + (nn - 1 - i)] == turned[nn - 1 - i]);
                } else {
                    assert(p[n0 + i] == turned[i]);
                }
            },
        }
    }
    assert(is_permutation(p, flat.len()));
    assert(values_ordered(flat, descending, nulls_last, p)) by {
        assert forall|i: int, j: int| v0 <= i < j < v0 + nv implies in_order(
            flat[(#[trigger] p[i]) as int].unwrap(),
            flat[(#[trigger] p[j]) as int].unwrap(),
            descending,
        ) by {
            assert(p[i] == sorted[i - v0].0 && p[j] == sorted[j - v0].0);
            assert(in_order(sorted[i - v0].1, sorted[j - v0].1, descending));
        }
    }
    assert(nulls_grouped(flat, descending, nulls_last, p)) by {
        assert forall|i: int, j: int| n0 <= i < j < n0 + nn implies if descending {
            (#[trigger] p[i]) > (#[trigger] p[j])
        } else {
            p[i] < p[j]
        } by {
            assert(p[i] == turned[i - n0] && p[j] == turned[j - n0]);
        }
    }
}

/// Sorts a column by position: returns the permutation of its positions at
/// which the column reads in order. The present values come in ascending
/// order, or descending, with not-a-number as the greatest value; the absent
/// values stand together before them, or after them with `nulls_last`, in the
/// order of the column (reversed when descending). Which of two equal values
/// comes first is left open. `len` and `null_count` are the column's length
/// and the number of its absent values.
pub fn arg_sort(
    name: &str,
    chunks: &Vec<Vec<Option<SortKey>>>,
    options: SortOptions,
    null_count: usize,
    len: usize,
) -> (r: IdxCa)
    requires
        flatten_chunks(chunks@).len() == len,
        count_nulls(flatten_chunks(chunks@)) == null_count,
        len <= IdxSize::MAX,
    ensures
        r.name@ == name@,
        is_arg_sort(flatten_chunks(chunks@), options.descending, options.nulls_last, r.values@),
{
    let descending = options.descending;
    let nulls_last = options.nulls_last;
    let (mut vals, nulls_idx) = partition_nulls(chunks, null_count, len, nulls_last);
    let ghost dense = vals@;
    arg_sort_branch(&mut vals, descending, options.multithreaded);
    proof {
        lemma_assembled_is_arg_sort(
            flatten_chunks(chunks@),
            dense,
            vals@,
            nulls_idx@,
            descending,
            nulls_last,
        );
    }
    let idx = assemble_indices(vals, nulls_idx, descending, nulls_last, len);
    IdxCa { name: name.to_owned(), values: idx }
}

/// The column read at the positions of `p`.
pub open spec fn read_back(flat: Seq<Option<SortKey>>, p: Seq<IdxSize>) -> Seq<Option<SortKey>> {
    Seq::new(p.len(), |i: int| flat[p[i] as int])
}

proof fn lemma_map_keeps_multiset<A, B>(a: Seq<A>, b: Seq<A>, f: spec_fn(A) -> B)
    requires
        a.to_multiset() == b.to_multiset(),
    ensures
        a.map_values(f).to_multiset() == b.map_values(f).to_multiset(),
    decreases a.len(),
{
    broadcast use vstd::seq_lib::group_to_multiset_ensures;
    broadcast use vstd::multiset::group_multiset_axioms;

    assert(a.len() == a.to_multiset().len());
    assert(b.len() == b.to_multiset().len());
    if a.len() == 0 {
        assert(a.map_values(f) =~= b.map_values(f));
    } else {
        let x = a.last();
        let a1 = a.drop_last();
        assert(a =~= a1.push(x));
        assert(a.to_multiset() =~= a1.to_multiset().insert(x));
        assert(a.contains(x));
        assert(b.to_multiset().count(x) > 0);
        assert(b.contains(x));
        let k = choose|k: int| 0 <= k < b.len() && b[k] == x;
        let b1 = b.remove(k);
        assert(b1.to_multiset() =~= b.to_multiset().remove(x));
        assert(a1.to_multiset() =~= b1.to_multiset());
        lemma_map_keeps_multiset(a1, b1, f);
        assert(a.map_values(f) =~= a1.map_values(f).push(f(x)));
        assert(b.map_values(f) =~= b1.map_values(f).insert(k, f(x)));
        assert(a.map_values(f).to_multiset() =~= a1.map_values(f).to_multiset().insert(f(x)));
        assert(b.map_values(f).to_multiset() =~= b1.map_values(f).to_multiset().insert(f(x)));
    }
}

proof fn lemma_valid_block(
    flat: Seq<Option<SortKey>>,
    descending: bool,
    nulls_last: bool,
    p: Seq<IdxSize>,
    x: IdxSize,
)
    requires
        is_arg_sort(flat, descending, nulls_last, p),
    ensures
        ({
            let lo = first_valid(flat, nulls_last);
            let hi = lo + flat.len() - count_nulls(flat);
            p.subrange(lo, hi).contains(x) <==> x < flat.len() && flat[x as int] is Some
        }),
{
    lemma_count_nulls_bound(flat);
    let lo = first_valid(flat, nulls_last);
    let hi = lo + flat.len() - count_nulls(flat);
    let block = p.subrange(lo, hi);
    if block.contains(x) {
        let i = choose|i: int| 0 <= i < block.len() && block[i] == x;
        assert(p[lo + i] == x);
    }
    if x < flat.len() && flat[x as int] is Some {
        assert(p.contains(x));
        let i = choose|i: int| 0 <= i < p.len() && p[i] == x;
        if !(lo <= i < hi) {
            let n0 = first_null(flat, nulls_last);
            assert(n0 <= i < n0 + count_nulls(flat));
            assert(flat[p[i] as int] is None);
        }
        assert(block[i - lo] == x);
    }
}

/// Two results of sorting one column in the same direction and with the same
/// placement of absent values read back to the same sequence of values. The
/// sequential and the multithreaded mode may pick different positions for
/// equal values, but the sorted values that a caller reads are the same.
pub proof fn lemma_sort_modes_agree(
    flat: Seq<Option<SortKey>>,
    sequential: SortOptions,
    parallel: SortOptions,
    p: Seq<IdxSize>,
    q: Seq<IdxSize>,
)
    requires
        sequential.descending == parallel.descending,
        sequential.nulls_last == parallel.nulls_last,
        is_arg_sort(flat, sequential.descending, sequential.nulls_last, p),
        is_arg_sort(flat, parallel.descending, parallel.nulls_last, q),
    ensures
        read_back(flat, p) == read_back(flat, q),
{
    broadcast use vstd::seq_lib::group_to_multiset_ensures;

    lemma_count_nulls_bound(flat);
    let descending = sequential.descending;
    let nulls_last = sequential.nulls_last;
    let lo = first_valid(flat, nulls_last);
    let hi = lo + flat.len() - count_nulls(flat);
    let n0 = first_null(flat, nulls_last);
    let bp = p.subrange(lo, hi);
    let bq = q.subrange(lo, hi);
    assert(bp.no_duplicates()) by {
        assert forall|i: int, j: int|
            0 <= i < bp.len() && 0 <= j < bp.len() && i != j implies bp[i] != bp[j] by {
            if i < j {
                assert(p[lo + i] != p[lo + j]);
            } else {
                assert(p[lo + j] != p[lo + i]);
            }
        }
    }
    assert(bq.no_duplicates()) by {
        assert forall|i: int, j: int|
            0 <= i < bq.len() && 0 <= j < bq.len() && i != j implies bq[i] != bq[j] by {
            if i < j {
                assert(q[lo + i] != q[lo + j]);
            } else {
                assert(q[lo + j] != q[lo + i]);
            }
        }
    }
    bp.lemma_multiset_has_no_duplicates();
    bq.lemma_multiset_has_no_duplicates();
    assert forall|x: IdxSize| bp.to_multiset().count(x) == bq.to_multiset().count(x) by {
        lemma_valid_block(flat, descending, nulls_last, p, x);
        lemma_valid_block(flat, descending, nulls_last, q, x);
        assert(bp.contains(x) <==> bp.to_multiset().count(x) > 0);
        assert(bq.contains(x) <==> bq.to_multiset().count(x) > 0);
        assert(bp.to_multiset().contains(x) <==> bp.to_multiset().count(x) > 0);
        assert(bq.to_multiset().contains(x) <==> bq.to_multiset().count(x) > 0);
    }
    assert(bp.to_multiset() =~= bq.to_multiset());
    let f = |x: IdxSize| flat[x as int].unwrap();
    let vp = bp.map_values(f);
    let vq = bq.map_values(f);
    lemma_map_keeps_multiset(bp, bq, f);
    let leq = |a: SortKey, b: SortKey| in_order(a, b, descending);
    assert(vstd::relations::total_ordering(leq)) by {
        assert(vstd::relations::reflexive(leq));
        assert(vstd::relations::antisymmetric(leq));
        assert(vstd::relations::transitive(leq));
        assert(vstd::relations::strongly_connected(leq));
    }
    assert(vstd::relations::sorted_by(vp, leq)) by {
        assert forall|i: int, j: int| 0 <= i < j < vp.len() implies #[trigger] leq(
            vp[i],
            vp[j],
        ) by {
            assert(vp[i] == flat[p[lo + i] as int].unwrap());
            assert(vp[j] == flat[p[lo + j] as int].unwrap());
        }
    }
    assert(vstd::relations::sorted_by(vq, leq)) by {
        assert forall|i: int, j: int| 0 <= i < j < vq.len() implies #[trigger] leq(
            vq[i],
            vq[j],
        ) by {
            assert(vq[i] == flat[q[lo + i] as int].unwrap());
            assert(vq[j] == flat[q[lo + j] as int].unwrap());
        }
    }
    vstd::seq_lib::lemma_sorted_unique(vp, vq, leq);
    assert(vp =~= vq);
    assert forall|i: int| 0 <= i < p.len() implies read_back(flat, p)[i] == read_back(flat, q)[i] by {
        if lo <= i < hi {
            assert(vp[i - lo] == flat[p[i] as int].unwrap());
            assert(vq[i - lo] == flat[q[i] as int].unwrap());
            assert(flat[p[i] as int] is Some);
            assert(flat[q[i] as int] is Some);
        } else {
            assert(n0 <= i < n0 + count_nulls(flat));
            assert(flat[p[i] as int] is None);
            assert(flat[q[i] as int] is None);
        }
    }
    assert(read_back(flat, p) =~= read_back(flat, q));
}

} // verus!
