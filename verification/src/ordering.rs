//! The ordering policy of the sort: one total order on values in which
//! not-a-number is the greatest value, read in either direction.

use std::cmp::Ordering;
use vstd::prelude::*;

verus! {

/// The position of a row in a column.
pub type IdxSize = u32;

/// A value as the sort sees it. An integer column holds only `Number`s; a
/// floating column maps each of its ordinary values to a `Number` that keeps
/// the column's order, and each not-a-number to `NaN`.
#[derive(Clone, Copy, Debug, PartialEq, Eq, Structural)]
pub enum SortKey {
    Number(i64),
    NaN,
}

/// `a` stands at or before `b` in ascending order. `NaN` is the greatest
/// value and equal to itself.
pub open spec fn nan_max_le(a: SortKey, b: SortKey) -> bool {
    match (a, b) {
        (_, SortKey::NaN) => true,
        (SortKey::NaN, SortKey::Number(_)) => false,
        (SortKey::Number(x), SortKey::Number(y)) => x <= y,
    }
}

/// `a` may stand before `b` in a column sorted in the given direction.
pub open spec fn in_order(a: SortKey, b: SortKey, descending: bool) -> bool {
    if descending {
        nan_max_le(b, a)
    } else {
        nan_max_le(a, b)
    }
}

/// The three-way comparison that `nan_max_le` induces.
pub open spec fn nan_max_ordering(a: SortKey, b: SortKey) -> Ordering {
    if !nan_max_le(b, a) {
        Ordering::Less
    } else if !nan_max_le(a, b) {
        Ordering::Greater
    } else {
        Ordering::Equal
    }
}

/// Compares two values, `NaN` being greater than every number.
pub fn compare_fn_nan_max(a: &SortKey, b: &SortKey) -> (o: Ordering)
    ensures
        o == nan_max_ordering(*a, *b),
        (o == Ordering::Equal) == (*a == *b),
{
    match (*a, *b) {
        (SortKey::NaN, SortKey::NaN) => Ordering::Equal,
        (SortKey::NaN, SortKey::Number(_)) => Ordering::Greater,
        (SortKey::Number(_), SortKey::NaN) => Ordering::Less,
        (SortKey::Number(x), SortKey::Number(y)) => {
            if x < y {
                Ordering::Less
            } else if x > y {
                Ordering::Greater
            } else {
                Ordering::Equal
            }
        },
    }
}

/// Orders two indexed values by value, smallest first.
pub fn ascending_order(a: &(IdxSize, SortKey), b: &(IdxSize, SortKey)) -> (o: Ordering)
    ensures
        o == nan_max_ordering(a.1, b.1),
{
    compare_fn_nan_max(&a.1, &b.1)
}

/// Orders two indexed values by value, greatest first: the ascending
/// comparison with its arguments exchanged.
pub fn descending_order(a: &(IdxSize, SortKey), b: &(IdxSize, SortKey)) -> (o: Ordering)
    ensures
        o == nan_max_ordering(b.1, a.1),
{
    compare_fn_nan_max(&b.1, &a.1)
}

/// Orders two indexed values in the given direction.
pub fn directed_order(a: &(IdxSize, SortKey), b: &(IdxSize, SortKey), descending: bool) -> (o:
    Ordering)
    ensures
        o == if descending {
            nan_max_ordering(b.1, a.1)
        } else {
            nan_max_ordering(a.1, b.1)
        },
        o != Ordering::Greater <==> in_order(a.1, b.1, descending),
{
    if descending {
        descending_order(a, b)
    } else {
        ascending_order(a, b)
    }
}

/// `nan_max_le` is a total order: any two values compare, a value compares to
/// itself, two values that compare both ways are the same value, and the
/// relation passes along chains.
pub proof fn lemma_nan_max_total_order()
    ensures
        forall|a: SortKey| #[trigger] nan_max_le(a, a),
        forall|a: SortKey, b: SortKey| #[trigger] nan_max_le(a, b) || nan_max_le(b, a),
        forall|a: SortKey, b: SortKey| #[trigger]
            nan_max_le(a, b) && nan_max_le(b, a) ==> a == b,
        forall|a: SortKey, b: SortKey, c: SortKey| #[trigger]
            nan_max_le(a, b) && #[trigger] nan_max_le(b, c) ==> nan_max_le(a, c),
{
}

/// Descending order is ascending order read backwards, for not-a-number too:
/// it comes first when the greatest values come first.
pub proof fn lemma_descending_mirrors_ascending(a: SortKey, b: SortKey)
    ensures
        in_order(a, b, true) == in_order(b, a, false),
        in_order(SortKey::NaN, a, true),
        in_order(a, SortKey::NaN, false),
{
}

} // verus!
