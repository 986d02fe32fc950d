use resample::arg_sort::{arg_sort, arg_sort_branch, assemble_indices, partition_nulls, IdxCa, SortOptions};
use resample::ordering::{ascending_order, compare_fn_nan_max, descending_order, SortKey};
use std::cmp::Ordering;

fn num(values: &[Option<i64>]) -> Vec<Option<SortKey>> {
    values.iter().map(|v| v.map(SortKey::Number)).collect()
}

fn sort_chunks(chunks: Vec<Vec<Option<SortKey>>>, descending: bool, nulls_last: bool, multithreaded: bool) -> IdxCa {
    let len: usize = chunks.iter().map(|chunk| chunk.len()).sum();
    let null_count: usize = chunks.iter().flatten().filter(|v| v.is_none()).count();
    let options = SortOptions { descending, nulls_last, multithreaded };
    arg_sort("idx", &chunks, options, null_count, len)
}

fn sort_one(values: Vec<Option<SortKey>>, descending: bool, nulls_last: bool, multithreaded: bool) -> IdxCa {
    sort_chunks(vec![values], descending, nulls_last, multithreaded)
}

fn read_back(values: &[Option<SortKey>], idx: &[u32]) -> Vec<Option<SortKey>> {
    idx.iter().map(|i| values[*i as usize]).collect()
}

#[test]
fn arg_sort_ascending_nulls_first() {
    let out = sort_one(num(&[Some(3), None, Some(1), Some(2), None]), false, false, false);
    assert_eq!(out.name, "idx");
    assert_eq!(out.values, vec![1, 4, 2, 3, 0]);
}

#[test]
fn arg_sort_descending_nulls_first_reverses_nulls() {
    let out = sort_one(num(&[Some(3), None, Some(1), Some(2), None]), true, false, false);
    assert_eq!(out.values, vec![4, 1, 0, 3, 2]);
}

#[test]
fn arg_sort_ascending_nulls_last() {
    let out = sort_one(num(&[Some(3), None, Some(1), Some(2), None]), false, true, false);
    assert_eq!(out.values, vec![2, 3, 0, 1, 4]);
}

#[test]
fn arg_sort_descending_nulls_last_reverses_nulls() {
    let out = sort_one(num(&[Some(3), None, Some(1), Some(2), None]), true, true, false);
    assert_eq!(out.values, vec![0, 3, 2, 4, 1]);
}

#[test]
fn arg_sort_nan_is_greatest_in_both_directions() {
    let values = vec![
        Some(SortKey::NaN),
        Some(SortKey::Number(i64::MAX)),
        None,
        Some(SortKey::Number(-5)),
    ];
    let up = sort_one(values.clone(), false, true, false);
    assert_eq!(up.values, vec![3, 1, 0, 2]);
    let down = sort_one(values.clone(), true, false, false);
    assert_eq!(down.values, vec![2, 0, 1, 3]);
}

#[test]
fn arg_sort_counts_positions_across_chunks() {
    let chunks = vec![num(&[Some(9), None]), vec![], num(&[Some(7)]), num(&[None, Some(8)])];
    let out = sort_chunks(chunks, false, false, false);
    assert_eq!(out.values, vec![1, 3, 2, 4, 0]);
}

#[test]
fn arg_sort_empty_and_all_null() {
    let empty = sort_chunks(vec![], false, false, true);
    assert_eq!(empty.values, Vec::<u32>::new());
    let nulls = sort_one(num(&[None, None, None]), true, true, true);
    assert_eq!(nulls.values, vec![2, 1, 0]);
    let single = sort_one(num(&[Some(4)]), false, false, true);
    assert_eq!(single.values, vec![0]);
}

#[test]
fn arg_sort_is_a_permutation() {
    let values: Vec<Option<SortKey>> = (0..500i64)
        .map(|i| if i % 7 == 0 { None } else if i % 11 == 0 { Some(SortKey::NaN) } else { Some(SortKey::Number((i * 37) % 101)) })
        .collect();
    for (descending, nulls_last, multithreaded) in [
        (false, false, false),
        (true, false, true),
        (false, true, true),
        (true, true, false),
    ] {
        let out = sort_one(values.clone(), descending, nulls_last, multithreaded);
        let mut seen = out.values.clone();
        seen.sort();
        assert_eq!(seen, (0..500u32).collect::<Vec<u32>>());
    }
}

#[test]
fn arg_sort_orders_values_and_groups_nulls() {
    let values: Vec<Option<SortKey>> = (0..300i64)
        .map(|i| if i % 5 == 0 { None } else { Some(SortKey::Number((i * 53) % 17)) })
        .collect();
    let nulls = 60usize;
    let out = sort_one(values.clone(), true, true, true);
    let read = read_back(&values, &out.values);
    assert!(read[..300 - nulls].iter().all(|v| v.is_some()));
    assert!(read[300 - nulls..].iter().all(|v| v.is_none()));
    for pair in read[..300 - nulls].windows(2) {
        assert_ne!(compare_fn_nan_max(&pair[0].unwrap(), &pair[1].unwrap()), Ordering::Less);
    }
    for pair in out.values[300 - nulls..].windows(2) {
        assert!(pair[0] > pair[1]);
    }
}

#[test]
fn arg_sort_modes_read_back_the_same_values() {
    let values: Vec<Option<SortKey>> = (0..1000i64)
        .map(|i| if i % 13 == 0 { None } else { Some(SortKey::Number((i * 7919) % 23)) })
        .collect();
    for (descending, nulls_last) in [(false, false), (true, false), (false, true), (true, true)] {
        let sequential = sort_one(values.clone(), descending, nulls_last, false);
        let parallel = sort_one(values.clone(), descending, nulls_last, true);
        assert_eq!(read_back(&values, &sequential.values), read_back(&values, &parallel.values));
    }
}

#[test]
fn compare_fn_nan_max_orders_nan_last() {
    let nan = SortKey::NaN;
    let one = SortKey::Number(1);
    let two = SortKey::Number(2);
    assert_eq!(compare_fn_nan_max(&one, &two), Ordering::Less);
    assert_eq!(compare_fn_nan_max(&two, &one), Ordering::Greater);
    assert_eq!(compare_fn_nan_max(&two, &two), Ordering::Equal);
    assert_eq!(compare_fn_nan_max(&nan, &two), Ordering::Greater);
    assert_eq!(compare_fn_nan_max(&two, &nan), Ordering::Less);
    assert_eq!(compare_fn_nan_max(&nan, &nan), Ordering::Equal);
    assert_eq!(ascending_order(&(0, one), &(1, nan)), Ordering::Less);
    assert_eq!(descending_order(&(0, one), &(1, nan)), Ordering::Greater);
}

#[test]
fn partition_sort_and_assemble_by_hand() {
    let chunks = vec![num(&[Some(5), None, Some(4)])];
    let (mut vals, nulls) = partition_nulls(&chunks, 1, 3, true);
    assert_eq!(vals, vec![(0, SortKey::Number(5)), (2, SortKey::Number(4))]);
    assert_eq!(nulls, vec![1]);
    arg_sort_branch(&mut vals, false, false);
    assert_eq!(vals, vec![(2, SortKey::Number(4)), (0, SortKey::Number(5))]);
    arg_sort_branch(&mut vals, true, true);
    assert_eq!(vals, vec![(0, SortKey::Number(5)), (2, SortKey::Number(4))]);
    assert_eq!(assemble_indices(vals, nulls, true, false, 3), vec![1, 0, 2]);
}

#[test]
fn sort_options_default() {
    let options = SortOptions::default();
    assert!(!options.descending);
    assert!(!options.nulls_last);
    assert!(options.multithreaded);
}
