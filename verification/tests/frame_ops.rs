use resample::concat::vstack;
use resample::datatypes::{AnyValue, DataType, TimeUnit};
use resample::error::FrameError;
use resample::fill_null::{fill_by, fill_column, forward_fill};
use resample::frame::{DataFrame, Series};
use resample::group_by::{by_indices, group_by, group_by_stable, same_key, take_rows};
use resample::join::{left_join_on_time, plan_left_join, TimeIndex};
use resample::upsample::{check_time_sorted, first_time, last_time, narrow_to_dates, widen_dates};

fn ints(name: &str, values: &[Option<i64>]) -> Series {
    let cells = values.iter().map(|v| v.map(AnyValue::Int64)).collect();
    Series::new(name, DataType::Int64, cells).unwrap()
}

fn times(name: &str, values: &[Option<i64>]) -> Series {
    let cells = values.iter().map(|v| v.map(AnyValue::Datetime)).collect();
    Series::new(name, DataType::Datetime(TimeUnit::Microseconds, None), cells).unwrap()
}

fn strings(name: &str, values: &[Option<&str>]) -> Series {
    let cells = values.iter().map(|v| v.map(|s| AnyValue::Utf8(s.to_string()))).collect();
    Series::new(name, DataType::Utf8, cells).unwrap()
}

#[test]
fn series_new_checks_the_cells() {
    let ok = Series::new("a", DataType::Int64, vec![Some(AnyValue::Int64(1)), None]).unwrap();
    assert_eq!(ok.name(), "a");
    assert_eq!(*ok.dtype(), DataType::Int64);
    assert_eq!(ok.len(), 2);
    assert_eq!(*ok.values(), vec![Some(AnyValue::Int64(1)), None]);
    let bad = Series::new("a", DataType::Int64, vec![None, Some(AnyValue::Date(1))]);
    assert_eq!(bad, Err(FrameError::SchemaMismatch));
    let float = Series::new("f", DataType::Float64, vec![Some(AnyValue::Float64(1.5f64.to_bits()))]);
    assert!(float.is_ok());
    let date = Series::new("d", DataType::Date, vec![Some(AnyValue::Datetime(1))]);
    assert_eq!(date, Err(FrameError::SchemaMismatch));
}

#[test]
fn frame_new_checks_lengths_and_names() {
    let a = ints("a", &[Some(1), Some(2)]);
    let b = ints("b", &[Some(1)]);
    let a2 = ints("a", &[None, None]);
    assert_eq!(DataFrame::new(vec![a.clone(), b.clone()]), Err(FrameError::ShapeMismatch));
    assert_eq!(DataFrame::new(vec![a.clone(), a2.clone()]), Err(FrameError::Duplicate));
    assert_eq!(DataFrame::new(vec![a.clone(), a2.clone(), b.clone()]), Err(FrameError::ShapeMismatch));
    let df = DataFrame::new(vec![a.clone(), strings("s", &[None, Some("x")])]).unwrap();
    assert_eq!(df.width(), 2);
    assert_eq!(df.height(), 2);
    assert_eq!(df.columns()[0], a);
    assert_eq!(df.find_idx_by_name("s"), Some(1));
    assert_eq!(df.find_idx_by_name("t"), None);
    let empty = DataFrame::new(vec![]).unwrap();
    assert_eq!((empty.width(), empty.height()), (0, 0));
}

#[test]
fn forward_fill_takes_the_last_value_before() {
    let cells = vec![None, Some(AnyValue::Int64(1)), None, None, Some(AnyValue::Int64(2)), None];
    let filled = forward_fill(&cells);
    let expected = vec![
        None,
        Some(AnyValue::Int64(1)),
        Some(AnyValue::Int64(1)),
        Some(AnyValue::Int64(1)),
        Some(AnyValue::Int64(2)),
        Some(AnyValue::Int64(2)),
    ];
    assert_eq!(filled, expected);
    assert_eq!(forward_fill(&vec![]), vec![]);
    assert_eq!(forward_fill(&vec![None, None]), vec![None, None]);
}

#[test]
fn fill_columns_of_a_frame() {
    let df = DataFrame::new(vec![ints("a", &[Some(1), None]), ints("b", &[Some(7), None])]).unwrap();
    let one = fill_column(&df, 1);
    assert_eq!(one, DataFrame::new(vec![ints("a", &[Some(1), None]), ints("b", &[Some(7), Some(7)])]).unwrap());
    let both = fill_by(df.clone(), &vec!["b".to_string(), "a".to_string()]).unwrap();
    assert_eq!(both, DataFrame::new(vec![ints("a", &[Some(1), Some(1)]), ints("b", &[Some(7), Some(7)])]).unwrap());
    assert_eq!(fill_by(df.clone(), &vec!["a".to_string(), "c".to_string()]), Err(FrameError::ColumnNotFound));
    assert_eq!(fill_by(df.clone(), &vec![]), Ok(df));
}

#[test]
fn groups_in_first_seen_order() {
    let df = DataFrame::new(vec![
        strings("k", &[Some("b"), Some("a"), Some("b"), None, Some("a"), None]),
        ints("n", &[Some(1), Some(1), Some(2), Some(1), Some(1), Some(1)]),
    ])
    .unwrap();
    assert_eq!(by_indices(&df, &vec!["n".to_string(), "k".to_string()]), Some(vec![1, 0]));
    assert_eq!(by_indices(&df, &vec!["n".to_string(), "z".to_string()]), None);
    assert_eq!(group_by_stable(&df, &vec![0]), vec![vec![0, 2], vec![1, 4], vec![3, 5]]);
    assert_eq!(group_by_stable(&df, &vec![0, 1]), vec![vec![0], vec![1, 4], vec![2], vec![3, 5]]);
    assert_eq!(group_by_stable(&df, &vec![]), vec![vec![0, 1, 2, 3, 4, 5]]);
    let mut any_order = group_by(&df, &vec![0]);
    any_order.sort();
    assert_eq!(any_order, vec![vec![0, 2], vec![1, 4], vec![3, 5]]);
    assert!(same_key(&df, &vec![0, 1], 1, 4));
    assert!(!same_key(&df, &vec![0, 1], 0, 2));
    let sub = take_rows(&df, &vec![4, 0]);
    assert_eq!(
        sub,
        DataFrame::new(vec![strings("k", &[Some("a"), Some("b")]), ints("n", &[Some(1), Some(1)])]).unwrap()
    );
}

#[test]
fn left_join_keeps_every_grid_point() {
    let source = DataFrame::new(vec![
        ints("n", &[Some(1), Some(2), Some(3), Some(4)]),
        times("t", &[Some(10), None, Some(30), Some(10)]),
    ])
    .unwrap();
    let cells = source.columns()[1].values();
    let index = TimeIndex::new(cells);
    assert_eq!(index.rows(cells, 10), vec![0, 3]);
    assert_eq!(index.rows(cells, 30), vec![2]);
    assert_eq!(index.rows(cells, 20), Vec::<usize>::new());
    let plan = plan_left_join(&vec![10, 20, 30], source.columns()[1].values());
    assert_eq!(plan, vec![(10, Some(0)), (10, Some(3)), (20, None), (30, Some(2))]);
    let out = left_join_on_time(&vec![10, 20, 30], &source, 1);
    let expected = DataFrame::new(vec![
        times("t", &[Some(10), Some(10), Some(20), Some(30)]),
        ints("n", &[Some(1), Some(4), None, Some(3)]),
    ])
    .unwrap();
    assert_eq!(out, expected);
    let none = left_join_on_time(&vec![], &source, 1);
    assert_eq!(none, DataFrame::new(vec![times("t", &[]), ints("n", &[])]).unwrap());
}

#[test]
fn stacking_frames() {
    let a = DataFrame::new(vec![ints("n", &[Some(1)]), strings("s", &[None])]).unwrap();
    let b = DataFrame::new(vec![ints("n", &[]), strings("s", &[])]).unwrap();
    let c = DataFrame::new(vec![ints("n", &[None, Some(3)]), strings("s", &[Some("x"), Some("y")])]).unwrap();
    let out = vstack(&vec![a.clone(), b, c]);
    let expected = DataFrame::new(vec![
        ints("n", &[Some(1), None, Some(3)]),
        strings("s", &[None, Some("x"), Some("y")]),
    ])
    .unwrap();
    assert_eq!(out, expected);
    assert_eq!(vstack(&vec![a.clone()]), a);
}

#[test]
fn sortedness_and_bounds_of_a_time_column() {
    let cells = |values: &[Option<i64>]| -> Vec<Option<AnyValue>> { values.iter().map(|v| v.map(AnyValue::Datetime)).collect() };
    assert!(check_time_sorted(&cells(&[None, Some(1), None, Some(1), Some(5)])));
    assert!(!check_time_sorted(&cells(&[Some(2), None, Some(1)])));
    assert!(check_time_sorted(&cells(&[])));
    assert!(check_time_sorted(&cells(&[None, None])));
    assert_eq!(first_time(&cells(&[None, Some(3), Some(4), None])), Some(3));
    assert_eq!(last_time(&cells(&[None, Some(3), Some(4), None])), Some(4));
    assert_eq!(first_time(&cells(&[None])), None);
    assert_eq!(last_time(&cells(&[])), None);
}

#[test]
fn dates_widen_and_narrow() {
    let df = DataFrame::new(vec![
        ints("n", &[Some(1), Some(2), Some(3)]),
        Series::new("d", DataType::Date, vec![Some(AnyValue::Date(-1)), None, Some(AnyValue::Date(2))]).unwrap(),
    ])
    .unwrap();
    let wide = widen_dates(&df, 1);
    let expected = DataFrame::new(vec![
        ints("n", &[Some(1), Some(2), Some(3)]),
        Series::new(
            "d",
            DataType::Datetime(TimeUnit::Milliseconds, None),
            vec![Some(AnyValue::Datetime(-86_400_000)), None, Some(AnyValue::Datetime(172_800_000))],
        )
        .unwrap(),
    ])
    .unwrap();
    assert_eq!(wide, expected);
    assert_eq!(narrow_to_dates(&wide, 1), Ok(df));
    let odd = DataFrame::new(vec![Series::new(
        "d",
        DataType::Datetime(TimeUnit::Milliseconds, None),
        vec![Some(AnyValue::Datetime(-1)), Some(AnyValue::Datetime(86_399_999))],
    )
    .unwrap()])
    .unwrap();
    let days = DataFrame::new(vec![Series::new(
        "d",
        DataType::Date,
        vec![Some(AnyValue::Date(-1)), Some(AnyValue::Date(0))],
    )
    .unwrap()])
    .unwrap();
    assert_eq!(narrow_to_dates(&odd, 0), Ok(days));
    let far = DataFrame::new(vec![Series::new(
        "d",
        DataType::Datetime(TimeUnit::Milliseconds, None),
        vec![Some(AnyValue::Datetime(i64::MAX))],
    )
    .unwrap()])
    .unwrap();
    assert_eq!(narrow_to_dates(&far, 0), Err(FrameError::DateOutOfRange));
}
