use chrono::NaiveDate;
use resample::datatypes::{AnyValue, DataType, TimeUnit};
use resample::date_range::datetime_range_i64;
use resample::duration::Duration;
use resample::error::FrameError;
use resample::frame::{DataFrame, Series};
use resample::upsample::{narrow_to_dates, widen_dates, PolarsUpsample};

fn ms(hour: u32, minute: u32) -> i64 {
    NaiveDate::from_ymd_opt(2021, 12, 16)
        .unwrap()
        .and_hms_opt(hour, minute, 0)
        .unwrap()
        .and_utc()
        .timestamp_millis()
}

fn datetime_ms(name: &str, values: &[Option<i64>]) -> Series {
    let cells = values.iter().map(|v| v.map(AnyValue::Datetime)).collect();
    Series::new(name, DataType::Datetime(TimeUnit::Milliseconds, None), cells).unwrap()
}

fn zoned_ms(name: &str, zone: &str, values: &[i64]) -> Series {
    let cells = values.iter().map(|v| Some(AnyValue::Datetime(*v))).collect();
    Series::new(name, DataType::Datetime(TimeUnit::Milliseconds, Some(zone.to_string())), cells).unwrap()
}

fn dates(name: &str, values: &[Option<i32>]) -> Series {
    let cells = values.iter().map(|v| v.map(AnyValue::Date)).collect();
    Series::new(name, DataType::Date, cells).unwrap()
}

fn strings(name: &str, values: &[Option<&str>]) -> Series {
    let cells = values.iter().map(|v| v.map(|s| AnyValue::Utf8(s.to_string()))).collect();
    Series::new(name, DataType::Utf8, cells).unwrap()
}

fn floats(name: &str, values: &[Option<f64>]) -> Series {
    let cells = values.iter().map(|v| v.map(|x| AnyValue::Float64(x.to_bits()))).collect();
    Series::new(name, DataType::Float64, cells).unwrap()
}

fn ints(name: &str, values: &[Option<i64>]) -> Series {
    let cells = values.iter().map(|v| v.map(AnyValue::Int64)).collect();
    Series::new(name, DataType::Int64, cells).unwrap()
}

fn frame(columns: Vec<Series>) -> DataFrame {
    DataFrame::new(columns).unwrap()
}

fn parse(text: &str) -> Duration {
    Duration::parse(text).unwrap()
}

#[test]
fn test_upsample_groupby() {
    let time = datetime_range_i64(ms(0, 0), ms(2, 0), parse("30m"), TimeUnit::Milliseconds).unwrap();
    let time: Vec<Option<i64>> = time.into_iter().map(Some).collect();
    let df = frame(vec![
        datetime_ms("time", &time),
        strings("groups", &[Some("a"), Some("a"), Some("b"), Some("b"), Some("b")]),
        floats("values", &[Some(1.0), Some(2.0), Some(3.0), Some(4.0), Some(5.0)]),
    ]);
    let out1 = df
        .clone()
        .upsample_stable(vec![String::from("groups")], "time", parse("15m"), parse("0"))
        .unwrap();
    let df = frame(vec![
        datetime_ms(
            "time",
            &[
                Some(ms(0, 0)),
                Some(ms(0, 15)),
                Some(ms(0, 30)),
                Some(ms(1, 0)),
                Some(ms(1, 15)),
                Some(ms(1, 30)),
                Some(ms(1, 45)),
                Some(ms(2, 0)),
            ],
        ),
        strings(
            "groups",
            &[Some("a"), Some("a"), Some("a"), Some("b"), Some("b"), Some("b"), Some("b"), Some("b")],
        ),
        floats(
            "values",
            &[Some(1.0), None, Some(2.0), Some(3.0), None, Some(4.0), None, Some(5.0)],
        ),
    ]);
    assert_eq!(df, out1)
}

#[test]
fn upsample_without_stable_order_gives_the_same_rows() {
    let df = frame(vec![
        datetime_ms("time", &[Some(ms(0, 0)), Some(ms(0, 30)), Some(ms(1, 0))]),
        strings("groups", &[Some("b"), Some("a"), Some("b")]),
    ]);
    let stable = df.upsample_stable(vec!["groups".to_string()], "time", parse("30m"), parse("0")).unwrap();
    let other = df.upsample(vec!["groups".to_string()], "time", parse("30m"), parse("0")).unwrap();
    assert_eq!(stable.height(), 4);
    assert_eq!(other.height(), 4);
    let expected = frame(vec![
        datetime_ms("time", &[Some(ms(0, 0)), Some(ms(0, 30)), Some(ms(1, 0)), Some(ms(0, 30))]),
        strings("groups", &[Some("b"), Some("b"), Some("b"), Some("a")]),
    ]);
    assert_eq!(stable, expected);
}

#[test]
fn upsample_single_group_fills_the_gaps_with_nulls() {
    let df = frame(vec![
        ints("n", &[Some(1), Some(2), Some(3)]),
        datetime_ms("time", &[Some(ms(0, 0)), Some(ms(0, 45)), Some(ms(1, 0))]),
    ]);
    let out = df.upsample(vec![], "time", parse("15m"), parse("0")).unwrap();
    let expected = frame(vec![
        datetime_ms(
            "time",
            &[Some(ms(0, 0)), Some(ms(0, 15)), Some(ms(0, 30)), Some(ms(0, 45)), Some(ms(1, 0))],
        ),
        ints("n", &[Some(1), None, None, Some(2), Some(3)]),
    ]);
    assert_eq!(out, expected);
}

#[test]
fn upsample_repeats_a_grid_point_for_each_matching_row() {
    let df = frame(vec![
        datetime_ms("time", &[Some(ms(0, 0)), Some(ms(0, 0)), None, Some(ms(0, 30))]),
        ints("n", &[Some(1), Some(2), Some(3), Some(4)]),
    ]);
    let out = df.upsample(vec![], "time", parse("15m"), parse("0")).unwrap();
    let expected = frame(vec![
        datetime_ms("time", &[Some(ms(0, 0)), Some(ms(0, 0)), Some(ms(0, 15)), Some(ms(0, 30))]),
        ints("n", &[Some(1), Some(2), None, Some(4)]),
    ]);
    assert_eq!(out, expected);
}

#[test]
fn upsample_grid_need_not_land_on_the_last_timestamp() {
    let df = frame(vec![
        datetime_ms("time", &[Some(ms(0, 0)), Some(ms(0, 50))]),
        ints("n", &[Some(1), Some(2)]),
    ]);
    let out = df.upsample(vec![], "time", parse("20m"), parse("0")).unwrap();
    let expected = frame(vec![
        datetime_ms("time", &[Some(ms(0, 0)), Some(ms(0, 20)), Some(ms(0, 40))]),
        ints("n", &[Some(1), None, None]),
    ]);
    assert_eq!(out, expected);
}

#[test]
fn upsample_offset_moves_the_start_of_the_grid() {
    let df = frame(vec![
        datetime_ms("time", &[Some(ms(0, 0)), Some(ms(0, 30)), Some(ms(1, 0))]),
        ints("n", &[Some(1), Some(2), Some(3)]),
    ]);
    let out = df.upsample(vec![], "time", parse("30m"), parse("15m")).unwrap();
    let expected = frame(vec![
        datetime_ms("time", &[Some(ms(0, 15)), Some(ms(0, 45))]),
        ints("n", &[None, None]),
    ]);
    assert_eq!(out, expected);
    let past = df.upsample(vec![], "time", parse("30m"), parse("2h")).unwrap();
    assert_eq!(past.height(), 0);
    assert_eq!(past.width(), 2);
}

#[test]
fn upsample_forward_fill_leaves_leading_rows_of_a_group_empty() {
    let df = frame(vec![
        datetime_ms("time", &[Some(ms(0, 0)), Some(ms(0, 30))]),
        strings("groups", &[Some("a"), Some("a")]),
    ]);
    let out = df.upsample_stable(vec!["groups".to_string()], "time", parse("30m"), parse("-30m")).unwrap();
    let before = ms(0, 0) - 30 * 60 * 1000;
    let expected = frame(vec![
        datetime_ms("time", &[Some(before), Some(ms(0, 0)), Some(ms(0, 30))]),
        strings("groups", &[None, Some("a"), Some("a")]),
    ]);
    assert_eq!(out, expected);
}

#[test]
fn upsample_groups_by_several_columns_in_first_seen_order() {
    let df = frame(vec![
        strings("k", &[Some("x"), Some("y"), Some("x"), None]),
        datetime_ms("time", &[Some(ms(0, 0)), Some(ms(0, 0)), Some(ms(0, 30)), Some(ms(1, 0))]),
        ints("g", &[Some(1), Some(1), Some(1), Some(1)]),
    ]);
    let out = df
        .upsample_stable(vec!["k".to_string(), "g".to_string()], "time", parse("15m"), parse("0"))
        .unwrap();
    let expected = frame(vec![
        datetime_ms(
            "time",
            &[Some(ms(0, 0)), Some(ms(0, 15)), Some(ms(0, 30)), Some(ms(0, 0)), Some(ms(1, 0))],
        ),
        strings("k", &[Some("x"), Some("x"), Some("x"), Some("y"), None]),
        ints("g", &[Some(1), Some(1), Some(1), Some(1), Some(1)]),
    ]);
    assert_eq!(out, expected);
}

#[test]
fn upsample_rejects_an_unsorted_time_column() {
    let df = frame(vec![
        datetime_ms("time", &[Some(ms(0, 30)), None, Some(ms(0, 0))]),
        strings("groups", &[Some("a"), Some("a"), Some("b")]),
    ]);
    assert_eq!(df.upsample(vec![], "time", parse("15m"), parse("0")), Err(FrameError::NotSorted));
    assert_eq!(
        df.upsample_stable(vec!["groups".to_string()], "time", parse("15m"), parse("0")),
        Err(FrameError::NotSorted)
    );
    let days = frame(vec![dates("time", &[Some(3), Some(2)])]);
    assert_eq!(days.upsample(vec![], "time", parse("1d"), parse("0")), Err(FrameError::NotSorted));
    let numbers = frame(vec![ints("time", &[Some(3), Some(2)])]);
    assert_eq!(numbers.upsample(vec![], "time", parse("1d"), parse("0")), Err(FrameError::NotSorted));
}

#[test]
fn upsample_rejects_other_types_of_time_column() {
    let df = frame(vec![ints("time", &[Some(1), Some(2)]), strings("s", &[Some("b"), Some("a")])]);
    assert_eq!(df.upsample(vec![], "time", parse("1d"), parse("0")), Err(FrameError::UnsupportedDtype));
    assert_eq!(df.upsample(vec![], "s", parse("1d"), parse("0")), Err(FrameError::UnsupportedDtype));
    assert_eq!(
        df.upsample(vec!["s".to_string()], "time", parse("1d"), parse("0")),
        Err(FrameError::UnsupportedDtype)
    );
}

#[test]
fn upsample_without_any_timestamp_has_no_boundaries() {
    let df = frame(vec![datetime_ms("time", &[None, None]), ints("n", &[Some(1), Some(2)])]);
    assert_eq!(df.upsample(vec![], "time", parse("1h"), parse("0")), Err(FrameError::NoBoundaries));
    let empty = frame(vec![datetime_ms("time", &[]), ints("n", &[])]);
    assert_eq!(empty.upsample(vec![], "time", parse("1h"), parse("0")), Err(FrameError::NoBoundaries));
    assert_eq!(
        empty.upsample_stable(vec!["n".to_string()], "time", parse("1h"), parse("0")),
        Err(FrameError::NoBoundaries)
    );
    let mixed = frame(vec![
        datetime_ms("time", &[Some(ms(0, 0)), None]),
        ints("n", &[Some(1), Some(2)]),
    ]);
    assert_eq!(
        mixed.upsample_stable(vec!["n".to_string()], "time", parse("1h"), parse("0")),
        Err(FrameError::NoBoundaries)
    );
}

#[test]
fn upsample_reports_missing_columns() {
    let df = frame(vec![datetime_ms("time", &[Some(ms(0, 0))])]);
    assert_eq!(df.upsample(vec![], "when", parse("1h"), parse("0")), Err(FrameError::ColumnNotFound));
    assert_eq!(
        df.upsample(vec!["groups".to_string()], "time", parse("1h"), parse("0")),
        Err(FrameError::ColumnNotFound)
    );
}

#[test]
fn upsample_rejects_a_step_that_does_not_move_forward() {
    let df = frame(vec![datetime_ms("time", &[Some(ms(0, 0)), Some(ms(1, 0))])]);
    assert_eq!(df.upsample(vec![], "time", parse("0"), parse("0")), Err(FrameError::InvalidInterval));
    assert_eq!(df.upsample(vec![], "time", parse("-1h"), parse("0")), Err(FrameError::InvalidInterval));
}

#[test]
fn upsample_reports_a_failed_duration_add() {
    let df = frame(vec![datetime_ms("time", &[Some(i64::MAX - 10), Some(i64::MAX - 5)])]);
    assert_eq!(df.upsample(vec![], "time", parse("1h"), parse("0")), Err(FrameError::DurationAdd));
    assert_eq!(df.upsample(vec![], "time", parse("1ms"), parse("1h")), Err(FrameError::DurationAdd));
}

#[test]
fn upsample_dates_round_trip() {
    let df = frame(vec![
        dates("day", &[Some(18_977), Some(18_980)]),
        ints("n", &[Some(1), Some(2)]),
    ]);
    let out = df.upsample(vec![], "day", parse("1d"), parse("0")).unwrap();
    let expected = frame(vec![
        dates("day", &[Some(18_977), Some(18_978), Some(18_979), Some(18_980)]),
        ints("n", &[Some(1), None, None, Some(2)]),
    ]);
    assert_eq!(out, expected);
    let day = 86_400_000i64;
    let wide = frame(vec![
        ints("n", &[Some(1), Some(2)]),
        datetime_ms("day", &[Some(18_977 * day), Some(18_980 * day)]),
    ]);
    let wide_out = wide.upsample(vec![], "day", parse("1d"), parse("0")).unwrap();
    let wide_expected = frame(vec![
        datetime_ms("day", &[Some(18_977 * day), Some(18_978 * day), Some(18_979 * day), Some(18_980 * day)]),
        ints("n", &[Some(1), None, None, Some(2)]),
    ]);
    assert_eq!(wide_out, wide_expected);
    let same = widen_dates(&df, 0).upsample(vec![], "day", parse("1d"), parse("0")).unwrap();
    assert_eq!(narrow_to_dates(&same, 0), Ok(out));
}

#[test]
fn upsample_dates_by_group_and_before_the_epoch() {
    let df = frame(vec![
        dates("day", &[Some(-3), Some(-1), Some(-1)]),
        strings("g", &[Some("a"), Some("a"), Some("b")]),
    ]);
    let out = df.upsample_stable(vec!["g".to_string()], "day", parse("1d"), parse("0")).unwrap();
    let expected = frame(vec![
        dates("day", &[Some(-3), Some(-2), Some(-1), Some(-1)]),
        strings("g", &[Some("a"), Some("a"), Some("a"), Some("b")]),
    ]);
    assert_eq!(out, expected);
    let half = df.upsample(vec![], "day", parse("12h"), parse("0")).unwrap();
    let expected = frame(vec![
        dates("day", &[Some(-3), Some(-3), Some(-2), Some(-2), Some(-1), Some(-1)]),
        strings("g", &[Some("a"), None, None, None, Some("a"), Some("b")]),
    ]);
    assert_eq!(half, expected);
}

#[test]
fn upsample_dates_that_leave_the_range_of_dates() {
    let df = frame(vec![dates("day", &[Some(i32::MIN), Some(i32::MIN + 1)])]);
    assert_eq!(df.upsample(vec![], "day", parse("1d"), parse("-1d")), Err(FrameError::DateOutOfRange));
}

#[test]
fn upsample_by_calendar_months() {
    let day = |y: i32, m: u32, d: u32| -> i32 {
        NaiveDate::from_ymd_opt(y, m, d).unwrap().signed_duration_since(NaiveDate::from_ymd_opt(1970, 1, 1).unwrap()).num_days() as i32
    };
    let df = frame(vec![dates("day", &[Some(day(2020, 1, 31)), Some(day(2020, 5, 1))])]);
    let out = df.upsample(vec![], "day", parse("1mo"), parse("0")).unwrap();
    let expected = frame(vec![dates(
        "day",
        &[Some(day(2020, 1, 31)), Some(day(2020, 2, 29)), Some(day(2020, 3, 29)), Some(day(2020, 4, 29))],
    )]);
    assert_eq!(out, expected);
}

#[test]
fn upsample_on_the_wall_clock_of_a_time_zone() {
    let utc = |d: u32, h: u32| -> i64 {
        NaiveDate::from_ymd_opt(2021, 3, d).unwrap().and_hms_opt(h, 0, 0).unwrap().and_utc().timestamp_millis()
    };
    let df = frame(vec![
        zoned_ms("time", "Europe/Amsterdam", &[utc(26, 23), utc(28, 22)]),
        ints("n", &[Some(1), Some(2)]),
    ]);
    let out = df.upsample(vec![], "time", parse("1d"), parse("0")).unwrap();
    let expected = frame(vec![
        zoned_ms("time", "Europe/Amsterdam", &[utc(26, 23), utc(27, 23), utc(28, 22)]),
        ints("n", &[Some(1), None, Some(2)]),
    ]);
    assert_eq!(out, expected);
}

#[test]
fn upsample_fails_on_wall_clock_times_that_are_not_one_instant() {
    let utc = |d: u32, h: u32, m: u32| -> i64 {
        NaiveDate::from_ymd_opt(2021, 3, d).unwrap().and_hms_opt(h, m, 0).unwrap().and_utc().timestamp_millis()
    };
    let df = frame(vec![zoned_ms("time", "Europe/Amsterdam", &[utc(27, 1, 30), utc(28, 3, 0)])]);
    assert_eq!(df.upsample(vec![], "time", parse("1d"), parse("0")), Err(FrameError::TimeZone));
    let unknown = frame(vec![zoned_ms("time", "Mars/Olympus", &[utc(27, 1, 30), utc(28, 3, 0)])]);
    assert_eq!(unknown.upsample(vec![], "time", parse("1d"), parse("0")), Err(FrameError::TimeZone));
}
