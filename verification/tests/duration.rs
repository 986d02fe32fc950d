use resample::datatypes::TimeUnit;
use resample::date_range::datetime_range_i64;
use resample::duration::Duration;
use resample::error::FrameError;
use resample::timezone::{localize_timestamp, unlocalize_timestamp};

fn span(months: u64, weeks: u64, days: u64, nsecs: u64, negative: bool, parsed_int: bool) -> Duration {
    Duration { months, weeks, days, nsecs, negative, parsed_int }
}

#[test]
fn duration_parse_reads_every_unit() {
    assert_eq!(Duration::parse("1ns"), Some(span(0, 0, 0, 1, false, false)));
    assert_eq!(Duration::parse("2us"), Some(span(0, 0, 0, 2_000, false, false)));
    assert_eq!(Duration::parse("3ms"), Some(span(0, 0, 0, 3_000_000, false, false)));
    assert_eq!(Duration::parse("4s"), Some(span(0, 0, 0, 4_000_000_000, false, false)));
    assert_eq!(Duration::parse("5m"), Some(span(0, 0, 0, 300_000_000_000, false, false)));
    assert_eq!(Duration::parse("6h"), Some(span(0, 0, 0, 21_600_000_000_000, false, false)));
    assert_eq!(Duration::parse("7d"), Some(span(0, 0, 7, 0, false, false)));
    assert_eq!(Duration::parse("8w"), Some(span(0, 8, 0, 0, false, false)));
    assert_eq!(Duration::parse("9mo"), Some(span(9, 0, 0, 0, false, false)));
    assert_eq!(Duration::parse("2q"), Some(span(6, 0, 0, 0, false, false)));
    assert_eq!(Duration::parse("3y"), Some(span(36, 0, 0, 0, false, false)));
    assert_eq!(Duration::parse("10i"), Some(span(0, 0, 0, 10, false, true)));
}

#[test]
fn duration_parse_combines_units() {
    let nsecs = (12 * 3600 + 4 * 60 + 25) * 1_000_000_000u64;
    assert_eq!(Duration::parse("3d12h4m25s"), Some(span(0, 0, 3, nsecs, false, false)));
    assert_eq!(Duration::parse("-1y2mo1w"), Some(span(14, 1, 0, 0, true, false)));
    assert_eq!(Duration::parse("1h1h"), Some(span(0, 0, 0, 7_200_000_000_000, false, false)));
}

#[test]
fn duration_parse_edges() {
    assert_eq!(Duration::parse("0"), Some(span(0, 0, 0, 0, false, false)));
    assert_eq!(Duration::parse(""), Some(span(0, 0, 0, 0, false, false)));
    assert_eq!(Duration::parse("-"), Some(span(0, 0, 0, 0, true, false)));
    assert_eq!(Duration::parse("1d7"), Some(span(0, 0, 1, 0, false, false)));
    assert_eq!(Duration::parse("d"), None);
    assert_eq!(Duration::parse("1x"), None);
    assert_eq!(Duration::parse("1 d"), None);
    assert_eq!(Duration::parse("1d-1h"), None);
    assert_eq!(Duration::parse("--1d"), None);
    assert_eq!(Duration::parse("1mos"), None);
    assert_eq!(Duration::parse("99999999999999999999d"), None);
    assert_eq!(Duration::parse("18446744073709551615ns1ns"), None);
    assert_eq!(Duration::parse("7000000000h"), None);
}

#[test]
fn duration_new_keeps_size_and_direction() {
    assert_eq!(Duration::new(5), span(0, 0, 0, 5, false, true));
    assert_eq!(Duration::new(-5), span(0, 0, 0, 5, true, true));
    assert_eq!(Duration::new(i64::MIN), span(0, 0, 0, 1 << 63, true, true));
    assert!(Duration::new(0).is_zero());
    assert!(!Duration::new(1).is_zero());
}

#[test]
fn duration_add_fixed_parts_in_each_unit() {
    let d = Duration::parse("1w2d3h4us5000ns").unwrap();
    let day_ns = 86_400_000_000_000i64;
    assert_eq!(d.add_ns(10), Ok(10 + 9 * day_ns + 3 * 3_600_000_000_000 + 4_000 + 5_000));
    assert_eq!(d.add_us(10), Ok(10 + 9 * day_ns / 1_000 + 3 * 3_600_000_000 + 9));
    assert_eq!(d.add_ms(10), Ok(10 + 9 * day_ns / 1_000_000 + 3 * 3_600_000));
    let back = Duration::parse("-1d1500us").unwrap();
    assert_eq!(back.add_ms(0), Ok(-86_400_001));
    assert_eq!(back.add(TimeUnit::Microseconds, -7), Ok(-7 - 86_400_000_000 - 1_500));
}

#[test]
fn duration_add_calendar_months() {
    let day = 86_400_000i64;
    // 2020-01-31 12:00 is day 18292
    let start = 18_292 * day + 12 * 3_600_000;
    assert_eq!(Duration::parse("1mo").unwrap().add_ms(start), Ok(18_321 * day + 12 * 3_600_000));
    assert_eq!(Duration::parse("1mo1d").unwrap().add_ms(start), Ok(18_322 * day + 12 * 3_600_000));
    assert_eq!(Duration::parse("-2mo").unwrap().add_ms(start), Ok(18_230 * day + 12 * 3_600_000));
    assert_eq!(Duration::parse("1y").unwrap().add_ms(start), Ok(18_658 * day + 12 * 3_600_000));
    // one second before the epoch lies in the last day of 1969
    assert_eq!(Duration::parse("1mo").unwrap().add_ms(-1_000), Ok(31 * day - 1_000));
    assert_eq!(Duration::parse("1mo").unwrap().add_ns(-1), Ok(31 * day * 1_000_000 - 1));
}

#[test]
fn duration_add_fails_outside_the_range() {
    assert_eq!(Duration::parse("1ns").unwrap().add_ns(i64::MAX), Err(FrameError::DurationAdd));
    assert_eq!(Duration::parse("-1ns").unwrap().add_ns(i64::MIN), Err(FrameError::DurationAdd));
    assert_eq!(Duration::parse("1mo").unwrap().add_ms(i64::MAX), Err(FrameError::DurationAdd));
    assert_eq!(Duration::parse("4000000000000mo").unwrap().add_ms(0), Err(FrameError::DurationAdd));
    assert_eq!(Duration::parse("3200000y").unwrap().add_ms(0), Err(FrameError::DurationAdd));
    let wide = span(0, u64::MAX, u64::MAX, u64::MAX, false, false);
    assert_eq!(wide.add_ns(0), Err(FrameError::DurationAdd));
    assert_eq!(Duration::parse("-1ns").unwrap().add_ns(i64::MAX), Ok(i64::MAX - 1));
}

#[test]
fn grid_covers_the_range_in_equal_steps() {
    let every = Duration::parse("15m").unwrap();
    let step = 15 * 60 * 1000;
    let grid = datetime_range_i64(1_000, 1_000 + 4 * step + 7, every, TimeUnit::Milliseconds).unwrap();
    assert_eq!(grid, vec![1_000, 1_000 + step, 1_000 + 2 * step, 1_000 + 3 * step, 1_000 + 4 * step]);
    for pair in grid.windows(2) {
        assert_eq!(every.add_ms(pair[0]), Ok(pair[1]));
    }
    assert!(every.add_ms(*grid.last().unwrap()).unwrap() > 1_000 + 4 * step + 7);
    let exact = datetime_range_i64(0, 2 * step, every, TimeUnit::Milliseconds).unwrap();
    assert_eq!(exact, vec![0, step, 2 * step]);
    let one = datetime_range_i64(5, 5, every, TimeUnit::Milliseconds).unwrap();
    assert_eq!(one, vec![5]);
    let none = datetime_range_i64(6, 5, every, TimeUnit::Milliseconds).unwrap();
    assert_eq!(none, Vec::<i64>::new());
}

#[test]
fn grid_fails_where_it_cannot_step() {
    let zero = Duration::parse("0").unwrap();
    assert_eq!(datetime_range_i64(0, 1, zero, TimeUnit::Nanoseconds), Err(FrameError::InvalidInterval));
    assert_eq!(datetime_range_i64(2, 1, zero, TimeUnit::Nanoseconds), Ok(vec![]));
    let back = Duration::parse("-1s").unwrap();
    assert_eq!(datetime_range_i64(0, 1, back, TimeUnit::Nanoseconds), Err(FrameError::InvalidInterval));
    let hour = Duration::parse("1h").unwrap();
    assert_eq!(
        datetime_range_i64(i64::MAX - 1, i64::MAX, hour, TimeUnit::Nanoseconds),
        Err(FrameError::DurationAdd)
    );
    let small = Duration::parse("1ns").unwrap();
    assert_eq!(datetime_range_i64(0, 1, small, TimeUnit::Milliseconds), Err(FrameError::InvalidInterval));
}

#[test]
fn wall_clock_of_a_zone() {
    // 2021-07-01 00:00 UTC is 02:00 in Amsterdam; 2021-01-01 00:00 UTC is 01:00.
    let summer = 1_625_097_600i64;
    let winter = 1_609_459_200i64;
    assert_eq!(unlocalize_timestamp(summer * 1_000, TimeUnit::Milliseconds, "Europe/Amsterdam"), Ok((summer + 7_200) * 1_000));
    assert_eq!(unlocalize_timestamp(winter * 1_000_000 + 5, TimeUnit::Microseconds, "Europe/Amsterdam"), Ok((winter + 3_600) * 1_000_000 + 5));
    assert_eq!(unlocalize_timestamp(winter * 1_000_000_000 - 1, TimeUnit::Nanoseconds, "America/New_York"), Ok((winter - 18_000) * 1_000_000_000 - 1));
    assert_eq!(unlocalize_timestamp(winter, TimeUnit::Milliseconds, "UTC"), Ok(winter));
    assert_eq!(unlocalize_timestamp(winter, TimeUnit::Milliseconds, "Nowhere/Land"), Err(FrameError::TimeZone));
    assert_eq!(unlocalize_timestamp(i64::MAX, TimeUnit::Milliseconds, "Europe/Amsterdam"), Err(FrameError::TimeZone));
    assert_eq!(localize_timestamp((summer + 7_200) * 1_000 + 3, TimeUnit::Milliseconds, "Europe/Amsterdam"), Ok(summer * 1_000 + 3));
    assert_eq!(localize_timestamp(winter * 1_000_000_000, TimeUnit::Nanoseconds, "America/New_York"), Ok((winter + 18_000) * 1_000_000_000));
    assert_eq!(localize_timestamp(0, TimeUnit::Milliseconds, "Nowhere/Land"), Err(FrameError::TimeZone));
    // 2021-03-28 02:30 does not exist in Amsterdam, 2021-10-31 02:30 exists twice
    assert_eq!(localize_timestamp(1_616_898_600 * 1_000, TimeUnit::Milliseconds, "Europe/Amsterdam"), Err(FrameError::TimeZone));
    assert_eq!(localize_timestamp(1_635_647_400 * 1_000, TimeUnit::Milliseconds, "Europe/Amsterdam"), Err(FrameError::TimeZone));
}

#[test]
fn error_messages() {
    assert_eq!(
        FrameError::NoBoundaries.message(),
        "cannot determine upsample boundaries: all elements are null"
    );
    assert_eq!(FrameError::InvalidInterval.message(), "interval must be positive");
    assert_ne!(FrameError::NotSorted.message(), FrameError::UnsupportedDtype.message());
}
