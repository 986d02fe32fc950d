//! What the library takes from the calendar and from the time zone database:
//! month arithmetic on days, and the offsets of named zones.

use chrono::{DateTime, Months, NaiveDate, Offset, TimeZone};
use chrono_tz::Tz;
use std::str::FromStr;
use vstd::prelude::*;

verus! {

/// The day, counted from the first of January 1970, that lies `months`
/// calendar months after the day `day`, on the last day of its month where
/// that month is too short. None where a day lies outside the calendar.
pub uninterp spec fn epoch_day_plus_months(day: i32, months: u32) -> Option<i32>;

/// The day, counted from the first of January 1970, that lies `months`
/// calendar months before the day `day`, on the last day of its month where
/// that month is too short. None where a day lies outside the calendar.
pub uninterp spec fn epoch_day_minus_months(day: i32, months: u32) -> Option<i32>;

/// The seconds by which the wall clock of the named zone is ahead of UTC at
/// the instant `utc_secs` seconds after the start of 1970. None where the
/// zone is not known or the instant lies outside the calendar.
pub uninterp spec fn zone_offset_at(zone: Seq<char>, utc_secs: i64) -> Option<i32>;

/// The instant, in seconds after the start of 1970 in UTC, at which the wall
/// clock of the named zone shows `local_secs`. None where the zone is not
/// known, where its clock never shows that time or shows it twice, or where
/// the time lies outside the calendar.
pub uninterp spec fn zone_utc_of_local(zone: Seq<char>, local_secs: i64) -> Option<i64>;

/// Moves a day forward by calendar months with chrono's
/// `NaiveDate::checked_add_months`, between `NaiveDate::from_epoch_days` and
/// `NaiveDate::to_epoch_days`. Trusted: the result is the day named
/// `epoch_day_plus_months`.
#[verifier::external_body]
pub(crate) fn add_months_to_epoch_day(day: i32, months: u32) -> (r: Option<i32>)
    ensures
        r == epoch_day_plus_months(day, months),
{
    let date = NaiveDate::from_epoch_days(day)?;
    let moved = date.checked_add_months(Months::new(months))?;
    Some(moved.to_epoch_days())
}

/// Moves a day back by calendar months with chrono's
/// `NaiveDate::checked_sub_months`, between `NaiveDate::from_epoch_days` and
/// `NaiveDate::to_epoch_days`. Trusted: the result is the day named
/// `epoch_day_minus_months`.
#[verifier::external_body]
pub(crate) fn sub_months_from_epoch_day(day: i32, months: u32) -> (r: Option<i32>)
    ensures
        r == epoch_day_minus_months(day, months),
{
    let date = NaiveDate::from_epoch_days(day)?;
    let moved = date.checked_sub_months(Months::new(months))?;
    Some(moved.to_epoch_days())
}

/// Looks the zone up with `Tz::from_str` of chrono-tz and asks it, with
/// `TimeZone::offset_from_utc_datetime`, for its offset at an instant made
/// by chrono's `DateTime::from_timestamp`. Trusted: the result is the offset
/// named `zone_offset_at`.
#[verifier::external_body]
pub(crate) fn zone_offset_seconds(zone: &str, utc_secs: i64) -> (r: Option<i32>)
    ensures
        r == zone_offset_at(zone@, utc_secs),
{
    let tz = Tz::from_str(zone).ok()?;
    let utc = DateTime::from_timestamp(utc_secs, 0)?.naive_utc();
    Some(tz.offset_from_utc_datetime(&utc).fix().local_minus_utc())
}

/// Looks the zone up with `Tz::from_str` of chrono-tz and asks it, with
/// `TimeZone::from_local_datetime`, for the one instant at which its clock
/// shows a wall-clock time made by chrono's `DateTime::from_timestamp`.
/// Trusted: the result is the instant named `zone_utc_of_local`.
#[verifier::external_body]
pub(crate) fn zone_local_to_utc(zone: &str, local_secs: i64) -> (r: Option<i64>)
    ensures
        r == zone_utc_of_local(zone@, local_secs),
{
    let tz = Tz::from_str(zone).ok()?;
    let local = DateTime::from_timestamp(local_secs, 0)?.naive_utc();
    tz.from_local_datetime(&local).single().map(|instant| instant.timestamp())
}

} // verus!
