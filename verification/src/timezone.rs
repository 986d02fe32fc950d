//! Between instants and wall-clock times: calendar arithmetic on a column
//! with a time zone runs on the wall clock of that zone.

use crate::calendar::{zone_local_to_utc, zone_offset_at, zone_offset_seconds, zone_utc_of_local};
use crate::datatypes::TimeUnit;
use crate::error::FrameError;
use vstd::prelude::*;

verus! {

/// The wall-clock time that the named zone shows at the instant `t`: the
/// instant moved by the zone's offset at that instant.
pub open spec fn spec_unlocalize(t: i64, unit: TimeUnit, zone: Seq<char>) -> Option<i64> {
    let secs = t as int / unit.spec_per_second();
    match zone_offset_at(zone, secs as i64) {
        None => None,
        Some(offset) => {
            let local = t + offset * unit.spec_per_second();
            if i64::MIN <= local <= i64::MAX {
                Some(local as i64)
            } else {
                None
            }
        },
    }
}

/// The one instant at which the named zone shows the wall-clock time `t`.
/// The part of `t` below a second passes through as it is.
pub open spec fn spec_localize(t: i64, unit: TimeUnit, zone: Seq<char>) -> Option<i64> {
    let secs = t as int / unit.spec_per_second();
    let rest = t as int % unit.spec_per_second();
    match zone_utc_of_local(zone, secs as i64) {
        None => None,
        Some(utc) => {
            let instant = utc * unit.spec_per_second() + rest;
            if i64::MIN <= instant <= i64::MAX {
                Some(instant as i64)
            } else {
                None
            }
        },
    }
}

fn whole_seconds(t: i64, unit: TimeUnit) -> (r: (i64, i64))
    ensures
        r.0 == t as int / unit.spec_per_second(),
        r.1 == t as int % unit.spec_per_second(),
{
    match unit {
        TimeUnit::Nanoseconds => {
            let q = t.checked_div_euclid(1_000_000_000i64);
            let m = t.checked_rem_euclid(1_000_000_000i64);
            match (q, m) {
                (Some(q), Some(m)) => (q, m),
                _ => {
                    assert(false);
                    (0, 0)
                },
            }
        },
        TimeUnit::Microseconds => {
            let q = t.checked_div_euclid(1_000_000i64);
            let m = t.checked_rem_euclid(1_000_000i64);
            match (q, m) {
                (Some(q), Some(m)) => (q, m),
                _ => {
                    assert(false);
                    (0, 0)
                },
            }
        },
        TimeUnit::Milliseconds => {
            let q = t.checked_div_euclid(1_000i64);
            let m = t.checked_rem_euclid(1_000i64);
            match (q, m) {
                (Some(q), Some(m)) => (q, m),
                _ => {
                    assert(false);
                    (0, 0)
                },
            }
        },
    }
}

fn seconds_in_ticks(secs: i64, unit: TimeUnit) -> (r: i128)
    ensures
        r == secs * unit.spec_per_second(),
        -0x8000_0000_0000_0000 * 1_000_000_000 <= r <= 0x8000_0000_0000_0000 * 1_000_000_000,
{
    match unit {
        TimeUnit::Nanoseconds => (secs as i128) * 1_000_000_000i128,
        TimeUnit::Microseconds => (secs as i128) * 1_000_000i128,
        TimeUnit::Milliseconds => (secs as i128) * 1_000i128,
    }
}

/// Turns an instant of a column with a time zone into the wall-clock time
/// that the zone shows at it.
pub fn unlocalize_timestamp(t: i64, unit: TimeUnit, zone: &str) -> (r: Result<i64, FrameError>)
    ensures
        r == match spec_unlocalize(t, unit, zone@) {
            Some(v) => Ok::<i64, FrameError>(v),
            None => Err(FrameError::TimeZone),
        },
{
    let (secs, _rest) = whole_seconds(t, unit);
    match zone_offset_seconds(zone, secs) {
        None => Err(FrameError::TimeZone),
        Some(offset) => {
            let local: i128 = (t as i128) + seconds_in_ticks(offset as i64, unit);
            if local < i64::MIN as i128 || local > i64::MAX as i128 {
                Err(FrameError::TimeZone)
            } else {
                Ok(local as i64)
            }
        },
    }
}

/// Turns a wall-clock time back into the instant at which the zone shows
/// it. Fails where the zone's clock skips that time or shows it twice.
pub fn localize_timestamp(t: i64, unit: TimeUnit, zone: &str) -> (r: Result<i64, FrameError>)
    ensures
        r == match spec_localize(t, unit, zone@) {
            Some(v) => Ok::<i64, FrameError>(v),
            None => Err(FrameError::TimeZone),
        },
{
    let (secs, rest) = whole_seconds(t, unit);
    match zone_local_to_utc(zone, secs) {
        None => Err(FrameError::TimeZone),
        Some(utc) => {
            let instant: i128 = seconds_in_ticks(utc, unit) + (rest as i128);
            if instant < i64::MIN as i128 || instant > i64::MAX as i128 {
                Err(FrameError::TimeZone)
            } else {
                Ok(instant as i64)
            }
        },
    }
}

} // verus!
