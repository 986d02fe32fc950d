//! Calendar-aware durations: a number of calendar months, weeks and days and
//! a fixed number of nanoseconds, added to a timestamp as a whole.

use crate::calendar::{
    add_months_to_epoch_day, epoch_day_minus_months, epoch_day_plus_months,
    sub_months_from_epoch_day,
};
use crate::datatypes::TimeUnit;
use crate::error::FrameError;
use vstd::prelude::*;
use vstd::string::StrSliceExecFns;

verus! {

/// A span of time. The calendar months move a date to the same day of
/// another month; weeks and days count seven and one days of twenty-four
/// hours. With `negative` the whole span points back in time.
#[derive(Clone, Copy, Debug, PartialEq, Eq, Structural)]
pub struct Duration {
    pub months: u64,
    pub weeks: u64,
    pub days: u64,
    pub nsecs: u64,
    pub negative: bool,
    /// The span was given as a count of rows, read as nanoseconds.
    pub parsed_int: bool,
}

/// Nanoseconds in one tick of the unit.
pub open spec fn spec_ns_per_tick(unit: TimeUnit) -> int {
    match unit {
        TimeUnit::Nanoseconds => 1,
        TimeUnit::Microseconds => 1_000,
        TimeUnit::Milliseconds => 1_000_000,
    }
}

fn days_in_ticks(days: u64, unit: TimeUnit) -> (r: u128)
    ensures
        r == days * unit.spec_per_day(),
        r <= 0xFFFF_FFFF_FFFF_FFFF * 86_400_000_000_000,
{
    match unit {
        TimeUnit::Nanoseconds => (days as u128) * 86_400_000_000_000u128,
        TimeUnit::Microseconds => (days as u128) * 86_400_000_000u128,
        TimeUnit::Milliseconds => (days as u128) * 86_400_000u128,
    }
}

fn nanoseconds_in_ticks(nsecs: u64, unit: TimeUnit) -> (r: u128)
    ensures
        r == nsecs as int / spec_ns_per_tick(unit),
        r <= u64::MAX,
{
    match unit {
        TimeUnit::Nanoseconds => nsecs as u128,
        TimeUnit::Microseconds => (nsecs / 1_000u64) as u128,
        TimeUnit::Milliseconds => (nsecs / 1_000_000u64) as u128,
    }
}

impl Duration {
    /// A span of the given number of nanoseconds, back in time where the
    /// number is negative.
    pub fn new(fixed_slots: i64) -> (r: Duration)
        ensures
            r == (Duration {
                months: 0,
                weeks: 0,
                days: 0,
                nsecs: (if fixed_slots < 0 {
                    -fixed_slots
                } else {
                    fixed_slots as int
                }) as u64,
                negative: fixed_slots < 0,
                parsed_int: true,
            }),
    {
        let nsecs: u64 = if fixed_slots < 0 {
            (-(fixed_slots as i128)) as u64
        } else {
            fixed_slots as u64
        };
        Duration {
            months: 0,
            weeks: 0,
            days: 0,
            nsecs,
            negative: fixed_slots < 0,
            parsed_int: true,
        }
    }

    /// The span is empty.
    pub open spec fn spec_is_zero(self) -> bool {
        self.months == 0 && self.weeks == 0 && self.days == 0 && self.nsecs == 0
    }

    /// Whether the span is empty.
    pub fn is_zero(&self) -> (r: bool)
        ensures
            r == self.spec_is_zero(),
    {
        self.months == 0 && self.weeks == 0 && self.days == 0 && self.nsecs == 0
    }

    /// The ticks that the weeks, days and nanoseconds of the span make up,
    /// without its direction.
    pub open spec fn spec_fixed_ticks(self, unit: TimeUnit) -> int {
        self.weeks * 7 * unit.spec_per_day() + self.days * unit.spec_per_day() + self.nsecs as int
            / spec_ns_per_tick(unit)
    }

    /// The timestamp `t` moved by the calendar months of the span: the date
    /// moves, the time of day stays.
    pub open spec fn spec_add_months(self, unit: TimeUnit, t: i64) -> Option<i64> {
        if self.months == 0 {
            Some(t)
        } else {
            let day = t as int / unit.spec_per_day();
            let rest = t as int % unit.spec_per_day();
            if day < i32::MIN || day > i32::MAX || self.months > u32::MAX {
                None
            } else {
                let moved = if self.negative {
                    epoch_day_minus_months(day as i32, self.months as u32)
                } else {
                    epoch_day_plus_months(day as i32, self.months as u32)
                };
                match moved {
                    None => None,
                    Some(d) => {
                        let r = d * unit.spec_per_day() + rest;
                        if i64::MIN <= r <= i64::MAX {
                            Some(r as i64)
                        } else {
                            None
                        }
                    },
                }
            }
        }
    }

    /// The timestamp `t` moved by the span: first by its calendar months,
    /// then by its weeks, days and nanoseconds. None where a timestamp or a
    /// date on the way cannot be represented.
    pub open spec fn spec_add(self, unit: TimeUnit, t: i64) -> Option<i64> {
        match self.spec_add_months(unit, t) {
            None => None,
            Some(m) => {
                let r = if self.negative {
                    m - self.spec_fixed_ticks(unit)
                } else {
                    m + self.spec_fixed_ticks(unit)
                };
                if i64::MIN <= r <= i64::MAX {
                    Some(r as i64)
                } else {
                    None
                }
            },
        }
    }

    fn add_months(&self, unit: TimeUnit, t: i64) -> (r: Option<i64>)
        ensures
            r == self.spec_add_months(unit, t),
    {
        if self.months == 0 {
            return Some(t);
        }
        let per_day: i64 = unit.per_day();
        assert(per_day == 86_400_000_000_000 || per_day == 86_400_000_000 || per_day
            == 86_400_000);
        let day: i64 = match t.checked_div_euclid(per_day) {
            Some(d) => d,
            None => {
                assert(false);
                return None;
            },
        };
        let rest: i64 = match t.checked_rem_euclid(per_day) {
            Some(d) => d,
            None => {
                assert(false);
                return None;
            },
        };
        if day < i32::MIN as i64 || day > i32::MAX as i64 || self.months > u32::MAX as u64 {
            return None;
        }
        let moved = if self.negative {
            sub_months_from_epoch_day(day as i32, self.months as u32)
        } else {
            add_months_to_epoch_day(day as i32, self.months as u32)
        };
        match moved {
            None => None,
            Some(d) => {
                let total: i128 = (d as i128) * (per_day as i128) + (rest as i128);
                if total < i64::MIN as i128 || total > i64::MAX as i128 {
                    None
                } else {
                    Some(total as i64)
                }
            },
        }
    }

    /// Adds the span to a timestamp of the given unit.
    pub fn add(&self, unit: TimeUnit, t: i64) -> (r: Result<i64, FrameError>)
        ensures
            r == match self.spec_add(unit, t) {
                Some(v) => Ok::<i64, FrameError>(v),
                None => Err(FrameError::DurationAdd),
            },
    {
        let moved: i64 = match self.add_months(unit, t) {
            Some(m) => m,
            None => {
                return Err(FrameError::DurationAdd);
            },
        };
        let fixed: u128 = days_in_ticks(self.weeks, unit) * 7u128 + days_in_ticks(self.days, unit)
            + nanoseconds_in_ticks(self.nsecs, unit);
        assert(fixed == self.spec_fixed_ticks(unit)) by (nonlinear_arith)
            requires
                fixed == (self.weeks * unit.spec_per_day()) * 7 + self.days * unit.spec_per_day()
                    + self.nsecs as int / spec_ns_per_tick(unit),
                self.spec_fixed_ticks(unit) == self.weeks * 7 * unit.spec_per_day() + self.days
                    * unit.spec_per_day() + self.nsecs as int / spec_ns_per_tick(unit),
        ;
        let total: i128 = if self.negative {
            (moved as i128) - (fixed as i128)
        } else {
            (moved as i128) + (fixed as i128)
        };
        if total < i64::MIN as i128 || total > i64::MAX as i128 {
            Err(FrameError::DurationAdd)
        } else {
            Ok(total as i64)
        }
    }

    /// Adds the span to a timestamp in nanoseconds.
    pub fn add_ns(&self, t: i64) -> (r: Result<i64, FrameError>)
        ensures
            r == match self.spec_add(TimeUnit::Nanoseconds, t) {
                Some(v) => Ok::<i64, FrameError>(v),
                None => Err(FrameError::DurationAdd),
            },
    {
        self.add(TimeUnit::Nanoseconds, t)
    }

    /// Adds the span to a timestamp in microseconds.
    pub fn add_us(&self, t: i64) -> (r: Result<i64, FrameError>)
        ensures
            r == match self.spec_add(TimeUnit::Microseconds, t) {
                Some(v) => Ok::<i64, FrameError>(v),
                None => Err(FrameError::DurationAdd),
            },
    {
        self.add(TimeUnit::Microseconds, t)
    }

    /// Adds the span to a timestamp in milliseconds.
    pub fn add_ms(&self, t: i64) -> (r: Result<i64, FrameError>)
        ensures
            r == match self.spec_add(TimeUnit::Milliseconds, t) {
                Some(v) => Ok::<i64, FrameError>(v),
                None => Err(FrameError::DurationAdd),
            },
    {
        self.add(TimeUnit::Milliseconds, t)
    }
}

/// The character is one of the ten digits.
pub open spec fn is_digit(c: char) -> bool {
    48 <= c as u32 && c as u32 <= 57
}

/// The character is one of the letters `a` to `z` or `A` to `Z`.
pub open spec fn is_letter(c: char) -> bool {
    (65 <= c as u32 && c as u32 <= 90) || (97 <= c as u32 && c as u32 <= 122)
}

/// Where the digits that begin at `pos` end.
pub open spec fn digits_end(s: Seq<char>, pos: int) -> int
    decreases s.len() - pos,
{
    if 0 <= pos < s.len() && is_digit(s[pos]) {
        digits_end(s, pos + 1)
    } else {
        pos
    }
}

/// Where the letters that begin at `pos` end.
pub open spec fn letters_end(s: Seq<char>, pos: int) -> int
    decreases s.len() - pos,
{
    if 0 <= pos < s.len() && is_letter(s[pos]) {
        letters_end(s, pos + 1)
    } else {
        pos
    }
}

/// The number that the digits from `from` up to `to` write.
pub open spec fn digits_value(s: Seq<char>, from: int, to: int) -> int
    decreases to - from,
{
    if from >= to {
        0
    } else {
        digits_value(s, from, to - 1) * 10 + if is_digit(s[to - 1]) {
            s[to - 1] as u32 - 48
        } else {
            0
        }
    }
}

/// The span with `n` more nanoseconds.
pub open spec fn with_nanoseconds(acc: Duration, n: int, index: bool) -> Option<Duration> {
    if acc.nsecs + n <= u64::MAX {
        Some(
            Duration {
                months: acc.months,
                weeks: acc.weeks,
                days: acc.days,
                nsecs: (acc.nsecs + n) as u64,
                negative: acc.negative,
                parsed_int: acc.parsed_int || index,
            },
        )
    } else {
        None
    }
}

/// The span with `n` more days.
pub open spec fn with_days(acc: Duration, n: int) -> Option<Duration> {
    if acc.days + n <= u64::MAX {
        Some(
            Duration {
                months: acc.months,
                weeks: acc.weeks,
                days: (acc.days + n) as u64,
                nsecs: acc.nsecs,
                negative: acc.negative,
                parsed_int: acc.parsed_int,
            },
        )
    } else {
        None
    }
}

/// The span with `n` more weeks.
pub open spec fn with_weeks(acc: Duration, n: int) -> Option<Duration> {
    if acc.weeks + n <= u64::MAX {
        Some(
            Duration {
                months: acc.months,
                weeks: (acc.weeks + n) as u64,
                days: acc.days,
                nsecs: acc.nsecs,
                negative: acc.negative,
                parsed_int: acc.parsed_int,
            },
        )
    } else {
        None
    }
}

/// The span with `n` more calendar months.
pub open spec fn with_months(acc: Duration, n: int) -> Option<Duration> {
    if acc.months + n <= u64::MAX {
        Some(
            Duration {
                months: (acc.months + n) as u64,
                weeks: acc.weeks,
                days: acc.days,
                nsecs: acc.nsecs,
                negative: acc.negative,
                parsed_int: acc.parsed_int,
            },
        )
    } else {
        None
    }
}

/// The span with `n` units of the given name added: `ns`, `us`, `ms`, `s`,
/// `m` and `h` are fixed lengths of time; `d`, `w`, `mo`, `q` and `y` are
/// calendar days, weeks, months, quarters and years; `i` counts rows, read
/// as nanoseconds. None for any other name.
pub open spec fn spec_apply_unit(acc: Duration, n: int, unit: Seq<char>) -> Option<Duration> {
    if unit == "ns"@ {
        with_nanoseconds(acc, n, false)
    } else if unit == "us"@ {
        with_nanoseconds(acc, n * 1_000, false)
    } else if unit == "ms"@ {
        with_nanoseconds(acc, n * 1_000_000, false)
    } else if unit == "s"@ {
        with_nanoseconds(acc, n * 1_000_000_000, false)
    } else if unit == "m"@ {
        with_nanoseconds(acc, n * 60_000_000_000, false)
    } else if unit == "h"@ {
        with_nanoseconds(acc, n * 3_600_000_000_000, false)
    } else if unit == "d"@ {
        with_days(acc, n)
    } else if unit == "w"@ {
        with_weeks(acc, n)
    } else if unit == "mo"@ {
        with_months(acc, n)
    } else if unit == "q"@ {
        with_months(acc, n * 3)
    } else if unit == "y"@ {
        with_months(acc, n * 12)
    } else if unit == "i"@ {
        with_nanoseconds(acc, n, true)
    } else {
        None
    }
}

/// The span that the text from `pos` on adds to `acc`: a number and the
/// name of a unit, any number of times. Digits at the end that no unit
/// follows count for nothing. None where a number or a unit is missing,
/// a unit is not known or a number is too large.
pub open spec fn spec_parse_items(s: Seq<char>, pos: int, acc: Duration) -> Option<Duration>
    decreases s.len() - pos,
{
    let number_end = digits_end(s, pos);
    let unit_end = letters_end(s, number_end);
    if pos < 0 || number_end >= s.len() {
        Some(acc)
    } else if number_end <= pos || unit_end <= number_end || unit_end > s.len() {
        None
    } else if digits_value(s, pos, number_end) > u64::MAX {
        None
    } else {
        match spec_apply_unit(
            acc,
            digits_value(s, pos, number_end),
            s.subrange(number_end, unit_end),
        ) {
            None => None,
            Some(next) => spec_parse_items(s, unit_end, next),
        }
    }
}

/// The empty span.
pub open spec fn spec_empty() -> Duration {
    Duration { months: 0, weeks: 0, days: 0, nsecs: 0, negative: false, parsed_int: false }
}

/// The span that a text writes: an optional minus sign, then numbers with
/// their units, as in `3d12h4m25s`.
pub open spec fn spec_parse(s: Seq<char>) -> Option<Duration> {
    let zero = spec_empty();
    if s.len() > 0 && s[0] == '-' {
        match spec_parse_items(s, 1, zero) {
            Some(d) => Some(
                Duration {
                    months: d.months,
                    weeks: d.weeks,
                    days: d.days,
                    nsecs: d.nsecs,
                    negative: true,
                    parsed_int: d.parsed_int,
                },
            ),
            None => None,
        }
    } else {
        spec_parse_items(s, 0, zero)
    }
}

fn char_is_digit(c: char) -> (r: bool)
    ensures
        r == is_digit(c),
{
    let v: u32 = c as u32;
    48 <= v && v <= 57
}

fn char_is_letter(c: char) -> (r: bool)
    ensures
        r == is_letter(c),
{
    let v: u32 = c as u32;
    (65 <= v && v <= 90) || (97 <= v && v <= 122)
}

proof fn lemma_digits_value_nonnegative(s: Seq<char>, from: int, to: int)
    ensures
        digits_value(s, from, to) >= 0,
    decreases to - from,
{
    if from < to {
        lemma_digits_value_nonnegative(s, from, to - 1);
    }
}

fn scan_digits(s: &str, len: usize, pos: usize) -> (r: (usize, Option<u64>))
    requires
        len == s@.len(),
        pos <= len,
    ensures
        r.0 == digits_end(s@, pos as int),
        pos <= r.0 <= len,
        match r.1 {
            Some(v) => v == digits_value(s@, pos as int, r.0 as int),
            None => digits_value(s@, pos as int, r.0 as int) > u64::MAX,
        },
{
    let mut i: usize = pos;
    let mut value: Option<u64> = Some(0);
    while i < len && char_is_digit(s.get_char(i))
        invariant
            len == s@.len(),
            pos <= i <= len,
            digits_end(s@, pos as int) == digits_end(s@, i as int),
            match value {
                Some(v) => v == digits_value(s@, pos as int, i as int),
                None => digits_value(s@, pos as int, i as int) > u64::MAX,
            },
        decreases len - i,
    {
        let digit: u64 = (s.get_char(i) as u32 - 48) as u64;
        proof {
            lemma_digits_value_nonnegative(s@, pos as int, i as int);
        }
        value = match value {
            Some(v) => match v.checked_mul(10) {
                Some(tens) => tens.checked_add(digit),
                None => None,
            },
            None => None,
        };
        i += 1;
    }
    (i, value)
}

fn scan_letters(s: &str, len: usize, pos: usize) -> (r: usize)
    requires
        len == s@.len(),
        pos <= len,
    ensures
        r == letters_end(s@, pos as int),
        pos <= r <= len,
{
    let mut i: usize = pos;
    while i < len && char_is_letter(s.get_char(i))
        invariant
            len == s@.len(),
            pos <= i <= len,
            letters_end(s@, pos as int) == letters_end(s@, i as int),
        decreases len - i,
    {
        i += 1;
    }
    i
}

fn add_to(total: u64, n: u64, factor: u64) -> (r: Option<u64>)
    ensures
        r == if total + n * factor <= u64::MAX {
            Some((total + n * factor) as u64)
        } else {
            None::<u64>
        },
{
    assert(0 <= n * factor <= 0xFFFF_FFFF_FFFF_FFFF * 0xFFFF_FFFF_FFFF_FFFF) by (nonlinear_arith)
        requires
            0 <= n <= 0xFFFF_FFFF_FFFF_FFFF,
            0 <= factor <= 0xFFFF_FFFF_FFFF_FFFF,
    ;
    let product: u128 = (n as u128) * (factor as u128);
    let sum: u128 = (total as u128) + product;
    if sum > u64::MAX as u128 {
        None
    } else {
        Some(sum as u64)
    }
}

fn with_more_nanoseconds(acc: Duration, n: u64, factor: u64, index: bool) -> (r: Option<Duration>)
    ensures
        r == with_nanoseconds(acc, n * factor, index),
{
    match add_to(acc.nsecs, n, factor) {
        Some(nsecs) => Some(
            Duration {
                months: acc.months,
                weeks: acc.weeks,
                days: acc.days,
                nsecs,
                negative: acc.negative,
                parsed_int: acc.parsed_int || index,
            },
        ),
        None => None,
    }
}

fn with_more_months(acc: Duration, n: u64, factor: u64) -> (r: Option<Duration>)
    ensures
        r == with_months(acc, n * factor),
{
    match add_to(acc.months, n, factor) {
        Some(months) => Some(
            Duration {
                months,
                weeks: acc.weeks,
                days: acc.days,
                nsecs: acc.nsecs,
                negative: acc.negative,
                parsed_int: acc.parsed_int,
            },
        ),
        None => None,
    }
}

fn apply_unit(acc: Duration, n: u64, unit: &str) -> (r: Option<Duration>)
    ensures
        r == spec_apply_unit(acc, n as int, unit@),
{
    let u: String = unit.to_owned();
    if u == "ns".to_owned() {
        with_more_nanoseconds(acc, n, 1, false)
    } else if u == "us".to_owned() {
        with_more_nanoseconds(acc, n, 1_000, false)
    } else if u == "ms".to_owned() {
        with_more_nanoseconds(acc, n, 1_000_000, false)
    } else if u == "s".to_owned() {
        with_more_nanoseconds(acc, n, 1_000_000_000, false)
    } else if u == "m".to_owned() {
        with_more_nanoseconds(acc, n, 60_000_000_000, false)
    } else if u == "h".to_owned() {
        with_more_nanoseconds(acc, n, 3_600_000_000_000, false)
    } else if u == "d".to_owned() {
        match add_to(acc.days, n, 1) {
            Some(days) => Some(
                Duration {
                    months: acc.months,
                    weeks: acc.weeks,
                    days,
                    nsecs: acc.nsecs,
                    negative: acc.negative,
                    parsed_int: acc.parsed_int,
                },
            ),
            None => None,
        }
    } else if u == "w".to_owned() {
        match add_to(acc.weeks, n, 1) {
            Some(weeks) => Some(
                Duration {
                    months: acc.months,
                    weeks,
                    days: acc.days,
                    nsecs: acc.nsecs,
                    negative: acc.negative,
                    parsed_int: acc.parsed_int,
                },
            ),
            None => None,
        }
    } else if u == "mo".to_owned() {
        with_more_months(acc, n, 1)
    } else if u == "q".to_owned() {
        with_more_months(acc, n, 3)
    } else if u == "y".to_owned() {
        with_more_months(acc, n, 12)
    } else if u == "i".to_owned() {
        with_more_nanoseconds(acc, n, 1, true)
    } else {
        None
    }
}

impl Duration {
    /// Reads a span from a text such as `3d12h4m25s`: an optional minus
    /// sign, then numbers, each followed by the name of its unit.
    pub fn parse(duration: &str) -> (r: Option<Duration>)
        ensures
            r == spec_parse(duration@),
    {
        let len: usize = duration.unicode_len();
        let negative: bool = len > 0 && duration.get_char(0) == '-';
        let first: usize = if negative {
            1
        } else {
            0
        };
        let mut acc = Duration {
            months: 0,
            weeks: 0,
            days: 0,
            nsecs: 0,
            negative: false,
            parsed_int: false,
        };
        let mut pos: usize = first;
        let mut done: bool = false;
        while !done
            invariant
                len == duration@.len(),
                first <= pos <= len,
                negative == (len > 0 && duration@[0] == '-'),
                first == if negative { 1int } else { 0int },
                !acc.negative,
                !done ==> spec_parse_items(duration@, first as int, spec_empty()) == spec_parse_items(
                    duration@,
                    pos as int,
                    acc,
                ),
                done ==> spec_parse_items(duration@, first as int, spec_empty()) == Some(acc),
            decreases len - pos + if done { 0int } else { 1int },
        {
            let (number_end, value) = scan_digits(duration, len, pos);
            if number_end >= len {
                done = true;
            } else {
                let unit_end = scan_letters(duration, len, number_end);
                if number_end <= pos || unit_end <= number_end {
                    return None;
                }
                let n: u64 = match value {
                    Some(n) => n,
                    None => {
                        return None;
                    },
                };
                let unit = duration.substring_char(number_end, unit_end);
                match apply_unit(acc, n, unit) {
                    Some(next) => {
                        acc = next;
                        pos = unit_end;
                    },
                    None => {
                        return None;
                    },
                }
            }
        }
        Some(
            Duration {
                months: acc.months,
                weeks: acc.weeks,
                days: acc.days,
                nsecs: acc.nsecs,
                negative,
                parsed_int: acc.parsed_int,
            },
        )
    }
}

} // verus!
