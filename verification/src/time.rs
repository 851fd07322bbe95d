//! Instants and calendar days.
//!
//! The state machine never asks the clock or the time zone database
//! itself: every public operation takes the current instant as an
//! argument. An instant carries both its UTC millisecond timestamp and
//! the local calendar day it falls on, because day buckets and week
//! boundaries are local-time concepts while durations are differences
//! of UTC timestamps. `stamp_from_ms` builds such an instant from a
//! bare timestamp using the machine's time zone.

use vstd::prelude::*;

verus! {

/// Largest magnitude of a millisecond timestamp the library accepts
/// (about 126 thousand years either side of the epoch). Two things
/// shape the bound: every difference of two accepted timestamps fits
/// in an `i64`, and the bound lies far inside the range a time
/// library can turn into a local date — chrono represents dates out
/// to roughly 262 thousand years from the epoch, and its local-time
/// conversion is partial near that edge, so the library keeps a wide
/// margin clear of it.
pub const MAX_ABS_MS: i64 = 4_000_000_000_000_000;

/// Largest magnitude of a day number the library accepts. Generous
/// enough for every calendar day a time library can represent, and
/// small enough that day arithmetic over rolling windows cannot
/// overflow.
pub const MAX_ABS_DAY: i64 = 0x100_0000_0000;

/// An instant: the UTC timestamp in milliseconds since
/// 1970-01-01T00:00:00Z, and the calendar day that the instant falls
/// on in the observer's local time zone. Days are counted in the
/// proleptic Gregorian calendar with January 1 of year 1 as day 1
/// (so 1970-01-01 is day 719163).
#[derive(Clone, Copy, Debug, PartialEq, Eq, Structural)]
pub struct Stamp {
    pub ms: i64,
    pub day: i64,
}

/// An instant the library can do arithmetic on without overflow. Day
/// numbers start at 1 (January 1 of year 1), so every representable
/// day is positive.
pub open spec fn valid_stamp(s: Stamp) -> bool {
    &&& -MAX_ABS_MS <= s.ms <= MAX_ABS_MS
    &&& 0 <= s.day <= MAX_ABS_DAY
}

/// How far into the week a day lies, with weeks starting on Monday:
/// 0 for a Monday through 6 for a Sunday. Day 1 (January 1 of year 1)
/// was a Monday.
pub open spec fn spec_days_from_monday(day: int) -> int {
    (day + 6) % 7
}

/// How far into the week a day lies, with weeks starting on Monday:
/// 0 for a Monday through 6 for a Sunday.
pub fn days_from_monday(day: i64) -> (r: i64)
    requires
        0 <= day <= MAX_ABS_DAY,
    ensures
        r == spec_days_from_monday(day as int),
        0 <= r < 7,
{
    (day + 6) % 7
}

/// Sum of two millisecond counts, clamped into the range an `i64` can
/// hold. Accumulated totals use this so that even absurd inputs cannot
/// make the library fail: a total that would not fit sticks at the
/// nearest representable value.
pub open spec fn spec_clamped_add(a: int, b: int) -> int {
    if a + b > i64::MAX {
        i64::MAX as int
    } else if a + b < i64::MIN {
        i64::MIN as int
    } else {
        a + b
    }
}

/// Sum of two millisecond counts, clamped into the `i64` range.
pub fn clamped_add(a: i64, b: i64) -> (r: i64)
    ensures
        r == spec_clamped_add(a as int, b as int),
{
    if b >= 0 {
        if a > i64::MAX - b {
            i64::MAX
        } else {
            a + b
        }
    } else {
        if a < i64::MIN - b {
            i64::MIN
        } else {
            a + b
        }
    }
}

/// Relies on chrono: `DateTime::from_timestamp_millis`, then
/// `with_timezone(&Local)`, `date_naive` and `num_days_from_ce`, to
/// find the local calendar day of a UTC timestamp. The result depends
/// on the machine's time zone, so nothing is promised of it. The
/// `requires` keeps the timestamp far from the edge of chrono's
/// representable dates: near that edge `date_naive` applies the
/// local offset with `NaiveDateTime::checked_add_offset` and panics
/// when the shifted instant falls off the calendar, while inside the
/// bound every conversion succeeds, whatever the offset.
#[verifier::external_body]
fn chrono_local_day(ms: i64) -> (r: Option<i64>)
    requires
        -MAX_ABS_MS <= ms <= MAX_ABS_MS,
{
    match chrono::DateTime::from_timestamp_millis(ms) {
        Some(dt) => Some(chrono::Datelike::num_days_from_ce(
            &dt.with_timezone(&chrono::Local).date_naive(),
        ) as i64),
        None => None,
    }
}

/// Builds the instant for a UTC millisecond timestamp, asking the
/// machine's time zone which local calendar day it falls on. A
/// timestamp outside the range the library does arithmetic on is
/// rejected before any conversion is attempted.
pub fn stamp_from_ms(ms: i64) -> (r: Option<Stamp>)
    ensures
        match r {
            Some(s) => s.ms == ms && valid_stamp(s),
            None => true,
        },
        ms < -MAX_ABS_MS || ms > MAX_ABS_MS ==> r is None,
{
    if ms < -MAX_ABS_MS || ms > MAX_ABS_MS {
        return None;
    }
    match chrono_local_day(ms) {
        Some(day) => {
            if 0 <= day && day <= MAX_ABS_DAY {
                Some(Stamp { ms, day })
            } else {
                None
            }
        },
        None => None,
    }
}

} // verus!
