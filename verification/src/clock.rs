//! The wall clock.
//!
//! A reading is a number of nanoseconds since the Unix epoch, below zero for a
//! clock that stands before it. What is made of a reading is stated for every
//! reading; when a call happens is not.

use std::time::{SystemTime, UNIX_EPOCH};

use vstd::prelude::*;

verus! {

/// Nanoseconds in a second.
pub const NANOS: i128 = 1_000_000_000;

/// The readings that a clock can give: seconds that 64 bits count, either way.
pub open spec fn is_reading(now: i128) -> bool {
    -(u64::MAX + 1) * NANOS < now < (u64::MAX + 1) * NANOS
}

/// `SystemTime::now`, as its distance from `UNIX_EPOCH`. A `Duration` has at most
/// `u64::MAX` whole seconds and less than one second beyond them. Nothing else is
/// known of the time of the call.
#[verifier::external_body]
pub(crate) fn read_clock() -> (now: i128)
    ensures
        is_reading(now),
{
    match SystemTime::now().duration_since(UNIX_EPOCH) {
        Ok(since) => since.as_nanos() as i128,
        Err(error) => -(error.duration().as_nanos() as i128),
    }
}

/// Whole seconds since the Unix epoch, 0 before it.
pub open spec fn seconds(now: i128) -> u64 {
    if now < 0 {
        0
    } else {
        (now / NANOS) as u64
    }
}

/// Whole milliseconds since the Unix epoch, in 64 bits; 0 before the epoch.
pub open spec fn millis(now: i128) -> u64 {
    if now < 0 {
        0
    } else {
        ((now / 1_000_000) % 0x1_0000_0000_0000_0000) as u64
    }
}

/// Whole seconds since the Unix epoch at a reading of the clock.
pub fn seconds_at(now: i128) -> (r: u64)
    requires
        is_reading(now),
    ensures
        r == seconds(now),
        now >= 0 ==> r * NANOS <= now < (r + 1) * NANOS,
{
    if now < 0 {
        0
    } else {
        (now / 1_000_000_000) as u64
    }
}

/// Whole milliseconds since the Unix epoch at a reading of the clock.
pub fn millis_at(now: i128) -> (r: u64)
    ensures
        r == millis(now),
{
    if now < 0 {
        0
    } else {
        ((now / 1_000_000) % 0x1_0000_0000_0000_0000) as u64
    }
}

/// Whole seconds since the Unix epoch.
pub fn now_seconds() -> (r: u64)
    ensures
        exists|now: i128| is_reading(now) && r == #[trigger] seconds(now),
{
    seconds_at(read_clock())
}

/// Whole milliseconds since the Unix epoch, for the headers of a rate-limit
/// response.
pub fn axum_limit_snapshot_now_ms() -> (r: u64)
    ensures
        exists|now: i128| is_reading(now) && r == #[trigger] millis(now),
{
    millis_at(read_clock())
}

/// A reading in nanoseconds is so many whole seconds and milliseconds since the epoch; before
/// the epoch it is none.
pub proof fn law_units(now: i128)
    requires
        is_reading(now),
    ensures
        now < 0 ==> seconds(now) == 0 && millis(now) == 0,
        now >= 0 ==> seconds(now) * 1_000_000_000 <= now < (seconds(now) + 1) * 1_000_000_000,
        0 <= now < 0x1_0000_0000_0000_0000 * 1_000_000 ==> millis(now) * 1_000_000 <= now < (millis(
            now,
        ) + 1) * 1_000_000,
        0 <= now < 0x1_0000_0000_0000_0000 * 1_000_000 ==> millis(now) / 1000 == seconds(now),
{
}

/// The two readings are what the units are.
pub proof fn law_readings(now: i128, secs: u64, ms: u64)
    requires
        is_reading(now),
        call_ensures(seconds_at, (now,), secs),
        call_ensures(millis_at, (now,), ms),
    ensures
        now < 0 ==> secs == 0 && ms == 0,
        now >= 0 ==> secs * 1_000_000_000 <= now < (secs + 1) * 1_000_000_000,
        0 <= now < 0x1_0000_0000_0000_0000 * 1_000_000 ==> ms * 1_000_000 <= now < (ms + 1)
            * 1_000_000,
        secs == seconds(now) && ms == millis(now),
{
    law_units(now);
}

/// Every time that 64 bits of seconds can hold, before or after the epoch, can be read.
pub proof fn law_all_times_can_be_read(secs: u64, nanos: u32)
    requires
        nanos < 1_000_000_000,
    ensures
        is_reading((secs * 1_000_000_000 + nanos) as i128),
        is_reading((-(secs * 1_000_000_000 + nanos)) as i128),
{
}

} // verus!
