//! The wall clock, read in milliseconds since the Unix epoch.

use vstd::prelude::*;

verus! {

/// Largest clock reading the library works with, in milliseconds.
pub const MAX_TIMESTAMP_MS: u64 = 9_223_372_036_854_775_807;

/// Reads `chrono::Utc::now()` and converts it with `DateTime::timestamp_millis`.
/// Nothing is claimed of the reading.  chrono itself aborts when the system
/// clock stands before 1970 or beyond the dates it can represent.
#[verifier::external_body]
fn system_clock_millis() -> i64 {
    chrono::Utc::now().timestamp_millis()
}

/// The current time in milliseconds since the Unix epoch; a reading before the
/// epoch counts as the epoch itself.  The reading is chrono's and unwinds as
/// chrono does on a machine whose clock stands before 1970; whoever must not
/// unwind there reads the clock otherwise and hands the time in.
pub fn now_millis() -> (now: u64)
    ensures
        now <= MAX_TIMESTAMP_MS,
{
    let raw: i64 = system_clock_millis();
    since_epoch(raw)
}

/// The time that a clock reading stands for: the reading itself, and the
/// epoch for a reading before the epoch.
pub open spec fn spec_since_epoch(reading: i64) -> u64 {
    if reading < 0 {
        0
    } else {
        reading as u64
    }
}

/// Turns a clock reading, in milliseconds relative to the Unix epoch, into
/// the time the library works with.
pub fn since_epoch(reading: i64) -> (now: u64)
    ensures
        now == spec_since_epoch(reading),
        now <= MAX_TIMESTAMP_MS,
{
    if reading < 0 {
        0
    } else {
        reading as u64
    }
}

} // verus!
