//! Plain arithmetic on clock readings.  The surrounding code owns the
//! calendar and the clock; these functions only turn already-resolved
//! components into milliseconds.

use vstd::prelude::*;

verus! {

/// Milliseconds elapsed since midnight at the given time of day.
pub fn milliseconds_since_midnight(hour: u32, minute: u32, second: u32) -> (r: u32)
    requires
        hour < 24,
        minute < 60,
        second < 60,
    ensures
        r == hour * 3_600_000 + minute * 60_000 + second * 1_000,
{
    hour * 60 * 60 * 1000 + minute * 60 * 1000 + second * 1000
}

/// Milliseconds at the start of the second that is the given number
/// of seconds from the epoch.
pub fn milliseconds_since_epoch(timestamp_seconds: i64) -> (r: i64)
    requires
        -9_223_372_036_854_775 <= timestamp_seconds <= 9_223_372_036_854_775,
    ensures
        r == timestamp_seconds * 1_000,
{
    timestamp_seconds * 1000
}

} // verus!
