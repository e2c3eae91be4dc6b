//! The time of day for log lines, read from the system clock.

use vstd::prelude::*;
use std::time::{Duration, SystemTime};

verus! {

#[verifier::external_type_specification]
#[verifier::external_body]
pub struct ExSystemTime(std::time::SystemTime);

/// Reads the system clock with `SystemTime::now`. Nothing is claimed of the
/// time it gives.
#[verifier::external_body]
fn clock_now() -> (now: SystemTime) {
    SystemTime::now()
}

/// The time from the start of 1970 to `at`, by `SystemTime::duration_since`
/// against `UNIX_EPOCH`; nothing where `at` lies before that start. Nothing
/// more is claimed of it.
#[verifier::external_body]
fn since_unix_epoch(at: &SystemTime) -> (elapsed: Option<Duration>) {
    match at.duration_since(std::time::UNIX_EPOCH) {
        Ok(elapsed) => Some(elapsed),
        Err(_) => None,
    }
}

/// The whole nanoseconds of a span of time, by `Duration::as_nanos`. Nothing
/// is claimed of the number.
#[verifier::external_body]
fn nanos_of(elapsed: &Duration) -> (nanos: u128) {
    elapsed.as_nanos()
}

/// The time for a log line from what the clock read: the nanoseconds since
/// the start of 1970 where the clock stands after that start, and zero where
/// it stands before.
pub fn since_epoch_or_zero(elapsed: Option<u128>) -> (nanos: u128)
    ensures
        nanos == match elapsed {
            Some(n) => n,
            None => 0,
        },
{
    match elapsed {
        Some(n) => n,
        None => 0,
    }
}

/// Nanoseconds since the start of 1970 by the system clock, and zero where
/// the clock stands before that. The number is the clock's: nothing holds of
/// it that would hold of every reading.
pub fn unix_time_nanos() -> (nanos: u128) {
    let now = clock_now();
    let elapsed = match since_unix_epoch(&now) {
        Some(elapsed) => Some(nanos_of(&elapsed)),
        None => None,
    };
    since_epoch_or_zero(elapsed)
}

} // verus!
