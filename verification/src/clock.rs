//! The wall clock, read without a way to fail.

use vstd::prelude::*;
use std::time::Duration;
use std::time::SystemTimeError;

verus! {

#[verifier::external_type_specification]
#[verifier::external_body]
pub struct ExSystemTimeError(SystemTimeError);

/// How far the system clock stands from the Unix epoch, as
/// `std::time::SystemTime::elapsed` on `UNIX_EPOCH` gives it: `Ok` for a clock
/// at or after the epoch, `Err` for one set before it.
///
/// Nothing is claimed of the value: the clock may stand still or step back
/// between two calls.
#[verifier::external_body]
fn elapsed_since_epoch() -> Result<Duration, SystemTimeError> {
    std::time::UNIX_EPOCH.elapsed()
}

/// The distance that `std::time::SystemTimeError::duration` reports for a
/// clock set before the epoch.
#[verifier::external_body]
fn distance(error: &SystemTimeError) -> Duration {
    error.duration()
}

/// The whole microseconds in `span`, by `chrono::TimeDelta::from_std` and
/// `TimeDelta::num_microseconds`: `None` where either finds the span too
/// long. Nothing is claimed of the number.
#[verifier::external_body]
fn whole_micros(span: Duration) -> Option<i64> {
    match chrono::TimeDelta::from_std(span) {
        Ok(delta) => delta.num_microseconds(),
        Err(_) => None,
    }
}

/// The current time in microseconds since the Unix epoch.
///
/// A clock set before the epoch reads negative. A distance from the epoch
/// that does not fit reads as the nearest end of `i64`.
pub(crate) fn utc_now_micros() -> i64 {
    match elapsed_since_epoch() {
        Ok(after) => match whole_micros(after) {
            Some(micros) => micros,
            None => i64::MAX,
        },
        Err(error) => match whole_micros(distance(&error)) {
            Some(micros) => if micros == i64::MIN {
                i64::MIN
            } else {
                0 - micros
            },
            None => i64::MIN,
        },
    }
}

} // verus!
