//! The wall clock.

use vstd::prelude::*;
use std::time::{Duration, SystemTime, SystemTimeError};

verus! {

#[verifier::external_type_specification]
#[verifier::external_body]
pub struct ExSystemTime(SystemTime);

#[verifier::external_type_specification]
#[verifier::external_body]
pub struct ExSystemTimeError(SystemTimeError);

/// Reads the wall clock with `SystemTime::now`. Nothing is claimed of the
/// reading: it is whatever the clock says.
#[verifier::external_body]
fn system_now() -> SystemTime {
    SystemTime::now()
}

/// `SystemTime::duration_since(UNIX_EPOCH)`: the time from the Unix epoch to
/// `t`, or an error when `t` is earlier. Nothing is claimed of the value.
#[verifier::external_body]
fn since_unix_epoch(t: &SystemTime) -> Result<Duration, SystemTimeError> {
    t.duration_since(std::time::UNIX_EPOCH)
}

/// `Duration::as_millis`: the whole milliseconds of `d`. Nothing is claimed
/// of the value, since nothing is known of `d`.
#[verifier::external_body]
fn whole_millis(d: &Duration) -> u128 {
    d.as_millis()
}

/// The milliseconds that a reading of the clock stands for: its whole
/// milliseconds since the Unix epoch, truncated to an `i64` as `as` does, or
/// 0 for a reading earlier than the epoch (`None`).
pub open spec fn millis_of_reading(reading: Option<u128>) -> i64 {
    match reading {
        Some(m) => m as i64,
        None => 0,
    }
}

/// The milliseconds that a reading of the clock stands for (see
/// [`millis_of_reading`]).
pub fn epoch_millis(reading: Option<u128>) -> (r: i64)
    ensures
        r == millis_of_reading(reading),
{
    match reading {
        Some(m) => m as i64,
        None => 0,
    }
}

/// The milliseconds since the Unix epoch by the wall clock, truncated to an
/// `i64`; 0 when the clock reads earlier than the epoch. The reading itself
/// is whatever the clock says, so the contract can say no more of it.
pub fn now_millis() -> i64 {
    let now = system_now();
    let reading = match since_unix_epoch(&now) {
        Ok(d) => Some(whole_millis(&d)),
        Err(_) => None,
    };
    epoch_millis(reading)
}

} // verus!
