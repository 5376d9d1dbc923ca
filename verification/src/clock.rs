//! The wall clock, in milliseconds since the epoch.

use crate::error::RateLimiterError;
use std::time::{Duration, SystemTime, SystemTimeError, UNIX_EPOCH};
use vstd::prelude::*;

verus! {

/// `std::time::SystemTime`, opaque.
#[verifier::external_type_specification]
#[verifier::external_body]
pub struct ExSystemTime(SystemTime);

/// `std::time::SystemTimeError`, opaque.
#[verifier::external_type_specification]
#[verifier::external_body]
pub struct ExSystemTimeError(SystemTimeError);

/// `std::time::SystemTime::now`: the system's time. Nothing is claimed of
/// it: two readings may differ in either direction.
#[verifier::external_body]
fn system_time() -> SystemTime {
    SystemTime::now()
}

/// `std::time::SystemTime::duration_since`, with `UNIX_EPOCH` as the earlier
/// time: how long after the epoch `time` lies, or an error where it lies
/// before the epoch.
#[verifier::external_body]
fn since_epoch(time: &SystemTime) -> Result<Duration, SystemTimeError> {
    time.duration_since(UNIX_EPOCH)
}

/// `std::time::Duration::as_millis`: the whole milliseconds in `span`.
#[verifier::external_body]
fn whole_millis(span: &Duration) -> u128 {
    span.as_millis()
}

/// The milliseconds that `millis` stands for as a timestamp: its low 64
/// bits.
pub open spec fn timestamp_of(millis: u128) -> u64 {
    (millis % 0x1_0000_0000_0000_0000) as u64
}

/// Reduces a count of milliseconds to a timestamp.
pub fn to_timestamp(millis: u128) -> (now: u64)
    ensures
        now == timestamp_of(millis),
{
    (millis % 0x1_0000_0000_0000_0000) as u64
}

/// Reads the clock: the milliseconds since the epoch, or `ClockError` where
/// the system's time lies before the epoch.
pub fn now_millis() -> (reading: Result<u64, RateLimiterError>)
    ensures
        reading matches Err(failure) ==> failure == RateLimiterError::ClockError,
{
    let time = system_time();
    let elapsed = match since_epoch(&time) {
        Ok(span) => Some(whole_millis(&span)),
        Err(_) => None,
    };
    reading_of(elapsed)
}

/// The reading that the clock's answer comes to: the timestamp of
/// `elapsed`, the milliseconds since the epoch, and `ClockError` where there
/// are none because the system's time lies before the epoch.
pub fn reading_of(elapsed: Option<u128>) -> (reading: Result<u64, RateLimiterError>)
    ensures
        reading == match elapsed {
            Some(millis) => Ok::<u64, RateLimiterError>(timestamp_of(millis)),
            None => Err::<u64, RateLimiterError>(RateLimiterError::ClockError),
        },
{
    match elapsed {
        Some(millis) => Ok(to_timestamp(millis)),
        None => Err(RateLimiterError::ClockError),
    }
}

} // verus!
