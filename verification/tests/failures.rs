use ratelimiter_rs::clock::{now_millis, reading_of, to_timestamp};
use ratelimiter_rs::error::RateLimiterError;

#[test]
fn every_failure_has_its_message() {
    assert_eq!(RateLimiterError::LockUnavailable.message(), "unable to acquire lock");
    assert_eq!(RateLimiterError::ClockError.message(), "system time is before the epoch");
    assert_eq!(RateLimiterError::InvalidEndpoint.message(), "remote endpoint was not accepted");
    assert_eq!(RateLimiterError::RemoteUnavailable("refused".to_string()).message(), "refused");
    let protocol = RateLimiterError::RemoteProtocolError("bad reply".to_string());
    assert_eq!(protocol.message(), "bad reply");
}

#[test]
fn a_remote_failure_is_of_the_transport_or_of_the_protocol() {
    assert_eq!(
        RateLimiterError::remote_failure(true, "down".to_string()),
        RateLimiterError::RemoteUnavailable("down".to_string())
    );
    assert_eq!(
        RateLimiterError::remote_failure(false, "ERR".to_string()),
        RateLimiterError::RemoteProtocolError("ERR".to_string())
    );
}

#[test]
fn the_clock_reads_a_time_after_the_epoch() {
    let first = now_millis().unwrap();
    assert!(first > 1_600_000_000_000);
    assert!(first < 100_000_000_000_000);
}

#[test]
fn a_timestamp_is_the_low_64_bits() {
    assert_eq!(to_timestamp(0), 0);
    assert_eq!(to_timestamp(1_700_000_000_123), 1_700_000_000_123);
    assert_eq!(to_timestamp(u64::MAX as u128), u64::MAX);
    assert_eq!(to_timestamp(u64::MAX as u128 + 6), 5);
}

#[test]
fn a_reading_is_the_timestamp_or_a_clock_error() {
    assert_eq!(reading_of(Some(1_700_000_000_123)), Ok(1_700_000_000_123));
    assert_eq!(reading_of(Some(0)), Ok(0));
    assert_eq!(reading_of(Some(u64::MAX as u128 + 6)), Ok(5));
    assert_eq!(reading_of(None), Err(RateLimiterError::ClockError));
}
