//! What can go wrong with an admission attempt.

use vstd::prelude::*;
use vstd::string::StringExecFns;

verus! {

/// A failure of the limiter. An unknown request type is none: such a request
/// is denied.
#[derive(Debug, PartialEq, Eq)]
pub enum RateLimiterError {
    /// The lock of the in-process store could not be acquired.
    LockUnavailable,
    /// The system clock does not give a time since the epoch.
    ClockError,
    /// The address of the remote service was not accepted.
    InvalidEndpoint,
    /// The remote service could not be reached; the text says why.
    RemoteUnavailable(String),
    /// The remote service was reached but gave no verdict; the text says why.
    RemoteProtocolError(String),
}

impl RateLimiterError {
    /// The text of `message`.
    pub open spec fn message_text(self) -> Seq<char> {
        match self {
            RateLimiterError::LockUnavailable => "unable to acquire lock"@,
            RateLimiterError::ClockError => "system time is before the epoch"@,
            RateLimiterError::InvalidEndpoint => "remote endpoint was not accepted"@,
            RateLimiterError::RemoteUnavailable(detail) => detail@,
            RateLimiterError::RemoteProtocolError(detail) => detail@,
        }
    }

    /// A line of text for the failure.
    pub fn message(&self) -> (text: String)
        ensures
            text@ == self.message_text(),
    {
        match self {
            RateLimiterError::LockUnavailable => String::from_str("unable to acquire lock"),
            RateLimiterError::ClockError => String::from_str("system time is before the epoch"),
            RateLimiterError::InvalidEndpoint => String::from_str(
                "remote endpoint was not accepted",
            ),
            RateLimiterError::RemoteUnavailable(detail) => detail.clone(),
            RateLimiterError::RemoteProtocolError(detail) => detail.clone(),
        }
    }

    /// The failure of a round trip to the remote service: `RemoteUnavailable`
    /// where the transport failed, `RemoteProtocolError` where the service
    /// answered with an error.
    pub fn remote_failure(transport: bool, detail: String) -> (failure: Self)
        ensures
            failure == if transport {
                RateLimiterError::RemoteUnavailable(detail)
            } else {
                RateLimiterError::RemoteProtocolError(detail)
            },
    {
        if transport {
            RateLimiterError::RemoteUnavailable(detail)
        } else {
            RateLimiterError::RemoteProtocolError(detail)
        }
    }
}

} // verus!
