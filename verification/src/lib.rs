//! A sliding-window rate limiter.
//!
//! A quota allows `capacity` admissions per identity and request type within
//! the trailing window `[now - window, now]`. The admission rule and the
//! in-process store are verified here; the network round trip of the remote
//! store is left to the caller, who is told which script to run and with
//! which arguments, and hands the reply back.

pub mod clock;
pub mod equivalence;
pub mod error;
pub mod history;
pub mod rate_limiter;
pub mod remote;
pub mod request;
pub mod storage;
pub mod window;
