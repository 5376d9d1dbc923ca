//! The limiter: quotas by request type, and the admission decision.

use crate::clock::now_millis;
use crate::error::RateLimiterError;
use crate::remote::script_run;
use crate::request::attempt_for;
use crate::storage::{Decision, Storage, endpoint_accepted, settles};
use crate::window::clamped_start;
use vstd::hash_map::StringHashMap;
use vstd::prelude::*;

verus! {

/// A quota: at most `capacity` admissions within any `window_millis`
/// milliseconds.
#[derive(Debug, Clone, Copy, PartialEq, Eq)]
pub struct Config {
    pub capacity: u32,
    pub window_millis: u64,
}

/// A rate limiter: a quota per request type, and the store of the window
/// logs.
pub struct RateLimiter {
    configs: StringHashMap<Config>,
    storage: Storage,
}

impl RateLimiter {
    /// The quotas, by request type.
    pub closed spec fn configs(&self) -> Map<Seq<char>, Config> {
        self.configs@
    }

    /// The store of the window logs.
    pub closed spec fn storage(&self) -> Storage {
        self.storage
    }

    /// Creates a new rate limiter with in-memory storage and no quota.
    pub fn with_in_memory() -> (limiter: Self)
        ensures
            limiter.configs() == Map::<Seq<char>, Config>::empty(),
            limiter.storage() is InMemory,
    {
        RateLimiter { configs: StringHashMap::new(), storage: Storage::in_memory() }
    }

    /// Creates a new rate limiter with no quota whose window logs are kept
    /// by the service at `redis_url`. It succeeds exactly where `redis_url`
    /// is accepted as the address of a service, and fails with
    /// `InvalidEndpoint` where it is not; no connection is made.
    pub fn with_redis(redis_url: &str) -> (opened: Result<Self, RateLimiterError>)
        ensures
            opened is Ok <==> endpoint_accepted(redis_url@),
            opened matches Ok(limiter) ==> limiter.configs() == Map::<Seq<char>, Config>::empty()
                && limiter.storage() is Redis,
            opened matches Err(failure) ==> failure == RateLimiterError::InvalidEndpoint,
    {
        match Storage::remote(redis_url) {
            Ok(storage) => Ok(RateLimiter { configs: StringHashMap::new(), storage }),
            Err(failure) => Err(failure),
        }
    }

    /// Sets the quota of `request_type`, in place of an earlier one if there
    /// is one: `capacity` admissions per `window_time_millis` milliseconds.
    /// Returns the limiter, so that calls can be chained.
    pub fn add_config(
        &mut self,
        request_type: &str,
        capacity: u32,
        window_time_millis: u64,
    ) -> (limiter: &mut Self)
        ensures
            limiter.configs() == old(self).configs().insert(
                request_type@,
                (Config { capacity, window_millis: window_time_millis }),
            ),
            limiter.storage() == old(self).storage(),
            *final(self) == *final(limiter),
    {
        self.configs.insert(
            request_type.to_string(),
            Config { capacity, window_millis: window_time_millis },
        );
        self
    }

    /// The quota of `request_type`, if it has one.
    pub fn config(&self, request_type: &str) -> (found: Option<Config>)
        ensures
            found == if self.configs().contains_key(request_type@) {
                Some(self.configs()[request_type@])
            } else {
                None
            },
    {
        match self.configs.get(request_type) {
            Some(quota) => Some(*quota),
            None => None,
        }
    }

    /// The store of the window logs.
    pub fn store(&self) -> (storage: &Storage)
        ensures
            *storage == self.storage(),
    {
        &self.storage
    }

    /// Decides a request of `user_id` for `request_type` that arrives at
    /// `now`, in milliseconds since the epoch.
    ///
    /// A request type without a quota is denied. Otherwise the window is
    /// `[now - window, now]` and the store makes the attempt for the pair of
    /// `user_id` and `request_type`: an in-process store settles it, with
    /// the verdict of the admission rule on the logs that it holds, and for a
    /// remote store it comes to the script run that decides it.
    pub fn allowed_at(&self, user_id: &str, request_type: &str, now: u64) -> (result: Result<
        Decision,
        RateLimiterError,
    >)
        ensures
            !self.configs().contains_key(request_type@) ==> result == Ok::<
                Decision,
                RateLimiterError,
            >(Decision::Settled(false)),
            self.configs().contains_key(request_type@) ==> self.decides(
                user_id@,
                request_type@,
                now,
                result,
            ),
    {
        match self.config(request_type) {
            Some(quota) => self.decide(user_id, request_type, quota, now),
            None => Ok(Decision::Settled(false)),
        }
    }

    /// Decides a request of `user_id` for `request_type` that arrives now.
    ///
    /// A request type without a quota is denied, whatever the clock says.
    /// Otherwise the clock is read and the request is decided as
    /// `allowed_at` decides it at that instant; it fails with `ClockError`
    /// where the clock gives no time since the epoch. Each admitted request
    /// takes one place of the quota.
    pub fn allowed(&self, user_id: &str, request_type: &str) -> (result: Result<
        Decision,
        RateLimiterError,
    >)
        ensures
            !self.configs().contains_key(request_type@) ==> result == Ok::<
                Decision,
                RateLimiterError,
            >(Decision::Settled(false)),
            self.configs().contains_key(request_type@) ==> (result == Err::<
                Decision,
                RateLimiterError,
            >(RateLimiterError::ClockError) || (exists|now: u64| #[trigger]
                self.decides(user_id@, request_type@, now, result))),
    {
        match self.config(request_type) {
            Some(quota) => match now_millis() {
                Ok(now) => self.decide(user_id, request_type, quota, now),
                Err(failure) => Err(failure),
            },
            None => Ok(Decision::Settled(false)),
        }
    }

    /// Whether `result` is a decision of this limiter on a request of
    /// `identity` for `request_type` at `now`, under the quota of
    /// `request_type`. A remote store comes to the script run of the
    /// attempt. An in-process store settles the attempt with a verdict that
    /// it can give on it, or fails with `LockUnavailable`.
    pub open spec fn decides(
        &self,
        identity: Seq<char>,
        request_type: Seq<char>,
        now: u64,
        result: Result<Decision, RateLimiterError>,
    ) -> bool {
        let quota = self.configs()[request_type];
        let attempt = attempt_for(identity, request_type, quota.capacity, quota.window_millis, now);
        match self.storage() {
            Storage::Redis(_) => result matches Ok(Decision::Remote(call)) && call@ == script_run(
                attempt,
            ),
            Storage::InMemory(_) => (result matches Ok(Decision::Settled(admitted)) && settles(
                attempt,
                admitted,
            )) || result == Err::<Decision, RateLimiterError>(RateLimiterError::LockUnavailable),
        }
    }

    /// Decides a request under `quota`, which is the quota of
    /// `request_type`.
    fn decide(&self, user_id: &str, request_type: &str, quota: Config, now: u64) -> (result:
        Result<Decision, RateLimiterError>)
        requires
            self.configs().contains_key(request_type@),
            self.configs()[request_type@] == quota,
        ensures
            self.decides(user_id@, request_type@, now, result),
    {
        let start = clamped_start(now, quota.window_millis);
        self.storage.attempt(user_id, request_type, now, start, quota.capacity)
    }
}

} // verus!
