//! Where window logs are kept: in this process, one for each pair of an
//! identity and a request type and all behind one lock, or on a remote
//! service that this library only addresses.

use crate::error::RateLimiterError;
use crate::remote::{RemoteCall, script_run};
use crate::request::{Attempt, Pair, make_key, make_pair_key, pair_key, pair_keys_differ};
use crate::window::{admits, attempt, log_after};
use std::sync::{Mutex, MutexGuard};
use vstd::hash_map::StringHashMap;
use vstd::prelude::*;

verus! {

/// The window logs of an in-process store, by identity and request type.
pub type Logs = Map<Pair, Seq<u64>>;

/// The log that `logs` holds for `pair`: empty where it holds none.
pub open spec fn log_of(logs: Logs, pair: Pair) -> Seq<u64> {
    if logs.contains_key(pair) {
        logs[pair]
    } else {
        Seq::empty()
    }
}

/// Whether the in-process store admits `attempt`.
pub open spec fn local_verdict(logs: Logs, attempt: Attempt) -> bool {
    admits(
        log_of(logs, attempt.pair),
        attempt.now as int,
        attempt.start as int,
        attempt.capacity as int,
    )
}

/// The in-process store after `attempt`: only the log of its pair changes,
/// and that log exists afterwards whatever the verdict.
pub open spec fn local_step(logs: Logs, attempt: Attempt) -> Logs {
    logs.insert(
        attempt.pair,
        log_after(
            log_of(logs, attempt.pair),
            attempt.now,
            attempt.start as int,
            attempt.capacity as int,
        ),
    )
}

/// The window logs of one process, one for each pair of an identity and a
/// request type that was asked for.
pub struct LocalStore {
    logs: StringHashMap<Vec<u64>>,
}

impl View for LocalStore {
    type V = Logs;

    closed spec fn view(&self) -> Logs {
        Map::new(
            |pair: Pair| self.logs@.contains_key(pair_key(pair.0, pair.1)),
            |pair: Pair| self.logs@[pair_key(pair.0, pair.1)]@,
        )
    }
}

impl LocalStore {
    /// A store without any log.
    pub fn new() -> (store: Self)
        ensures
            store@ == Map::<Pair, Seq<u64>>::empty(),
    {
        let store = LocalStore { logs: StringHashMap::new() };
        assert(store@ =~= Map::<Pair, Seq<u64>>::empty());
        store
    }

    /// A copy of the log of `identity` for `request_type`: empty where the
    /// store holds none.
    pub fn log(&self, identity: &str, request_type: &str) -> (log: Vec<u64>)
        ensures
            log@ == log_of(self@, (identity@, request_type@)),
    {
        let key = make_pair_key(identity, request_type);
        match self.logs.get(key.as_str()) {
            Some(held) => held.clone(),
            None => Vec::new(),
        }
    }

    /// One admission attempt of `identity` for `request_type` at `now`, for
    /// the window that starts at `start`. The log of the pair is evicted
    /// and, if fewer than `capacity` of its entries lie in the window, `now`
    /// is recorded in it. No other log changes.
    pub fn attempt(
        &mut self,
        identity: &str,
        request_type: &str,
        now: u64,
        start: u64,
        capacity: u32,
    ) -> (admitted: bool)
        ensures
            admitted == local_verdict(
                old(self)@,
                (Attempt { pair: (identity@, request_type@), now, start, capacity }),
            ),
            final(self)@ == local_step(
                old(self)@,
                (Attempt { pair: (identity@, request_type@), now, start, capacity }),
            ),
    {
        let key = make_pair_key(identity, request_type);
        let outcome = match self.logs.get(key.as_str()) {
            Some(log) => attempt(log, now, start, capacity),
            None => attempt(&Vec::new(), now, start, capacity),
        };
        let (log, admitted) = outcome;
        self.logs.insert(key, log);
        proof {
            let asked = Attempt { pair: (identity@, request_type@), now, start, capacity };
            assert forall|pair: Pair| pair != asked.pair implies pair_key(pair.0, pair.1)
                != pair_key(identity@, request_type@) by {
                pair_keys_differ(pair, asked.pair);
            }
            assert(self@ =~= local_step(old(self)@, asked));
        }
        admitted
    }
}

/// `std::sync::Mutex`, opaque: nothing is known of what it holds.
#[verifier::external_type_specification]
#[verifier::external_body]
#[verifier::reject_recursive_types(T)]
pub struct ExMutex<T: ?Sized>(Mutex<T>);

/// `std::sync::MutexGuard`, opaque.
#[verifier::external_type_specification]
#[verifier::external_body]
#[verifier::reject_recursive_types(T)]
pub struct ExMutexGuard<'a, T: ?Sized + 'a>(MutexGuard<'a, T>);

/// `std::sync::Mutex::new`: a lock that owns `store`. Nothing is claimed of
/// what a later holder of the lock finds in it.
#[verifier::external_body]
fn new_lock(store: LocalStore) -> Mutex<LocalStore> {
    Mutex::new(store)
}

/// `std::sync::Mutex::lock`: waits until the lock is free and hands out its
/// guard, or `None` where the lock is poisoned. A thread that holds the
/// guard must not call this again on the same lock; `SharedStore::attempt`,
/// the one caller, gives the guard up before it returns.
#[verifier::external_body]
fn lock_store(lock: &Mutex<LocalStore>) -> Option<MutexGuard<'_, LocalStore>> {
    match lock.lock() {
        Ok(guard) => Some(guard),
        Err(_) => None,
    }
}

/// `DerefMut::deref_mut` of `std::sync::MutexGuard`: the store that the guard
/// protects, for as long as the guard is borrowed. Nothing is claimed of
/// what the store holds.
#[verifier::external_body]
fn locked_store<'a, 'b>(guard: &'a mut MutexGuard<'b, LocalStore>) -> &'a mut LocalStore {
    std::ops::DerefMut::deref_mut(guard)
}

/// The in-process store as callers share it: one lock covers the logs of
/// every pair.
pub struct SharedStore {
    lock: Mutex<LocalStore>,
}

impl SharedStore {
    /// A shared store without any log.
    pub(crate) fn new() -> Self {
        SharedStore { lock: new_lock(LocalStore::new()) }
    }

    /// One admission attempt under the lock: what `LocalStore::attempt`
    /// returns on the store as the lock holds it at that moment, or `None`
    /// where the lock is poisoned, in which case nothing was changed.
    pub(crate) fn attempt(
        &self,
        identity: &str,
        request_type: &str,
        now: u64,
        start: u64,
        capacity: u32,
    ) -> (outcome: Option<bool>)
        ensures
            outcome matches Some(admitted) ==> settles(
                (Attempt { pair: (identity@, request_type@), now, start, capacity }),
                admitted,
            ),
    {
        match lock_store(&self.lock) {
            Some(mut guard) => {
                let store = locked_store(&mut guard);
                let ghost held = store@;
                let ghost pair = (identity@, request_type@);
                let ghost asked = Attempt { pair, now, start, capacity };
                let admitted = store.attempt(identity, request_type, now, start, capacity);
                assert(admitted == local_verdict(held, asked));
                Some(admitted)
            },
            None => None,
        }
    }
}

/// `redis::Client::open`: reads `redis_url` as the address of a service and
/// keeps it, without connecting. It gives a client exactly where it accepts
/// the text, which `endpoint_accepted` names, and an error where it does not.
#[verifier::external_body]
fn open_client(redis_url: &str) -> (answer: Result<redis::Client, redis::RedisError>)
    ensures
        answer is Ok <==> endpoint_accepted(redis_url@),
{
    redis::Client::open(redis_url)
}

/// What an admission attempt comes to.
#[derive(Debug, PartialEq, Eq)]
pub enum Decision {
    /// The in-process store has decided: the request is admitted or not.
    Settled(bool),
    /// The remote service decides: this is the script run to ask it for.
    Remote(RemoteCall),
}

/// The store behind a limiter.
pub enum Storage {
    /// Window logs in this process, shared behind one lock.
    InMemory(SharedStore),
    /// Window logs on the remote service that the client addresses.
    Redis(redis::Client),
}

impl Storage {
    /// An in-process store without any log.
    pub fn in_memory() -> (storage: Self)
        ensures
            storage is InMemory,
    {
        Storage::InMemory(SharedStore::new())
    }

    /// The store on the service at `redis_url` where that is accepted as
    /// the address of a service, and `InvalidEndpoint` where it is not. No
    /// connection is made.
    pub fn remote(redis_url: &str) -> (opened: Result<Self, RateLimiterError>)
        ensures
            opened is Ok <==> endpoint_accepted(redis_url@),
            opened matches Ok(storage) ==> storage is Redis,
            opened matches Err(failure) ==> failure == RateLimiterError::InvalidEndpoint,
    {
        Storage::of_client(open_client(redis_url))
    }

    /// The store that the answer to an address comes to: the remote store
    /// of `client` where the address was accepted, and `InvalidEndpoint`
    /// where it was not.
    pub fn of_client(answer: Result<redis::Client, redis::RedisError>) -> (opened: Result<
        Self,
        RateLimiterError,
    >)
        ensures
            opened == match answer {
                Ok(client) => Ok::<Self, RateLimiterError>(Storage::Redis(client)),
                Err(_) => Err::<Self, RateLimiterError>(RateLimiterError::InvalidEndpoint),
            },
    {
        match answer {
            Ok(client) => Ok(Storage::Redis(client)),
            Err(_) => Err(RateLimiterError::InvalidEndpoint),
        }
    }

    /// The client of the remote service, where the store is remote.
    pub fn client(&self) -> (client: Option<&redis::Client>)
        ensures
            client == match *self {
                Storage::InMemory(_) => None::<&redis::Client>,
                Storage::Redis(held) => Some(&held),
            },
    {
        match self {
            Storage::InMemory(_) => None,
            Storage::Redis(client) => Some(client),
        }
    }

    /// One admission attempt of `identity` for `request_type` at `now`, for
    /// the window that starts at `start`.
    ///
    /// An in-process store takes its lock, evicts, counts and records, and
    /// the attempt is settled, with the verdict of the admission rule on
    /// the logs that the callers who held the lock before have left; it
    /// fails with `LockUnavailable` where the lock is poisoned. A remote
    /// store is not contacted: the attempt comes to the script run that
    /// decides it.
    pub fn attempt(
        &self,
        identity: &str,
        request_type: &str,
        now: u64,
        start: u64,
        capacity: u32,
    ) -> (outcome: Result<Decision, RateLimiterError>)
        ensures
            self is Redis ==> (outcome matches Ok(Decision::Remote(call)) && call@ == script_run(
                (Attempt { pair: (identity@, request_type@), now, start, capacity }),
            )),
            self is InMemory ==> ((outcome matches Ok(Decision::Settled(admitted)) && settles(
                (Attempt { pair: (identity@, request_type@), now, start, capacity }),
                admitted,
            )) || outcome == Err::<Decision, RateLimiterError>(RateLimiterError::LockUnavailable)),
    {
        match self {
            Storage::InMemory(shared) => {
                match shared.attempt(identity, request_type, now, start, capacity) {
                    Some(admitted) => Ok(Decision::Settled(admitted)),
                    None => Err(RateLimiterError::LockUnavailable),
                }
            },
            Storage::Redis(_) => Ok(
                Decision::Remote(
                    RemoteCall {
                        key: make_key(identity, request_type),
                        capacity,
                        window_start: start,
                        now,
                    },
                ),
            ),
        }
    }
}

/// `redis::Client`, opaque: the address of a Redis service.
#[verifier::external_type_specification]
#[verifier::external_body]
pub struct ExClient(redis::Client);

/// `redis::RedisError`, opaque.
#[verifier::external_type_specification]
#[verifier::external_body]
pub struct ExRedisError(redis::RedisError);

/// Whether `redis::Client::open` accepts `redis_url` as the address of a
/// service: what it makes of the text, which it reads as a URL. The answer
/// is that of the `redis` crate as it is built: it refuses `unix://`
/// addresses off Unix, and `rediss://` addresses without its TLS features.
pub uninterp spec fn endpoint_accepted(redis_url: Seq<char>) -> bool;

/// Whether `admitted` is a verdict that the in-process store can give on
/// `attempt`: its verdict for some logs that it may hold.
pub open spec fn settles(attempt: Attempt, admitted: bool) -> bool {
    exists|logs: Logs| admitted == #[trigger] local_verdict(logs, attempt)
}

/// Whatever the store holds, it admits nothing under a capacity of zero.
pub proof fn no_capacity_denies(attempt: Attempt, admitted: bool)
    requires
        settles(attempt, admitted),
        attempt.capacity == 0,
    ensures
        !admitted,
{
}

} // verus!
