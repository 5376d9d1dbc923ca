//! The remote store: one sorted set of timestamps per key on a shared
//! service, changed only by a script that the service runs as one step.
//!
//! This module says which script to run, on which key and with which
//! arguments, how to read the reply, and what the script does to the sorted
//! sets. The round trip itself is the caller's.
//!
//! The service orders a sorted set by scores that are exact for whole
//! numbers below 2^53. What is said here of sorted sets takes each timestamp
//! for its own score, and so holds of timestamps below that bound.

use crate::request::{Attempt, Pair, composite_key};
use vstd::prelude::*;

verus! {

/// The script of one admission attempt. `KEYS[1]` is the key of the sorted
/// set; `ARGV[1]` to `ARGV[5]` are the capacity, the first and the last
/// instant of the window, the timestamp to record and the instant below
/// which entries are removed. It counts the entries inside the window; where
/// they are fewer than the capacity it records the timestamp, removes what is
/// older than the window, and replies 1; else it changes nothing and replies
/// 0.
pub const ADMISSION_SCRIPT: &'static str = "
local user_redis_key = KEYS[1]
local limit_value = tonumber(ARGV[1])
local start_time_in_millis = tonumber(ARGV[2])
local end_time_in_millis = tonumber(ARGV[3])
local current_time_in_millis = tonumber(ARGV[4])
local eviction_time_in_millis = ARGV[5]

local request_count = redis.call('ZCOUNT', user_redis_key, start_time_in_millis, end_time_in_millis)

if tonumber(request_count) < limit_value then
    redis.call('ZADD', user_redis_key, current_time_in_millis, current_time_in_millis)
    redis.call('ZREMRANGEBYSCORE', user_redis_key, '-inf', '(' .. eviction_time_in_millis)
    return 1
else
    return 0
end
";

/// One run of the admission script that the remote service is asked for.
#[derive(Debug, PartialEq, Eq)]
pub struct RemoteCall {
    /// The key of the sorted set.
    pub key: String,
    /// The most entries that the window may hold.
    pub capacity: u32,
    /// The first instant of the window, which is also the instant below
    /// which entries are removed.
    pub window_start: u64,
    /// The last instant of the window, which is also the timestamp to
    /// record.
    pub now: u64,
}

/// One run of the admission script, as a value: the key of the sorted set
/// and what the script is told.
pub struct ScriptRun {
    /// The key of the sorted set.
    pub key: Seq<char>,
    /// The last instant of the window, which is also the timestamp to
    /// record.
    pub now: u64,
    /// The first instant of the window, which is also the instant below
    /// which entries are removed.
    pub start: u64,
    /// The most entries that the window may hold.
    pub capacity: u32,
}

impl View for RemoteCall {
    type V = ScriptRun;

    open spec fn view(&self) -> ScriptRun {
        ScriptRun {
            key: self.key@,
            now: self.now,
            start: self.window_start,
            capacity: self.capacity,
        }
    }
}

/// The key of the sorted set of `pair` on the remote service.
pub open spec fn remote_key(pair: Pair) -> Seq<char> {
    composite_key(pair.0, pair.1)
}

/// The run of the script that decides `attempt` on the remote service.
pub open spec fn script_run(attempt: Attempt) -> ScriptRun {
    ScriptRun {
        key: remote_key(attempt.pair),
        now: attempt.now,
        start: attempt.start,
        capacity: attempt.capacity,
    }
}

/// The arguments of the script for `run` as numbers, in the order of `ARGV`.
pub open spec fn argument_list(run: ScriptRun) -> Seq<u64> {
    seq![run.capacity as u64, run.start, run.now, run.now, run.start]
}

impl RemoteCall {
    /// The arguments to hand to the script, in the order of `ARGV`.
    pub fn arguments(&self) -> (list: Vec<u64>)
        ensures
            list@ == argument_list(self@),
    {
        let mut list: Vec<u64> = Vec::new();
        list.push(self.capacity as u64);
        list.push(self.window_start);
        list.push(self.now);
        list.push(self.now);
        list.push(self.window_start);
        assert(list@ =~= argument_list(self@));
        list
    }
}

/// Whether `reply`, the number that the script answered with, admits the
/// request: only the reply 1 does.
pub fn verdict(reply: i32) -> (admitted: bool)
    ensures
        admitted == (reply == 1),
{
    reply == 1
}

/// The entries of the sorted set `entries` inside the window `[start, now]`.
pub open spec fn in_range(entries: Set<u64>, start: int, now: int) -> Set<u64> {
    entries.filter(|t: u64| start <= t <= now)
}

/// What the script decides on a sorted set: it admits where fewer than
/// `capacity` entries lie inside the window `[start, now]`.
pub open spec fn script_admits(entries: Set<u64>, now: int, start: int, capacity: int) -> bool {
    in_range(entries, start, now).len() < capacity
}

/// What the script leaves of a sorted set in which each timestamp is its own
/// score. Where it admits, it adds `now`, which changes nothing if `now` is
/// an entry already, and then removes what is older than `start`; where it
/// rejects, it changes nothing.
pub open spec fn script_after(entries: Set<u64>, now: u64, start: int, capacity: int) -> Set<u64> {
    if script_admits(entries, now as int, start, capacity) {
        entries.insert(now).filter(|t: u64| t >= start)
    } else {
        entries
    }
}

/// The sorted sets of the remote service, by key.
pub type Sets = Map<Seq<char>, Set<u64>>;

/// The sorted set that `sets` holds for `key`: empty where it holds none.
pub open spec fn set_of(sets: Sets, key: Seq<char>) -> Set<u64> {
    if sets.contains_key(key) {
        sets[key]
    } else {
        Set::empty()
    }
}

/// Whether the script admits on the remote service what `run` asks.
pub open spec fn remote_verdict(sets: Sets, run: ScriptRun) -> bool {
    script_admits(set_of(sets, run.key), run.now as int, run.start as int, run.capacity as int)
}

/// The remote service after the script has run as `run` says: a rejected
/// attempt changes nothing.
pub open spec fn remote_step(sets: Sets, run: ScriptRun) -> Sets {
    if remote_verdict(sets, run) {
        sets.insert(
            run.key,
            script_after(set_of(sets, run.key), run.now, run.start as int, run.capacity as int),
        )
    } else {
        sets
    }
}

} // verus!
