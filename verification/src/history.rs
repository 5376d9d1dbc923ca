//! Runs of admission attempts against the in-process store, and what holds
//! of every run: a quota is never exceeded within a window, and the log of a
//! pair of an identity and a request type depends on the attempts for that
//! pair alone.

use crate::request::{Attempt, Pair};
use crate::storage::{Logs, local_step, local_verdict, log_of};
use crate::window::{
    clamped_window_start,
    count_within,
    lemma_clamping_changes_nothing,
    lemma_count_within_push,
    lemma_count_within_retained,
    lemma_counted_all,
    lemma_retained_contains,
    lemma_retained_push,
    lemma_retained_twice,
    retained,
    window_start,
};
use vstd::prelude::*;

verus! {

/// The in-process store after the attempts of `trace`, in their order.
pub open spec fn local_run(logs: Logs, trace: Seq<Attempt>) -> Logs
    decreases trace.len(),
{
    if trace.len() == 0 {
        logs
    } else {
        local_step(local_run(logs, trace.drop_last()), trace.last())
    }
}

/// The verdicts of the in-process store on the attempts of `trace`, in their
/// order.
pub open spec fn local_verdicts(logs: Logs, trace: Seq<Attempt>) -> Seq<bool> {
    Seq::new(trace.len(), |i: int| local_verdict(local_run(logs, trace.take(i)), trace[i]))
}

/// The instants of the attempts of `trace` for `pair` that a store without
/// any log admits, in their order.
pub open spec fn admitted_times(trace: Seq<Attempt>, pair: Pair) -> Seq<u64>
    decreases trace.len(),
{
    if trace.len() == 0 {
        Seq::empty()
    } else {
        let earlier = admitted_times(trace.drop_last(), pair);
        if trace.last().pair == pair && local_verdict(
            local_run(Map::empty(), trace.drop_last()),
            trace.last(),
        ) {
            earlier.push(trace.last().now)
        } else {
            earlier
        }
    }
}

/// Whether the attempts of `trace` for `pair` are made under one quota, of
/// `capacity` admissions per `window_millis` milliseconds, and at instants
/// that never go back.
pub open spec fn under_one_quota(
    trace: Seq<Attempt>,
    pair: Pair,
    window_millis: u64,
    capacity: u32,
) -> bool {
    &&& forall|i: int|
        0 <= i < trace.len() && (#[trigger] trace[i]).pair == pair ==> trace[i].capacity == capacity
            && trace[i].start == clamped_window_start(trace[i].now, window_millis)
    &&& forall|i: int, j: int|
        0 <= i <= j < trace.len() && (#[trigger] trace[i]).pair == pair && (
        #[trigger] trace[j]).pair == pair ==> trace[i].now <= trace[j].now
}

/// The window start of the last attempt of `trace` for `pair`: zero where
/// there is none.
spec fn last_start(trace: Seq<Attempt>, pair: Pair) -> u64
    decreases trace.len(),
{
    if trace.len() == 0 {
        0
    } else if trace.last().pair == pair {
        trace.last().start
    } else {
        last_start(trace.drop_last(), pair)
    }
}

/// Whether no attempt of `trace` for `pair` comes later than `now`.
spec fn none_later(trace: Seq<Attempt>, pair: Pair, now: u64) -> bool {
    forall|i: int|
        0 <= i < trace.len() && (#[trigger] trace[i]).pair == pair ==> trace[i].now <= now
}

proof fn lemma_none_later_before(trace: Seq<Attempt>, pair: Pair, now: u64)
    requires
        none_later(trace, pair, now),
        trace.len() > 0,
    ensures
        none_later(trace.drop_last(), pair, now),
        trace.last().pair == pair ==> trace.last().now <= now,
{
    let before = trace.drop_last();
    assert forall|i: int| 0 <= i < before.len() implies #[trigger] before[i] == trace[i] by {}
    assert(trace[trace.len() - 1] == trace.last());
}

proof fn lemma_one_quota_before(
    trace: Seq<Attempt>,
    pair: Pair,
    window_millis: u64,
    capacity: u32,
)
    requires
        under_one_quota(trace, pair, window_millis, capacity),
        trace.len() > 0,
    ensures
        under_one_quota(trace.drop_last(), pair, window_millis, capacity),
        trace.last().pair == pair ==> {
            &&& trace.last().capacity == capacity
            &&& trace.last().start == clamped_window_start(trace.last().now, window_millis)
            &&& none_later(trace.drop_last(), pair, trace.last().now)
        },
{
    let before = trace.drop_last();
    assert forall|i: int| 0 <= i < before.len() implies #[trigger] before[i] == trace[i] by {}
    assert(trace[trace.len() - 1] == trace.last());
}

proof fn lemma_last_start_bounded(
    trace: Seq<Attempt>,
    pair: Pair,
    window_millis: u64,
    capacity: u32,
    now: u64,
)
    requires
        under_one_quota(trace, pair, window_millis, capacity),
        none_later(trace, pair, now),
    ensures
        last_start(trace, pair) <= clamped_window_start(now, window_millis),
    decreases trace.len(),
{
    if trace.len() > 0 {
        lemma_one_quota_before(trace, pair, window_millis, capacity);
        lemma_none_later_before(trace, pair, now);
        if trace.last().pair != pair {
            lemma_last_start_bounded(trace.drop_last(), pair, window_millis, capacity, now);
        }
    }
}

proof fn lemma_admitted_times_bounded(trace: Seq<Attempt>, pair: Pair, now: u64)
    requires
        none_later(trace, pair, now),
    ensures
        forall|i: int|
            0 <= i < admitted_times(trace, pair).len() ==> admitted_times(trace, pair)[i] <= now,
    decreases trace.len(),
{
    if trace.len() > 0 {
        lemma_none_later_before(trace, pair, now);
        lemma_admitted_times_bounded(trace.drop_last(), pair, now);
        let earlier = admitted_times(trace.drop_last(), pair);
        let all = admitted_times(trace, pair);
        assert forall|i: int| 0 <= i < all.len() implies all[i] <= now by {
            if i < earlier.len() {
                assert(all[i] == earlier[i]);
            }
        }
    }
}

/// Under one quota, the log of `pair` is what eviction at the last window
/// start keeps of the admitted instants.
proof fn lemma_log_is_recent_history(
    trace: Seq<Attempt>,
    pair: Pair,
    window_millis: u64,
    capacity: u32,
)
    requires
        under_one_quota(trace, pair, window_millis, capacity),
    ensures
        log_of(local_run(Map::empty(), trace), pair) == retained(
            admitted_times(trace, pair),
            last_start(trace, pair) as int,
        ),
    decreases trace.len(),
{
    if trace.len() == 0 {
        reveal(Seq::filter);
    } else {
        let before = trace.drop_last();
        let last = trace.last();
        lemma_one_quota_before(trace, pair, window_millis, capacity);
        lemma_log_is_recent_history(before, pair, window_millis, capacity);
        if last.pair == pair {
            let history = admitted_times(before, pair);
            lemma_last_start_bounded(before, pair, window_millis, capacity, last.now);
            lemma_retained_twice(history, last_start(before, pair) as int, last.start as int);
            lemma_retained_push(history, last.now, last.start as int);
        }
    }
}

/// The capacity bound. Take the attempts for one pair, made under one quota
/// at instants that never go back, against a store that starts without any
/// log: of the admitted ones, no more than `capacity` lie within any span
/// of `window_millis` milliseconds, whichever instant `from` the span begins
/// at.
pub proof fn capacity_bound(
    trace: Seq<Attempt>,
    pair: Pair,
    window_millis: u64,
    capacity: u32,
    from: int,
)
    requires
        under_one_quota(trace, pair, window_millis, capacity),
    ensures
        count_within(admitted_times(trace, pair), from, from + window_millis) <= capacity,
    decreases trace.len(),
{
    if trace.len() == 0 {
        reveal(Seq::filter);
    } else {
        let before = trace.drop_last();
        let last = trace.last();
        let history = admitted_times(before, pair);
        let start = window_start(last.now, window_millis);
        let kept = retained(history, start);
        lemma_one_quota_before(trace, pair, window_millis, capacity);
        capacity_bound(before, pair, window_millis, capacity, from);
        lemma_count_within_push(history, last.now, from, from + window_millis);
        if last.pair == pair && local_verdict(local_run(Map::empty(), before), last) && from
            <= last.now <= from + window_millis {
            // The log that the attempt met is `kept`, all of it counted.
            lemma_log_is_recent_history(before, pair, window_millis, capacity);
            lemma_last_start_bounded(before, pair, window_millis, capacity, last.now);
            lemma_retained_twice(history, last_start(before, pair) as int, last.start as int);
            lemma_clamping_changes_nothing(history, last.now, window_millis, capacity as int);
            lemma_admitted_times_bounded(before, pair, last.now);
            assert forall|i: int| 0 <= i < kept.len() implies kept[i] <= last.now by {
                assert(kept.contains(kept[i]));
                lemma_retained_contains(history, start, kept[i]);
            }
            lemma_counted_all(kept, last.now as int);
            // The span begins no earlier than the window of the attempt.
            lemma_count_within_retained(history, start, from, from + window_millis);
        }
    }
}

/// The attempts of `trace` for `pair`, in their order.
pub open spec fn attempts_for(trace: Seq<Attempt>, pair: Pair) -> Seq<Attempt> {
    trace.filter(|attempt: Attempt| attempt.pair == pair)
}

/// The log of a pair depends on the attempts for that pair alone: it is what
/// it would be had the other attempts not been made.
pub proof fn log_depends_on_own_attempts(logs: Logs, trace: Seq<Attempt>, pair: Pair)
    ensures
        log_of(local_run(logs, trace), pair) == log_of(
            local_run(logs, attempts_for(trace, pair)),
            pair,
        ),
    decreases trace.len(),
{
    reveal(Seq::filter);
    if trace.len() > 0 {
        log_depends_on_own_attempts(logs, trace.drop_last(), pair);
        if trace.last().pair == pair {
            let own = attempts_for(trace.drop_last(), pair);
            assert(own.push(trace.last()).drop_last() =~= own);
        }
    }
}

/// The log of a pair is untouched by the attempts for other pairs.
pub proof fn other_pairs_leave_log(logs: Logs, trace: Seq<Attempt>, pair: Pair)
    requires
        forall|i: int| 0 <= i < trace.len() ==> (#[trigger] trace[i]).pair != pair,
    ensures
        log_of(local_run(logs, trace), pair) == log_of(logs, pair),
        forall|attempt: Attempt|
            attempt.pair == pair ==> #[trigger] local_verdict(local_run(logs, trace), attempt)
                == local_verdict(logs, attempt),
    decreases trace.len(),
{
    if trace.len() > 0 {
        let before = trace.drop_last();
        assert forall|i: int| 0 <= i < before.len() implies (#[trigger] before[i]).pair != pair by {
            assert(before[i] == trace[i]);
        }
        other_pairs_leave_log(logs, before, pair);
        assert(trace[trace.len() - 1] == trace.last());
    }
}

/// Request types are independent. Whatever is attempted for one request type
/// of an identity, and however often, the log of another request type of
/// that identity stays as it was, and so does the verdict on every attempt
/// for it.
pub proof fn request_types_are_independent(
    logs: Logs,
    identity: Seq<char>,
    request_type: Seq<char>,
    other_type: Seq<char>,
    trace: Seq<Attempt>,
)
    requires
        request_type != other_type,
        forall|i: int|
            0 <= i < trace.len() ==> (#[trigger] trace[i]).pair == (identity, request_type),
    ensures
        log_of(local_run(logs, trace), (identity, other_type)) == log_of(
            logs,
            (identity, other_type),
        ),
        forall|attempt: Attempt|
            attempt.pair == (identity, other_type) ==> #[trigger] local_verdict(
                local_run(logs, trace),
                attempt,
            ) == local_verdict(logs, attempt),
{
    other_pairs_leave_log(logs, trace, (identity, other_type));
}

/// Identities are independent. Whatever is attempted by one identity, for
/// whichever request types and however often, the logs of another identity
/// stay as they were, and so does the verdict on every attempt of that other
/// identity.
pub proof fn identities_are_independent(
    logs: Logs,
    identity: Seq<char>,
    other_identity: Seq<char>,
    trace: Seq<Attempt>,
)
    requires
        identity != other_identity,
        forall|i: int| 0 <= i < trace.len() ==> (#[trigger] trace[i]).pair.0 == identity,
    ensures
        forall|request_type: Seq<char>| #[trigger]
            log_of(local_run(logs, trace), (other_identity, request_type)) == log_of(
                logs,
                (other_identity, request_type),
            ),
        forall|attempt: Attempt|
            attempt.pair.0 == other_identity ==> #[trigger] local_verdict(
                local_run(logs, trace),
                attempt,
            ) == local_verdict(logs, attempt),
{
    assert forall|request_type: Seq<char>| #[trigger]
        log_of(local_run(logs, trace), (other_identity, request_type)) == log_of(
            logs,
            (other_identity, request_type),
        ) by {
        other_pairs_leave_log(logs, trace, (other_identity, request_type));
    }
    assert forall|attempt: Attempt|
        attempt.pair.0 == other_identity implies #[trigger] local_verdict(
        local_run(logs, trace),
        attempt,
    ) == local_verdict(logs, attempt) by {
        other_pairs_leave_log(logs, trace, attempt.pair);
    }
}

} // verus!
