//! The two stores side by side: the in-process store, and the sorted sets of
//! the remote service as the admission script leaves them.
//!
//! The in-process store keeps one log for each pair of an identity and a
//! request type. The remote service keeps one sorted set for each key, and
//! two pairs can share a key. What is said here of a pair is said where no
//! other pair of the trace has its key.

use crate::history::{
    admitted_times,
    capacity_bound,
    local_run,
    local_verdicts,
    under_one_quota,
};
use crate::remote::{
    Sets,
    in_range,
    remote_key,
    remote_step,
    remote_verdict,
    script_admits,
    script_after,
    script_run,
    set_of,
};
use crate::request::{Attempt, Pair};
use crate::storage::{local_verdict, log_of};
use crate::window::{
    admits,
    count_within,
    lemma_counted_all,
    lemma_retained_contains,
    lemma_retained_no_duplicates,
    log_after,
    retained,
};
use vstd::prelude::*;

verus! {

/// The remote service after the script has run for the attempts of `trace`,
/// in their order.
pub open spec fn remote_run(sets: Sets, trace: Seq<Attempt>) -> Sets
    decreases trace.len(),
{
    if trace.len() == 0 {
        sets
    } else {
        remote_step(remote_run(sets, trace.drop_last()), script_run(trace.last()))
    }
}

/// The verdicts of the script on the attempts of `trace`, in their order.
pub open spec fn remote_verdicts(sets: Sets, trace: Seq<Attempt>) -> Seq<bool> {
    Seq::new(
        trace.len(),
        |i: int| remote_verdict(remote_run(sets, trace.take(i)), script_run(trace[i])),
    )
}

/// Whether each attempt of `trace` for `pair` comes at a later instant than
/// the one before, with a window that starts no earlier.
pub open spec fn in_order_for(trace: Seq<Attempt>, pair: Pair) -> bool {
    forall|i: int, j: int|
        0 <= i < j < trace.len() && (#[trigger] trace[i]).pair == pair && (#[trigger] trace[j]).pair
            == pair ==> trace[i].now < trace[j].now && trace[i].start <= trace[j].start
}

/// Whether the attempts of `trace` are in order for every pair.
pub open spec fn in_order(trace: Seq<Attempt>) -> bool {
    forall|pair: Pair| in_order_for(trace, pair)
}

/// Whether no other pair of `trace` has the key of `pair` on the remote
/// service.
pub open spec fn alone_on_key(trace: Seq<Attempt>, pair: Pair) -> bool {
    forall|i: int|
        0 <= i < trace.len() && remote_key((#[trigger] trace[i]).pair) == remote_key(pair)
            ==> trace[i].pair == pair
}

/// Whether the pairs of `trace` have keys on the remote service that differ
/// from one pair to the other.
pub open spec fn keys_apart(trace: Seq<Attempt>) -> bool {
    forall|i: int, j: int|
        0 <= i < trace.len() && 0 <= j < trace.len() && remote_key((#[trigger] trace[i]).pair)
            == remote_key((#[trigger] trace[j]).pair) ==> trace[i].pair == trace[j].pair
}

/// Under one quota, attempts at instants of which each is later than the one
/// before are in order: the window moves with the clock.
pub proof fn one_quota_keeps_order(
    trace: Seq<Attempt>,
    pair: Pair,
    window_millis: u64,
    capacity: u32,
)
    requires
        under_one_quota(trace, pair, window_millis, capacity),
        forall|i: int, j: int|
            0 <= i < j < trace.len() && (#[trigger] trace[i]).pair == pair && (
            #[trigger] trace[j]).pair == pair ==> trace[i].now < trace[j].now,
    ensures
        in_order_for(trace, pair),
{
}

/// The instants of the attempts of `trace` for `pair` that the script admits
/// on a service without any sorted set, in their order.
pub open spec fn remote_admitted_times(trace: Seq<Attempt>, pair: Pair) -> Seq<u64>
    decreases trace.len(),
{
    if trace.len() == 0 {
        Seq::empty()
    } else {
        let earlier = remote_admitted_times(trace.drop_last(), pair);
        if trace.last().pair == pair && remote_verdict(
            remote_run(Map::empty(), trace.drop_last()),
            script_run(trace.last()),
        ) {
            earlier.push(trace.last().now)
        } else {
            earlier
        }
    }
}

/// What the two stores have in common before `next`: everything they hold
/// is older than `next`, and from the window start of `next` on they hold the
/// same instants, the log each of them once.
spec fn alike(log: Seq<u64>, entries: Set<u64>, next: Attempt) -> bool {
    &&& log.no_duplicates()
    &&& entries.finite()
    &&& forall|t: u64| log.contains(t) ==> t < next.now
    &&& forall|t: u64| entries.contains(t) ==> t < next.now
    &&& forall|t: u64| t >= next.start ==> (log.contains(t) <==> entries.contains(t))
}

proof fn lemma_alike_same_verdict(log: Seq<u64>, entries: Set<u64>, next: Attempt)
    requires
        alike(log, entries, next),
    ensures
        admits(log, next.now as int, next.start as int, next.capacity as int) == script_admits(
            entries,
            next.now as int,
            next.start as int,
            next.capacity as int,
        ),
{
    let kept = retained(log, next.start as int);
    assert forall|i: int| 0 <= i < kept.len() implies kept[i] <= next.now by {
        assert(kept.contains(kept[i]));
        lemma_retained_contains(log, next.start as int, kept[i]);
    }
    lemma_counted_all(kept, next.now as int);
    lemma_retained_no_duplicates(log, next.start as int);
    kept.unique_seq_to_set();
    let ranged = in_range(entries, next.start as int, next.now as int);
    assert forall|t: u64| ranged.contains(t) <==> kept.to_set().contains(t) by {
        lemma_retained_contains(log, next.start as int, t);
    }
    assert(ranged =~= kept.to_set());
}

proof fn lemma_alike_after(log: Seq<u64>, entries: Set<u64>, attempt: Attempt, next: Attempt)
    requires
        alike(log, entries, attempt),
        alike(log, entries, next),
        attempt.now < next.now,
        attempt.start <= next.start,
    ensures
        alike(
            log_after(log, attempt.now, attempt.start as int, attempt.capacity as int),
            script_after(entries, attempt.now, attempt.start as int, attempt.capacity as int),
            next,
        ),
{
    let start = attempt.start as int;
    let kept = retained(log, start);
    let log2 = log_after(log, attempt.now, start, attempt.capacity as int);
    let entries2 = script_after(entries, attempt.now, start, attempt.capacity as int);
    lemma_alike_same_verdict(log, entries, attempt);
    lemma_retained_no_duplicates(log, start);
    assert forall|t: u64| kept.contains(t) <==> (log.contains(t) && t >= start) by {
        lemma_retained_contains(log, start, t);
    }
    if admits(log, attempt.now as int, start, attempt.capacity as int) {
        assert(log2 == kept.push(attempt.now));
        assert(!kept.contains(attempt.now));
        assert forall|i: int, j: int|
            0 <= i < log2.len() && 0 <= j < log2.len() && i != j implies log2[i] != log2[j] by {
            if i < kept.len() {
                assert(kept.contains(kept[i]));
            }
            if j < kept.len() {
                assert(kept.contains(kept[j]));
            }
        }
        assert forall|t: u64| log2.contains(t) <==> (kept.contains(t) || t == attempt.now) by {
            if kept.contains(t) {
                let i = choose|i: int| 0 <= i < kept.len() && kept[i] == t;
                assert(log2[i] == t);
            }
            if t == attempt.now {
                assert(log2[kept.len() as int] == t);
            }
            if log2.contains(t) {
                let i = choose|i: int| 0 <= i < log2.len() && log2[i] == t;
                if i < kept.len() {
                    assert(kept[i] == t);
                }
            }
        }
        entries.insert(attempt.now).lemma_len_filter(|t: u64| t >= start);
    }
}

/// Before the attempt at `later`, and after the `done` attempts before it,
/// the two stores are alike for its pair.
proof fn lemma_alike_along(trace: Seq<Attempt>, pair: Pair, done: int, later: int)
    requires
        in_order_for(trace, pair),
        alone_on_key(trace, pair),
        0 <= done <= later < trace.len(),
        trace[later].pair == pair,
    ensures
        alike(
            log_of(local_run(Map::empty(), trace.take(done)), pair),
            set_of(remote_run(Map::empty(), trace.take(done)), remote_key(pair)),
            trace[later],
        ),
    decreases done,
{
    if done > 0 {
        let before = trace.take(done - 1);
        let attempt = trace[done - 1];
        assert(trace.take(done).drop_last() =~= before);
        assert(trace.take(done).last() == attempt);
        lemma_alike_along(trace, pair, done - 1, later);
        if attempt.pair == pair {
            let log = log_of(local_run(Map::empty(), before), pair);
            let entries = set_of(remote_run(Map::empty(), before), remote_key(pair));
            lemma_alike_along(trace, pair, done - 1, done - 1);
            lemma_alike_same_verdict(log, entries, attempt);
            lemma_alike_after(log, entries, attempt, trace[later]);
        } else {
            assert(remote_key(attempt.pair) != remote_key(pair));
        }
    } else {
        assert(trace.take(0) =~= Seq::<Attempt>::empty());
    }
}

/// Backend equivalence, pair by pair. Both stores start empty and are asked
/// the same attempts in the same order. Where the attempts for `pair` are in
/// order, as they are under a quota that does not change and a clock that
/// moves on between them, and no other pair of the trace has its key on the
/// remote service, the in-process store and the script give the same verdict
/// on each of them.
pub proof fn backends_agree_for(trace: Seq<Attempt>, pair: Pair)
    requires
        in_order_for(trace, pair),
        alone_on_key(trace, pair),
    ensures
        forall|i: int|
            0 <= i < trace.len() && (#[trigger] trace[i]).pair == pair ==> local_verdicts(
                Map::empty(),
                trace,
            )[i] == remote_verdicts(Map::empty(), trace)[i],
{
    let local = local_verdicts(Map::empty(), trace);
    let remote = remote_verdicts(Map::empty(), trace);
    assert forall|i: int|
        0 <= i < trace.len() && (#[trigger] trace[i]).pair == pair implies local[i]
        == remote[i] by {
        lemma_alike_along(trace, pair, i, i);
        lemma_alike_same_verdict(
            log_of(local_run(Map::empty(), trace.take(i)), pair),
            set_of(remote_run(Map::empty(), trace.take(i)), remote_key(pair)),
            trace[i],
        );
    }
}

/// Backend equivalence. Both stores start empty and are asked the same
/// attempts in the same order, which for every pair are in order, and the
/// keys of the pairs on the remote service differ. Then the in-process store
/// and the script give the same verdicts.
pub proof fn backends_agree(trace: Seq<Attempt>)
    requires
        in_order(trace),
        keys_apart(trace),
    ensures
        local_verdicts(Map::empty(), trace) == remote_verdicts(Map::empty(), trace),
{
    assert forall|i: int| 0 <= i < trace.len() implies local_verdicts(Map::empty(), trace)[i]
        == remote_verdicts(Map::empty(), trace)[i] by {
        assert(in_order_for(trace, trace[i].pair));
        assert(alone_on_key(trace, trace[i].pair));
        backends_agree_for(trace, trace[i].pair);
    }
    assert(local_verdicts(Map::empty(), trace) =~= remote_verdicts(Map::empty(), trace));
}

proof fn lemma_same_admitted_times(trace: Seq<Attempt>, pair: Pair)
    requires
        in_order_for(trace, pair),
        alone_on_key(trace, pair),
    ensures
        remote_admitted_times(trace, pair) == admitted_times(trace, pair),
    decreases trace.len(),
{
    if trace.len() > 0 {
        let before = trace.drop_last();
        assert forall|i: int| 0 <= i < before.len() implies #[trigger] before[i] == trace[i] by {}
        lemma_same_admitted_times(before, pair);
        if trace.last().pair == pair {
            let at = trace.len() - 1;
            assert(trace.take(at) =~= before);
            assert(trace[at] == trace.last());
            backends_agree_for(trace, pair);
            assert(local_verdicts(Map::empty(), trace)[at] == local_verdict(
                local_run(Map::empty(), before),
                trace.last(),
            ));
            assert(remote_verdicts(Map::empty(), trace)[at] == remote_verdict(
                remote_run(Map::empty(), before),
                script_run(trace.last()),
            ));
        }
    }
}

/// The capacity bound of the remote store. Take the attempts for one pair,
/// made under one quota and in order, against a service that starts without
/// any sorted set and on which no other pair of the trace has the key of
/// this one: of those that the script admits, no more than `capacity` lie
/// within any span of `window_millis` milliseconds.
pub proof fn remote_capacity_bound(
    trace: Seq<Attempt>,
    pair: Pair,
    window_millis: u64,
    capacity: u32,
    from: int,
)
    requires
        under_one_quota(trace, pair, window_millis, capacity),
        in_order_for(trace, pair),
        alone_on_key(trace, pair),
    ensures
        count_within(remote_admitted_times(trace, pair), from, from + window_millis) <= capacity,
{
    lemma_same_admitted_times(trace, pair);
    capacity_bound(trace, pair, window_millis, capacity, from);
}

} // verus!
