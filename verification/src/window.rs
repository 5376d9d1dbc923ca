//! The admission rule on one window log.
//!
//! A window log is the sequence of timestamps, in milliseconds, of the
//! requests that were admitted for one identity and request type, in the order
//! of their arrival.

use vstd::prelude::*;

verus! {

/// The first instant of the window of length `window_millis` that ends at
/// `now`. It is negative while `now` is smaller than the window's length.
pub open spec fn window_start(now: u64, window_millis: u64) -> int {
    now - window_millis
}

/// The entries of `log` that are not older than `start`, in their order.
pub open spec fn retained(log: Seq<u64>, start: int) -> Seq<u64> {
    log.filter(|t: u64| t >= start)
}

/// The number of entries of `log` that are not later than `now`.
pub open spec fn counted(log: Seq<u64>, now: int) -> nat {
    log.filter(|t: u64| t <= now).len()
}

/// The number of entries of `log` inside the window `[start, now]`.
pub open spec fn occupancy(log: Seq<u64>, start: int, now: int) -> nat {
    counted(retained(log, start), now)
}

/// Whether a request at `now` is admitted against `log`: fewer than
/// `capacity` entries lie inside the window `[start, now]`.
pub open spec fn admits(log: Seq<u64>, now: int, start: int, capacity: int) -> bool {
    occupancy(log, start, now) < capacity
}

/// The log after a request at `now`: entries older than `start` are gone, and
/// `now` is appended if the request was admitted.
pub open spec fn log_after(log: Seq<u64>, now: u64, start: int, capacity: int) -> Seq<u64> {
    if admits(log, now as int, start, capacity) {
        retained(log, start).push(now)
    } else {
        retained(log, start)
    }
}

/// Eviction looks at one entry at a time: the last entry stays exactly when it
/// is not older than `start`.
pub proof fn lemma_retained_push(log: Seq<u64>, t: u64, start: int)
    ensures
        retained(log.push(t), start) == if t >= start {
            retained(log, start).push(t)
        } else {
            retained(log, start)
        },
{
    reveal(Seq::filter);
    assert(log.push(t).drop_last() =~= log);
}

/// Counting looks at one entry at a time.
pub proof fn lemma_counted_push(log: Seq<u64>, t: u64, now: int)
    ensures
        counted(log.push(t), now) == counted(log, now) + if t <= now {
            1nat
        } else {
            0nat
        },
{
    reveal(Seq::filter);
    assert(log.push(t).drop_last() =~= log);
}

/// On timestamps, which are never negative, a window start below zero evicts
/// exactly what the start zero evicts.
pub proof fn lemma_retained_below_zero(log: Seq<u64>, start: int)
    requires
        start <= 0,
    ensures
        retained(log, start) == log,
        retained(log, 0) == log,
    decreases log.len(),
{
    reveal(Seq::filter);
    if log.len() > 0 {
        lemma_retained_below_zero(log.drop_last(), start);
        assert(log.drop_last().push(log.last()) =~= log);
    }
}

/// The number of entries of `log` inside `[from, to]`.
pub open spec fn count_within(log: Seq<u64>, from: int, to: int) -> nat {
    log.filter(|t: u64| from <= t <= to).len()
}

/// Counting inside a range looks at one entry at a time.
pub proof fn lemma_count_within_push(log: Seq<u64>, t: u64, from: int, to: int)
    ensures
        count_within(log.push(t), from, to) == count_within(log, from, to) + if from <= t <= to {
            1nat
        } else {
            0nat
        },
{
    reveal(Seq::filter);
    assert(log.push(t).drop_last() =~= log);
}

proof fn lemma_push_contains(log: Seq<u64>, last: u64, t: u64)
    ensures
        log.push(last).contains(t) <==> (log.contains(t) || t == last),
{
    if log.contains(t) {
        let i = choose|i: int| 0 <= i < log.len() && log[i] == t;
        assert(log.push(last)[i] == t);
    }
    if t == last {
        assert(log.push(last)[log.len() as int] == t);
    }
    if log.push(last).contains(t) {
        let i = choose|i: int| 0 <= i < log.push(last).len() && log.push(last)[i] == t;
        if i < log.len() {
            assert(log[i] == t);
        }
    }
}

/// Eviction keeps exactly the entries that are not older than `start`.
pub proof fn lemma_retained_contains(log: Seq<u64>, start: int, t: u64)
    ensures
        retained(log, start).contains(t) <==> (log.contains(t) && t >= start),
    decreases log.len(),
{
    if log.len() == 0 {
        reveal(Seq::filter);
    } else {
        let rest = log.drop_last();
        let last = log.last();
        assert(rest.push(last) =~= log);
        lemma_retained_contains(rest, start, t);
        lemma_retained_push(rest, last, start);
        lemma_push_contains(rest, last, t);
        lemma_push_contains(retained(rest, start), last, t);
    }
}

/// Evicting twice is evicting once, with the later of the two starts.
pub proof fn lemma_retained_twice(log: Seq<u64>, earlier: int, later: int)
    requires
        earlier <= later,
    ensures
        retained(retained(log, earlier), later) == retained(log, later),
    decreases log.len(),
{
    if log.len() == 0 {
        reveal(Seq::filter);
    } else {
        let rest = log.drop_last();
        let last = log.last();
        assert(rest.push(last) =~= log);
        lemma_retained_twice(rest, earlier, later);
        lemma_retained_push(rest, last, earlier);
        lemma_retained_push(rest, last, later);
        if last >= earlier {
            lemma_retained_push(retained(rest, earlier), last, later);
        }
    }
}

/// Eviction brings no entry in twice.
pub proof fn lemma_retained_no_duplicates(log: Seq<u64>, start: int)
    requires
        log.no_duplicates(),
    ensures
        retained(log, start).no_duplicates(),
    decreases log.len(),
{
    if log.len() == 0 {
        reveal(Seq::filter);
    } else {
        let rest = log.drop_last();
        let last = log.last();
        assert(rest.push(last) =~= log);
        lemma_retained_no_duplicates(rest, start);
        lemma_retained_push(rest, last, start);
        if last >= start {
            lemma_retained_contains(rest, start, last);
            let kept = retained(rest, start);
            let all = kept.push(last);
            assert(!rest.contains(last)) by {
                if rest.contains(last) {
                    let i = choose|i: int| 0 <= i < rest.len() && rest[i] == last;
                    assert(log[i] == log[log.len() - 1]);
                }
            }
            assert forall|i: int, j: int|
                0 <= i < all.len() && 0 <= j < all.len() && i != j implies all[i] != all[j] by {
                if i < kept.len() {
                    assert(kept.contains(kept[i]));
                }
                if j < kept.len() {
                    assert(kept.contains(kept[j]));
                }
            }
        }
    }
}

/// Where no entry is later than `now`, every entry is counted.
pub proof fn lemma_counted_all(log: Seq<u64>, now: int)
    requires
        forall|i: int| 0 <= i < log.len() ==> log[i] <= now,
    ensures
        counted(log, now) == log.len(),
    decreases log.len(),
{
    if log.len() == 0 {
        reveal(Seq::filter);
    } else {
        let rest = log.drop_last();
        assert(rest.push(log.last()) =~= log);
        lemma_counted_all(rest, now);
        lemma_counted_push(rest, log.last(), now);
    }
}

/// A range that begins at `start` or later holds no more entries than
/// eviction at `start` keeps.
pub proof fn lemma_count_within_retained(log: Seq<u64>, start: int, from: int, to: int)
    requires
        start <= from,
    ensures
        count_within(log, from, to) <= retained(log, start).len(),
    decreases log.len(),
{
    if log.len() == 0 {
        reveal(Seq::filter);
    } else {
        let rest = log.drop_last();
        assert(rest.push(log.last()) =~= log);
        lemma_count_within_retained(rest, start, from, to);
        lemma_count_within_push(rest, log.last(), from, to);
        lemma_retained_push(rest, log.last(), start);
    }
}

/// What an attempt leaves behind: a log without any entry older than the
/// window and, where the request was admitted, with no more than `capacity`
/// entries inside the window.
pub proof fn log_after_fits_window(log: Seq<u64>, now: u64, start: int, capacity: int)
    requires
        start <= now,
    ensures
        forall|i: int|
            0 <= i < log_after(log, now, start, capacity).len() ==> log_after(
                log,
                now,
                start,
                capacity,
            )[i] >= start,
        admits(log, now as int, start, capacity) ==> occupancy(
            log_after(log, now, start, capacity),
            start,
            now as int,
        ) == occupancy(log, start, now as int) + 1,
        admits(log, now as int, start, capacity) ==> occupancy(
            log_after(log, now, start, capacity),
            start,
            now as int,
        ) <= capacity,
{
    let kept = retained(log, start);
    let after = log_after(log, now, start, capacity);
    assert forall|i: int| 0 <= i < after.len() implies after[i] >= start by {
        if i < kept.len() {
            assert(kept.contains(kept[i]));
            lemma_retained_contains(log, start, kept[i]);
        }
    }
    if admits(log, now as int, start, capacity) {
        lemma_retained_twice(log, start, start);
        lemma_retained_push(kept, now, start);
        lemma_counted_push(kept, now, now as int);
    }
}

/// The window start as a machine integer, zero where `now - window_millis`
/// would be negative.
pub open spec fn clamped_window_start(now: u64, window_millis: u64) -> u64 {
    if now >= window_millis {
        (now - window_millis) as u64
    } else {
        0
    }
}

/// With the clamped window start an attempt has the outcome that it has with
/// the window start itself.
pub proof fn lemma_clamping_changes_nothing(
    log: Seq<u64>,
    now: u64,
    window_millis: u64,
    capacity: int,
)
    ensures
        ({
            let clamped = clamped_window_start(now, window_millis) as int;
            let start = window_start(now, window_millis);
            &&& retained(log, clamped) == retained(log, start)
            &&& admits(log, now as int, clamped, capacity) == admits(
                log,
                now as int,
                start,
                capacity,
            )
            &&& log_after(log, now, clamped, capacity) == log_after(log, now, start, capacity)
        }),
{
    if now < window_millis {
        lemma_retained_below_zero(log, window_start(now, window_millis));
    }
}

/// Computes the clamped window start.
pub fn clamped_start(now: u64, window_millis: u64) -> (start: u64)
    ensures
        start == clamped_window_start(now, window_millis),
{
    if now >= window_millis {
        now - window_millis
    } else {
        0
    }
}

/// Copies the entries of `log` that are not older than `start`.
pub fn evict(log: &Vec<u64>, start: u64) -> (kept: Vec<u64>)
    ensures
        kept@ == retained(log@, start as int),
{
    let mut kept: Vec<u64> = Vec::new();
    let mut i: usize = 0;
    proof {
        reveal(Seq::filter);
        assert(log@.subrange(0, 0) =~= Seq::<u64>::empty());
    }
    while i < log.len()
        invariant
            i <= log.len(),
            kept@ == retained(log@.subrange(0, i as int), start as int),
        decreases log.len() - i,
    {
        let t: u64 = log[i];
        proof {
            lemma_retained_push(log@.subrange(0, i as int), t, start as int);
            assert(log@.subrange(0, i as int).push(t) =~= log@.subrange(0, i + 1));
        }
        if t >= start {
            kept.push(t);
        }
        i = i + 1;
    }
    proof {
        assert(log@.subrange(0, log.len() as int) =~= log@);
    }
    kept
}

/// Counts the entries of `log` that are not later than `now`.
pub fn count_through(log: &Vec<u64>, now: u64) -> (n: usize)
    ensures
        n == counted(log@, now as int),
{
    let mut n: usize = 0;
    let mut i: usize = 0;
    proof {
        reveal(Seq::filter);
        assert(log@.subrange(0, 0) =~= Seq::<u64>::empty());
    }
    while i < log.len()
        invariant
            i <= log.len(),
            n <= i,
            n == counted(log@.subrange(0, i as int), now as int),
        decreases log.len() - i,
    {
        let t: u64 = log[i];
        proof {
            lemma_counted_push(log@.subrange(0, i as int), t, now as int);
            assert(log@.subrange(0, i as int).push(t) =~= log@.subrange(0, i + 1));
        }
        if t <= now {
            n = n + 1;
        }
        i = i + 1;
    }
    proof {
        assert(log@.subrange(0, log.len() as int) =~= log@);
    }
    n
}

/// One admission attempt at `now` against `log`, for the window that starts
/// at `start`: evicts, counts, and records `now` if the quota has room.
pub fn attempt(log: &Vec<u64>, now: u64, start: u64, capacity: u32) -> (outcome: (Vec<u64>, bool))
    ensures
        outcome.1 == admits(log@, now as int, start as int, capacity as int),
        outcome.0@ == log_after(log@, now, start as int, capacity as int),
{
    let mut kept = evict(log, start);
    let in_window = count_through(&kept, now);
    if in_window < capacity as usize {
        kept.push(now);
        (kept, true)
    } else {
        (kept, false)
    }
}

} // verus!
