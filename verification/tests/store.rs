use ratelimiter_rs::storage::LocalStore;
use std::collections::BTreeSet;

#[test]
fn a_new_store_holds_no_log() {
    let store = LocalStore::new();
    assert_eq!(store.log("user", "type"), Vec::<u64>::new());
}

#[test]
fn an_attempt_changes_the_log_of_its_key_only() {
    let mut store = LocalStore::new();
    assert!(store.attempt("a", "t", 10, 0, 2));
    assert!(store.attempt("b", "t", 11, 0, 2));
    assert!(store.attempt("a", "t", 12, 0, 2));
    assert!(!store.attempt("a", "t", 13, 0, 2));
    assert_eq!(store.log("a", "t"), vec![10, 12]);
    assert_eq!(store.log("b", "t"), vec![11]);
    assert_eq!(store.log("a", "u"), Vec::<u64>::new());
}

#[test]
fn eviction_happens_at_the_next_attempt_only() {
    let mut store = LocalStore::new();
    assert!(store.attempt("k", "t", 10, 0, 1));
    assert_eq!(store.log("k", "t"), vec![10]);
    assert!(store.attempt("k", "t", 1011, 11, 1));
    assert_eq!(store.log("k", "t"), vec![1011]);
}

#[test]
fn exhausting_one_key_leaves_the_others_as_they_were() {
    let mut store = LocalStore::new();
    assert!(store.attempt("user", "type2", 5, 0, 3));
    let before = store.log("user", "type2");
    for now in 6..40 {
        store.attempt("user", "type1", now, 0, 2);
        store.attempt("other", "type2", now, 0, 2);
        store.attempt("user:type2", "", now, 0, 2);
        store.attempt("", "user:type2", now, 0, 2);
        store.attempt("use", "r:type2", now, 0, 2);
    }
    assert_eq!(store.log("user", "type2"), before);
    assert!(store.attempt("user", "type2", 40, 0, 3));
}

#[test]
fn no_window_holds_more_admissions_than_the_capacity() {
    let capacity: u32 = 3;
    let window: u64 = 50;
    let mut store = LocalStore::new();
    let mut admitted: Vec<u64> = Vec::new();
    let mut now: u64 = 0;
    for step in 0..400u64 {
        now += (step * 7) % 5;
        let start = now.saturating_sub(window);
        if store.attempt("k", "t", now, start, capacity) {
            admitted.push(now);
        }
    }
    assert!(admitted.len() > capacity as usize);
    for from in 0..=now {
        let inside = admitted.iter().filter(|t| from <= **t && **t <= from + window).count();
        assert!(inside <= capacity as usize);
    }
}

#[test]
fn the_script_on_a_sorted_set_gives_the_same_verdicts() {
    let capacity: u32 = 3;
    let window: u64 = 40;
    let mut store = LocalStore::new();
    let mut sorted_set: BTreeSet<u64> = BTreeSet::new();
    let mut now: u64 = 0;
    let mut verdicts: Vec<bool> = Vec::new();
    for step in 0..300u64 {
        now += 1 + (step * 11) % 17;
        let start = now.saturating_sub(window);
        let local = store.attempt("k", "t", now, start, capacity);
        let counted = sorted_set.range(start..=now).count();
        let remote = counted < capacity as usize;
        if remote {
            sorted_set.insert(now);
            sorted_set = sorted_set.split_off(&start);
        }
        assert_eq!(local, remote);
        verdicts.push(local);
    }
    assert!(verdicts.contains(&true));
    assert!(verdicts.contains(&false));
}

#[test]
fn an_admission_of_one_pair_leaves_the_log_of_a_pair_with_the_same_joined_text_empty() {
    let mut store = LocalStore::new();
    assert!(store.attempt("a", "b:c", 20000, 10000, 1));
    assert_eq!(store.log("a:b", "c"), Vec::<u64>::new());
    assert_eq!(store.log("a", "b:c"), vec![20000]);
}
