use ratelimiter_rs::window::{attempt, clamped_start, count_through, evict};

#[test]
fn clamped_start_is_the_difference_or_zero() {
    assert_eq!(clamped_start(16000, 15000), 1000);
    assert_eq!(clamped_start(15000, 15000), 0);
    assert_eq!(clamped_start(2000, 15000), 0);
    assert_eq!(clamped_start(0, 0), 0);
    assert_eq!(clamped_start(u64::MAX, 1), u64::MAX - 1);
    assert_eq!(clamped_start(0, u64::MAX), 0);
}

#[test]
fn evict_keeps_entries_from_the_start_on_in_order() {
    assert_eq!(evict(&vec![5, 1, 9, 3, 7], 4), vec![5, 9, 7]);
    assert_eq!(evict(&vec![3, 4, 5], 4), vec![4, 5]);
    assert_eq!(evict(&vec![1, 2, 3], 0), vec![1, 2, 3]);
    assert_eq!(evict(&vec![1, 2, 3], 4), Vec::<u64>::new());
    assert_eq!(evict(&Vec::new(), 4), Vec::<u64>::new());
    assert_eq!(evict(&vec![7, 7], 7), vec![7, 7]);
}

#[test]
fn count_through_counts_entries_up_to_now() {
    assert_eq!(count_through(&vec![1, 2, 3, 10], 3), 3);
    assert_eq!(count_through(&vec![1, 2, 3, 10], 0), 0);
    assert_eq!(count_through(&vec![1, 2, 3, 10], 10), 4);
    assert_eq!(count_through(&Vec::new(), 10), 0);
}

#[test]
fn attempt_evicts_counts_and_records() {
    assert_eq!(attempt(&vec![0, 1000], 16000, 1000, 2), (vec![1000, 16000], true));
    assert_eq!(attempt(&vec![0, 1000], 2000, 0, 2), (vec![0, 1000], false));
    assert_eq!(attempt(&Vec::new(), 5, 0, 1), (vec![5], true));
    assert_eq!(attempt(&Vec::new(), 5, 0, 0), (Vec::<u64>::new(), false));
}

#[test]
fn a_rejected_attempt_still_evicts() {
    assert_eq!(attempt(&vec![1, 50, 60], 70, 40, 2), (vec![50, 60], false));
}

#[test]
fn entries_later_than_now_are_kept_but_not_counted() {
    assert_eq!(attempt(&vec![100], 95, 85, 1), (vec![100, 95], true));
}
