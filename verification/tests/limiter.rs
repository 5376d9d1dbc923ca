use ratelimiter_rs::error::RateLimiterError;
use ratelimiter_rs::rate_limiter::{Config, RateLimiter};
use ratelimiter_rs::remote::RemoteCall;
use ratelimiter_rs::storage::{Decision, Storage};
use std::time::{Duration, Instant};

fn pause(millis: u64) {
    let until = Instant::now() + Duration::from_millis(millis);
    while Instant::now() < until {
        std::hint::spin_loop();
    }
}

fn settled(limiter: &RateLimiter, user_id: &str, request_type: &str, now: u64) -> bool {
    match limiter.allowed_at(user_id, request_type, now) {
        Ok(Decision::Settled(admitted)) => admitted,
        other => panic!("not settled: {:?}", other),
    }
}

#[test]
fn test_with_in_memory() {
    let mut limiter = RateLimiter::with_in_memory();
    limiter.add_config("type1", 2, 5000).add_config("type2", 10, 30000);

    let user_id = "user12345";
    for _ in 0..2 {
        let is_allowed = limiter.allowed(user_id, "type1").unwrap();
        pause(1000);
        assert_eq!(is_allowed, Decision::Settled(true));
    }

    for _ in 0..2 {
        let is_allowed = limiter.allowed(user_id, "type1").unwrap();
        assert_eq!(is_allowed, Decision::Settled(false));
        pause(1000);
    }
}

#[test]
fn four_calls_with_the_first_leaving_the_window() {
    let mut limiter = RateLimiter::with_in_memory();
    limiter.add_config("type1", 2, 15000);
    assert!(settled(&limiter, "user12345", "type1", 0));
    assert!(settled(&limiter, "user12345", "type1", 1000));
    assert!(!settled(&limiter, "user12345", "type1", 2000));
    assert!(settled(&limiter, "user12345", "type1", 16000));
}

#[test]
fn window_slides_past_the_first_admission() {
    let mut limiter = RateLimiter::with_in_memory();
    limiter.add_config("type1", 2, 5000);
    let t0 = 1_700_000_000_000;
    assert!(settled(&limiter, "u", "type1", t0));
    assert!(settled(&limiter, "u", "type1", t0));
    assert!(!settled(&limiter, "u", "type1", t0));
    assert!(!settled(&limiter, "u", "type1", t0 + 5000));
    assert!(settled(&limiter, "u", "type1", t0 + 5001));
}

#[test]
fn entry_at_the_window_start_still_counts() {
    let mut limiter = RateLimiter::with_in_memory();
    limiter.add_config("t", 1, 1000);
    assert!(settled(&limiter, "u", "t", 5000));
    assert!(!settled(&limiter, "u", "t", 6000));
    assert!(settled(&limiter, "u", "t", 6001));
}

#[test]
fn unknown_request_type_is_denied_not_failed() {
    let mut limiter = RateLimiter::with_in_memory();
    assert_eq!(limiter.allowed("id", "nonexistent"), Ok(Decision::Settled(false)));
    assert_eq!(limiter.allowed_at("id", "nonexistent", 7), Ok(Decision::Settled(false)));
    limiter.add_config("type1", 5, 60000);
    assert_eq!(limiter.allowed("id", "nonexistent"), Ok(Decision::Settled(false)));
    assert_eq!(limiter.allowed("id", "Type1"), Ok(Decision::Settled(false)));
    assert_eq!(limiter.allowed("id", "type1"), Ok(Decision::Settled(true)));
}

#[test]
fn unknown_request_type_is_denied_by_a_remote_limiter() {
    let limiter = RateLimiter::with_redis("redis://127.0.0.1/").unwrap();
    assert_eq!(limiter.allowed("id", "nonexistent"), Ok(Decision::Settled(false)));
    assert_eq!(limiter.allowed_at("id", "nonexistent", 0), Ok(Decision::Settled(false)));
}

#[test]
fn request_types_do_not_share_a_quota() {
    let mut limiter = RateLimiter::with_in_memory();
    limiter.add_config("type1", 2, 5000).add_config("type2", 2, 5000);
    assert!(settled(&limiter, "user", "type1", 100));
    assert!(settled(&limiter, "user", "type1", 101));
    assert!(!settled(&limiter, "user", "type1", 102));
    assert!(settled(&limiter, "user", "type2", 103));
    assert!(settled(&limiter, "user", "type2", 104));
    assert!(!settled(&limiter, "user", "type2", 105));
}

#[test]
fn identities_do_not_share_a_quota() {
    let mut limiter = RateLimiter::with_in_memory();
    limiter.add_config("type1", 1, 5000);
    assert!(settled(&limiter, "userA", "type1", 100));
    assert!(!settled(&limiter, "userA", "type1", 101));
    assert!(settled(&limiter, "userB", "type1", 102));
    assert!(!settled(&limiter, "userB", "type1", 103));
}

#[test]
fn capacity_zero_denies_everything() {
    let mut limiter = RateLimiter::with_in_memory();
    limiter.add_config("none", 0, 1000);
    assert!(!settled(&limiter, "u", "none", 10));
    assert!(!settled(&limiter, "u", "none", 5000));
}

#[test]
fn window_zero_counts_the_same_instant_only() {
    let mut limiter = RateLimiter::with_in_memory();
    limiter.add_config("t", 1, 0);
    assert!(settled(&limiter, "u", "t", 10));
    assert!(!settled(&limiter, "u", "t", 10));
    assert!(settled(&limiter, "u", "t", 11));
}

#[test]
fn window_longer_than_the_clock_reading() {
    let mut limiter = RateLimiter::with_in_memory();
    limiter.add_config("t", 1, u64::MAX);
    assert!(settled(&limiter, "u", "t", 0));
    assert!(!settled(&limiter, "u", "t", u64::MAX));
}

#[test]
fn add_config_replaces_and_chains() {
    let mut limiter = RateLimiter::with_in_memory();
    assert_eq!(limiter.config("type1"), None);
    limiter.add_config("type1", 5, 60000);
    assert_eq!(limiter.config("type1"), Some(Config { capacity: 5, window_millis: 60000 }));
    limiter.add_config("type1", 1, 10).add_config("type2", 3, 30);
    assert_eq!(limiter.config("type1"), Some(Config { capacity: 1, window_millis: 10 }));
    assert_eq!(limiter.config("type2"), Some(Config { capacity: 3, window_millis: 30 }));
    assert_eq!(limiter.config("type3"), None);
}

#[test]
fn a_replaced_quota_governs_later_requests() {
    let mut limiter = RateLimiter::with_in_memory();
    limiter.add_config("t", 1, 1000);
    assert!(settled(&limiter, "u", "t", 100));
    assert!(!settled(&limiter, "u", "t", 200));
    limiter.add_config("t", 2, 1000);
    assert!(settled(&limiter, "u", "t", 300));
    assert!(!settled(&limiter, "u", "t", 400));
}

#[test]
fn every_allowed_call_takes_a_place() {
    let mut limiter = RateLimiter::with_in_memory();
    limiter.add_config("t", 3, 60000);
    let mut admitted = 0;
    for _ in 0..10 {
        if limiter.allowed("u", "t") == Ok(Decision::Settled(true)) {
            admitted += 1;
        }
    }
    assert_eq!(admitted, 3);
}

#[test]
fn with_in_memory_has_an_in_process_store() {
    let limiter = RateLimiter::with_in_memory();
    assert!(matches!(limiter.store(), Storage::InMemory(_)));
    assert!(limiter.store().client().is_none());
}

#[test]
fn with_redis_keeps_the_client_without_connecting() {
    let limiter = RateLimiter::with_redis("redis://127.0.0.1:6379/0").unwrap();
    assert!(matches!(limiter.store(), Storage::Redis(_)));
    assert!(limiter.store().client().is_some());
}

#[test]
fn with_redis_refuses_what_is_no_address() {
    assert!(matches!(RateLimiter::with_redis("not a url"), Err(RateLimiterError::InvalidEndpoint)));
    assert!(matches!(
        RateLimiter::with_redis("http://127.0.0.1/"),
        Err(RateLimiterError::InvalidEndpoint)
    ));
    assert!(matches!(RateLimiter::with_redis(""), Err(RateLimiterError::InvalidEndpoint)));
}

#[test]
fn a_remote_limiter_names_the_script_run() {
    let mut limiter = RateLimiter::with_redis("redis://127.0.0.1/").unwrap();
    limiter.add_config("type1", 2, 15000);
    assert_eq!(
        limiter.allowed_at("user12345", "type1", 16000),
        Ok(Decision::Remote(RemoteCall {
            key: "user12345:type1".to_string(),
            capacity: 2,
            window_start: 1000,
            now: 16000,
        }))
    );
    assert_eq!(
        limiter.allowed_at("user12345", "type1", 2000),
        Ok(Decision::Remote(RemoteCall {
            key: "user12345:type1".to_string(),
            capacity: 2,
            window_start: 0,
            now: 2000,
        }))
    );
}

#[test]
fn a_remote_limiter_reads_the_clock() {
    let mut limiter = RateLimiter::with_redis("redis://127.0.0.1/").unwrap();
    limiter.add_config("type1", 2, 15000);
    match limiter.allowed("u", "type1") {
        Ok(Decision::Remote(call)) => {
            assert_eq!(call.key, "u:type1");
            assert_eq!(call.capacity, 2);
            assert!(call.now > 1_600_000_000_000);
            assert_eq!(call.window_start, call.now - 15000);
        }
        other => panic!("no script run: {:?}", other),
    }
}

#[test]
fn storage_attempts_share_one_store() {
    let storage = Storage::in_memory();
    assert_eq!(storage.attempt("k", "t", 10, 0, 1), Ok(Decision::Settled(true)));
    assert_eq!(storage.attempt("k", "t", 11, 0, 1), Ok(Decision::Settled(false)));
    assert_eq!(storage.attempt("other", "t", 11, 0, 1), Ok(Decision::Settled(true)));
}

#[test]
fn remote_storage_hands_the_attempt_on() {
    let storage = Storage::remote("redis://localhost/").unwrap();
    assert_eq!(
        storage.attempt("k", "t", 10, 4, 3),
        Ok(Decision::Remote(RemoteCall {
            key: "k:t".to_string(),
            capacity: 3,
            window_start: 4,
            now: 10,
        }))
    );
}

#[test]
fn the_store_of_a_client_follows_the_answer_to_the_address() {
    let accepted = Storage::of_client(redis::Client::open("redis://127.0.0.1:6379/"));
    assert!(matches!(accepted, Ok(Storage::Redis(_))));
    let refused = Storage::of_client(redis::Client::open("not a url"));
    assert!(matches!(refused, Err(RateLimiterError::InvalidEndpoint)));
}

#[test]
fn a_shared_store_admits_nothing_under_a_capacity_of_zero() {
    let storage = Storage::in_memory();
    assert_eq!(storage.attempt("k", "t", 10, 0, 0), Ok(Decision::Settled(false)));
    assert_eq!(storage.attempt("k", "t", 10, 0, 1), Ok(Decision::Settled(true)));
    assert_eq!(storage.attempt("k", "t", 11, 0, 0), Ok(Decision::Settled(false)));
}

#[test]
fn a_shared_store_gives_the_verdict_of_the_rule_on_what_it_holds() {
    let storage = Storage::in_memory();
    let mut verdicts = Vec::new();
    for now in [5u64, 6, 7, 20, 21] {
        verdicts.push(storage.attempt("k", "t", now, now.saturating_sub(10), 2));
    }
    assert_eq!(
        verdicts,
        vec![
            Ok(Decision::Settled(true)),
            Ok(Decision::Settled(true)),
            Ok(Decision::Settled(false)),
            Ok(Decision::Settled(true)),
            Ok(Decision::Settled(true)),
        ]
    );
}

#[test]
fn pairs_that_join_to_one_text_do_not_share_a_log() {
    let mut limiter = RateLimiter::with_in_memory();
    limiter.add_config("b:c", 1, 10000).add_config("c", 1, 10000);
    assert!(settled(&limiter, "a", "b:c", 20000));
    assert!(settled(&limiter, "a:b", "c", 20100));
    assert!(!settled(&limiter, "a", "b:c", 20200));
    assert!(!settled(&limiter, "a:b", "c", 20300));
}

#[test]
fn a_quota_holds_against_requests_of_a_pair_that_joins_to_the_same_text() {
    let mut limiter = RateLimiter::with_in_memory();
    limiter.add_config("b:c", 1, 10000).add_config("c", 0, 1);
    assert!(settled(&limiter, "a", "b:c", 20000));
    assert!(!settled(&limiter, "a:b", "c", 20100));
    assert!(!settled(&limiter, "a", "b:c", 20200));
    assert!(settled(&limiter, "a", "b:c", 30001));
}

#[test]
fn identities_do_not_share_a_quota_across_request_types() {
    let mut limiter = RateLimiter::with_in_memory();
    limiter.add_config("t", 1, 5000).add_config("+t", 1, 5000).add_config("-t", 1, 5000);
    assert!(settled(&limiter, "user", "t", 100));
    assert!(settled(&limiter, "user+", "t", 100));
    assert!(settled(&limiter, "user", "+t", 100));
    assert!(settled(&limiter, "user-", "t", 100));
    assert!(settled(&limiter, "user", "-t", 100));
    assert!(settled(&limiter, "", "t", 100));
    assert!(!settled(&limiter, "user", "t", 101));
}

#[test]
fn with_redis_succeeds_on_every_accepted_address() {
    for address in ["redis://127.0.0.1/", "redis://localhost:6380/3", "redis://user:pw@host/"] {
        assert!(redis::Client::open(address).is_ok());
        assert!(RateLimiter::with_redis(address).is_ok());
    }
    for address in ["", "not a url", "http://127.0.0.1/", "redis://", "redis://host/notanumber"] {
        assert!(redis::Client::open(address).is_err());
        assert!(matches!(
            RateLimiter::with_redis(address),
            Err(RateLimiterError::InvalidEndpoint)
        ));
    }
}
