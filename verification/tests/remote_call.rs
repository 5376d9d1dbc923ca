use ratelimiter_rs::remote::{verdict, RemoteCall, ADMISSION_SCRIPT};
use ratelimiter_rs::request::{make_key, make_pair_key};

#[test]
fn the_key_joins_identity_and_request_type_with_a_colon() {
    assert_eq!(make_key("user12345", "type1"), "user12345:type1");
    assert_eq!(make_key("", ""), ":");
    assert_eq!(make_key("a:b", "c"), "a:b:c");
    assert_eq!(make_key("é", "ü"), "é:ü");
}

#[test]
fn keys_of_two_request_types_or_two_identities_differ() {
    assert_ne!(make_key("user", "type1"), make_key("user", "type2"));
    assert_ne!(make_key("userA", "type1"), make_key("userB", "type1"));
}

#[test]
fn the_arguments_come_in_the_order_of_the_script() {
    let call = RemoteCall { key: "u:t".to_string(), capacity: 2, window_start: 1000, now: 16000 };
    assert_eq!(call.arguments(), vec![2, 1000, 16000, 16000, 1000]);
}

#[test]
fn only_the_reply_one_admits() {
    assert!(verdict(1));
    assert!(!verdict(0));
    assert!(!verdict(2));
    assert!(!verdict(-1));
}

#[test]
fn the_script_counts_then_adds_then_prunes() {
    let count = ADMISSION_SCRIPT.find("ZCOUNT").unwrap();
    let add = ADMISSION_SCRIPT.find("ZADD").unwrap();
    let prune = ADMISSION_SCRIPT.find("ZREMRANGEBYSCORE").unwrap();
    assert!(count < add);
    assert!(add < prune);
    assert!(ADMISSION_SCRIPT.contains("return 1"));
    assert!(ADMISSION_SCRIPT.contains("return 0"));
}

#[test]
fn the_key_of_a_pair_tallies_the_identity_before_both_names() {
    assert_eq!(make_pair_key("user", "type1"), "++++-usertype1");
    assert_eq!(make_pair_key("", ""), "-");
    assert_eq!(make_pair_key("", "t"), "-t");
    assert_eq!(make_pair_key("é", "ü"), "+-éü");
}

#[test]
fn keys_of_two_pairs_differ_where_their_joined_texts_agree() {
    assert_eq!(make_key("a", "b:c"), make_key("a:b", "c"));
    assert_ne!(make_pair_key("a", "b:c"), make_pair_key("a:b", "c"));
    assert_ne!(make_pair_key("ab", "c"), make_pair_key("a", "bc"));
    assert_ne!(make_pair_key("+", ""), make_pair_key("", "+"));
    assert_ne!(make_pair_key("-", ""), make_pair_key("", "-"));
    assert_ne!(make_pair_key("", "--"), make_pair_key("-", ""));
}
