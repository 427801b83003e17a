use feishu_gateway::clock::{is_within, NANOS_PER_SEC};
use feishu_gateway::dedupe::{DedupeCache, MAX_SEEN_IDS};
use feishu_gateway::names::{NameCache, NameStep, MAX_NAMES};
use feishu_gateway::rate_limit::{RateLimiter, MAX_CLIENTS};

const SEC: u128 = NANOS_PER_SEC;

#[test]
fn dedupe_first_is_not_duplicate() {
    let mut cache = DedupeCache::new(300);
    assert!(!cache.is_duplicate("msg_1"));
}

#[test]
fn dedupe_second_is_duplicate() {
    let mut cache = DedupeCache::new(300);
    assert!(!cache.is_duplicate("msg_1"));
    assert!(cache.is_duplicate("msg_1"));
}

#[test]
fn dedupe_forgets_after_its_time() {
    let mut cache = DedupeCache::new(10);
    assert!(!cache.is_duplicate_at("a", 5 * SEC));
    assert!(cache.is_duplicate_at("a", 15 * SEC - 1));
    assert!(!cache.is_duplicate_at("a", 15 * SEC));
    assert!(cache.is_duplicate_at("a", 16 * SEC));
}

#[test]
fn dedupe_duplicate_keeps_its_moment() {
    let mut cache = DedupeCache::new(10);
    assert!(!cache.is_duplicate_at("a", 0));
    assert!(cache.is_duplicate_at("a", 9 * SEC));
    assert!(!cache.is_duplicate_at("a", 10 * SEC));
}

#[test]
fn dedupe_without_time_to_live_finds_no_duplicate() {
    let mut cache = DedupeCache::new(0);
    assert!(!cache.is_duplicate("a"));
    assert!(!cache.is_duplicate("a"));
}

#[test]
fn dedupe_sweep_changes_no_answer() {
    let mut cache = DedupeCache::new(10);
    for i in 0..MAX_SEEN_IDS {
        assert!(!cache.is_duplicate_at(&format!("old{i}"), 0));
    }
    assert!(!cache.is_duplicate_at("young", 5 * SEC));
    assert!(!cache.is_duplicate_at("late", 12 * SEC));
    assert!(cache.is_duplicate_at("young", 12 * SEC));
    assert!(!cache.is_duplicate_at("old3", 12 * SEC));
}

#[test]
fn rate_limiter_allows_within_limit() {
    let mut rl = RateLimiter::new(60, 3);
    assert!(!rl.check("ip1"));
    assert!(!rl.check("ip1"));
    assert!(!rl.check("ip1"));
}

#[test]
fn rate_limiter_rejects_over_limit() {
    let mut rl = RateLimiter::new(60, 2);
    assert!(!rl.check("ip1"));
    assert!(!rl.check("ip1"));
    assert!(rl.check("ip1")); // 3rd request exceeds limit of 2
}

#[test]
fn rate_limiter_opens_a_new_window() {
    let mut rl = RateLimiter::new(60, 1);
    assert!(!rl.check_at("ip1", 0));
    assert!(rl.check_at("ip1", 60 * SEC - 1));
    assert!(!rl.check_at("ip1", 60 * SEC));
    assert!(rl.check_at("ip1", 61 * SEC));
}

#[test]
fn rate_limiter_rejections_do_not_prolong_the_window() {
    let mut rl = RateLimiter::new(60, 2);
    assert!(!rl.check_at("ip1", 0));
    assert!(!rl.check_at("ip1", SEC));
    for s in 2..60 {
        assert!(rl.check_at("ip1", s * SEC));
        assert!(s > 3 || !rl.check_at("ip2", s * SEC));
    }
    assert!(!rl.check_at("ip1", 60 * SEC));
    assert!(!rl.check_at("ip1", 61 * SEC));
    assert!(rl.check_at("ip1", 62 * SEC));
}

#[test]
fn rate_limiter_counts_clients_apart() {
    let mut rl = RateLimiter::new(60, 1);
    assert!(!rl.check_at("ip1", 0));
    assert!(!rl.check_at("ip2", 0));
    assert!(rl.check_at("ip1", 0));
}

#[test]
fn rate_limiter_without_requests() {
    let mut rl = RateLimiter::new(60, 0);
    assert!(rl.check_at("ip1", 0));
    // A request that opens a new window in place of one that is over is always admitted.
    assert!(!rl.check_at("ip1", 60 * SEC));
    let mut rl = RateLimiter::new(0, 0);
    assert!(!rl.check_at("ip1", 0));
}

#[test]
fn rate_limiter_cleanup_keeps_live_windows() {
    let mut rl = RateLimiter::new(60, 1);
    for i in 0..=MAX_CLIENTS {
        assert!(!rl.check_at(&format!("old{i}"), 0));
    }
    assert!(!rl.check_at("young", 30 * SEC));
    assert!(!rl.check_at("late", 70 * SEC));
    assert!(rl.check_at("young", 70 * SEC));
    assert!(!rl.check_at("old1", 70 * SEC));
}

#[test]
fn seconds_are_whole() {
    assert!(is_within(0, 10 * SEC - 1, 10));
    assert!(!is_within(0, 10 * SEC, 10));
    assert!(is_within(5, 0, 1));
    assert!(!is_within(5, 0, 0));
}

#[test]
fn names_are_kept_once_found() {
    let mut names = NameCache::new();
    assert_eq!(names.get("ou_user1"), None);
    assert!(matches!(names.resolve_user_name("ou_user1"), NameStep::LookUp));
    assert_eq!(names.looked_up("ou_user1", Some("Alice".into())), "Alice");
    assert_eq!(names.get("ou_user1"), Some("Alice"));
    assert_eq!(names.get("ou_user2"), None);
    assert!(matches!(names.resolve_user_name("ou_user2"), NameStep::LookUp));
}

#[test]
fn resolve_user_name_success_and_cache() {
    let mut names = NameCache::new();
    assert!(matches!(names.resolve_user_name("ou_user1"), NameStep::LookUp));
    let body = br#"{"code":0,"data":{"user":{"name":"Alice","open_id":"ou_user1"}}}"#;
    let name = names.read_lookup("ou_user1", Some(body));
    assert_eq!(name, "Alice");
    // The second call uses the name that is kept: no second request is made.
    match names.resolve_user_name("ou_user1") {
        NameStep::Known(name2) => assert_eq!(name2, "Alice"),
        NameStep::LookUp => panic!("the name is kept"),
    }
}

#[test]
fn resolve_user_name_api_error_falls_back_to_open_id() {
    let mut names = NameCache::new();
    assert!(matches!(names.resolve_user_name("ou_unknown"), NameStep::LookUp));
    let body = br#"{"code":40003,"msg":"user not found"}"#;
    let name = names.read_lookup("ou_unknown", Some(body));
    assert_eq!(name, "ou_unknown");
    assert_eq!(names.get("ou_unknown"), None);
    assert_eq!(names.read_lookup("ou_unknown", None), "ou_unknown");
    assert_eq!(names.read_lookup("ou_unknown", Some(b"<html>")), "ou_unknown");
    assert_eq!(names.get("ou_unknown"), None);
    assert!(matches!(names.resolve_user_name("ou_unknown"), NameStep::LookUp));
}

#[test]
fn later_of_two_lookups_under_way_is_kept() {
    let mut names = NameCache::new();
    assert_eq!(names.looked_up("ou_user1", Some("Alice".into())), "Alice");
    assert_eq!(names.looked_up("ou_user1", Some("Alice B.".into())), "Alice B.");
    assert_eq!(names.get("ou_user1"), Some("Alice B."));
    assert_eq!(names.looked_up("ou_user1", None), "ou_user1");
    assert_eq!(names.get("ou_user1"), Some("Alice B."));
}

#[test]
fn names_are_bounded() {
    let mut names = NameCache::new();
    for i in 0..MAX_NAMES {
        names.looked_up(&format!("ou_{i}"), Some("x".into()));
    }
    assert_eq!(names.looked_up("ou_late", Some("Late".into())), "Late");
    assert_eq!(names.get("ou_late"), None);
    assert_eq!(names.get("ou_7"), Some("x"));
}
