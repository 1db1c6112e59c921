use phinet_core::replay::{needs_rewriting, ReplayCache, REPLAY_COMPACT_LINES, REPLAY_DROP, REPLAY_MAX_ENTRIES};
use std::time::{SystemTime, UNIX_EPOCH};

fn now_unix() -> u64 {
    SystemTime::now().duration_since(UNIX_EPOCH).unwrap().as_secs()
}

#[test]
fn mark_then_seen() {
    let mut c = ReplayCache::new_test(60);
    assert!(!c.seen("abc"));
    assert!(c.mark("abc"));
    assert!(c.seen("abc"));
}

#[test]
fn repeated_mark_returns_false() {
    let mut c = ReplayCache::new_test(60);
    assert!(c.mark("x"));
    assert!(!c.mark("x"), "second mark of same id must return false");
    assert!(!c.mark("x"));
}

#[test]
fn distinct_ids_independent() {
    let mut c = ReplayCache::new_test(60);
    assert!(c.mark("a"));
    assert!(c.mark("b"));
    assert!(c.mark("c"));
    assert!(c.seen("a"));
    assert!(c.seen("b"));
    assert!(c.seen("c"));
    assert!(!c.seen("d"));
}

#[test]
fn zero_ttl_acts_as_expired() {
    let mut c = ReplayCache::new_test(0);
    // mark_with_ttl(id, 0) expires immediately (exp = now).
    c.mark_with_ttl("e", 0);
    assert!(!c.seen("e"), "0-ttl entries should not appear as seen");
}

#[test]
fn evict_expired_drops_old_entries() {
    let mut c = ReplayCache::new_test(1);
    c.mark_with_ttl("old", 0);   // already expired
    c.mark_with_ttl("fresh", 3600);
    // Sanity: both are in the entries map
    assert_eq!(c.snapshot().len(), 2);
    let dropped = c.evict_expired();
    assert_eq!(dropped, 1);
    assert!(c.seen("fresh"));
    assert!(!c.seen("old"));
}

#[test]
fn mark_returns_correct_boolean_for_replay_detection() {
    // This is how production code will use the API:
    // drop the message if mark returns false.
    let mut c = ReplayCache::new_test(60);
    let msg_id = "unique-msg-id-v1";
    let is_new = c.mark(msg_id);
    assert!(is_new, "first mark: is_new");
    let is_new_again = c.mark(msg_id);
    assert!(!is_new_again, "replay: mark returns false");
}

#[test]
fn len_counts_live_only() {
    let mut c = ReplayCache::new_test(3600);
    c.mark("a");
    c.mark("b");
    c.mark_with_ttl("expires-now", 0);
    assert_eq!(c.len(), 2, "expired entry must not count");
}

/// What a log replayed after a restart gives, at the present time.
fn reopened(log: &[(String, u64)]) -> ReplayCache {
    let mut c = ReplayCache::new_test(3600);
    c.load(log, now_unix());
    c
}

#[test]
fn persists_across_reopen() {
    let mut c = ReplayCache::new_test(3600);
    c.mark("id-1");
    c.mark("id-2");
    let c2 = reopened(&c.snapshot());
    assert!(c2.seen("id-1"));
    assert!(c2.seen("id-2"));
    assert!(!c2.seen("id-3"));
}

#[test]
fn expired_entries_dropped_on_reload() {
    let mut c = ReplayCache::new_test(3600);
    c.mark_with_ttl("live", 3600);
    c.mark_with_ttl("expired", 0); // expires immediately
    let c2 = reopened(&c.snapshot());
    assert!(c2.seen("live"));
    assert!(!c2.seen("expired"));
    assert_eq!(c2.snapshot().len(), 1);
}

#[test]
fn compact_keeps_live_entries() {
    let mut c = ReplayCache::new_test(3600);
    c.mark("a");
    c.mark("b");
    c.mark("c");
    let mut log = c.snapshot();
    for i in 0..100 {
        log.push((format!("noise-{}", i), 1));
    }
    let compacted = reopened(&log).compact(now_unix());
    assert_eq!(compacted.len(), 3);
    let c = reopened(&compacted);
    assert!(c.seen("a"));
    assert!(c.seen("b"));
    assert!(c.seen("c"));
    assert!(!c.seen("noise-0"));
}

#[test]
fn an_identifier_is_good_again_once_it_expires() {
    let mut c = ReplayCache::new_test(60);
    assert!(c.mark_at("x", 60, 1_000));
    assert!(!c.mark_at("x", 60, 1_059));
    assert!(c.seen_at("x", 1_059));
    assert!(!c.seen_at("x", 1_060));
    assert!(c.mark_at("x", 60, 1_060));
}

#[test]
fn a_later_line_of_the_log_wins() {
    let mut c = ReplayCache::new_test(60);
    c.load(&[("x".to_string(), 50), ("y".to_string(), 5), ("x".to_string(), 70)], 10);
    assert!(c.seen_at("x", 60));
    assert!(!c.seen_at("y", 4));
    assert!(!c.restore("z", 10, 10));
    assert!(c.restore("z", 11, 10));
    assert_eq!(c.len_at(10), 2);
}

#[test]
fn sweeping_takes_what_has_expired() {
    let mut c = ReplayCache::new_test(60);
    let n = 40;
    for i in 0..n {
        assert!(c.restore(&format!("id-{}", i), 1_000 + i as u64, 1));
    }
    assert_eq!(c.len_at(1_000 + 9), n - 10);
    assert_eq!(c.evict_expired_at(1_000 + 9), 10);
    assert_eq!(c.len_at(1), n - 10);
    assert_eq!(REPLAY_MAX_ENTRIES, 100_000);
    assert_eq!(REPLAY_DROP, 10_000);
}

#[test]
fn long_logs_are_rewritten() {
    assert!(!needs_rewriting(REPLAY_COMPACT_LINES));
    assert!(needs_rewriting(REPLAY_COMPACT_LINES + 1));
}

#[test]
fn a_new_cache_is_empty() {
    let c = ReplayCache::new_test(60);
    assert!(c.is_empty());
    assert_eq!(c.len(), 0);
}

#[test]
fn a_rewritten_log_holds_live_entries_only() {
    let mut c = ReplayCache::new_test(3600);
    assert!(c.mark_at("live", 3600, 1000));
    assert!(c.mark_at("old", 0, 1000));
    assert_eq!(c.snapshot().len(), 2);
    assert_eq!(c.compact(1000), vec![("live".to_string(), 4600)]);
    assert_eq!(c.compact(4599), vec![("live".to_string(), 4600)]);
    assert!(c.compact(4600).is_empty());

    let mut later = ReplayCache::new_test(3600);
    later.load(&c.compact(1000), 2000);
    assert!(later.seen_at("live", 2000));
    assert!(!later.mark_at("live", 1, 2000));
    assert_eq!(later.compact(2000), c.compact(2000));
}
