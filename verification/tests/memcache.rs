use rusteze::memcache::MemCache;

const SEC: u128 = 1_000_000_000;

#[test]
fn new_cache_is_empty() {
    let mut c = MemCache::new();
    assert_eq!(c.get("missing"), None);
    assert_eq!(c.get_at("missing", 0), None);
}

#[test]
fn set_then_get_without_ttl() {
    let mut c = MemCache::new();
    c.set("k".to_string(), "v".to_string(), None);
    assert_eq!(c.get("k"), Some("v".to_string()));
    assert_eq!(c.get("k"), Some("v".to_string()));
}

#[test]
fn set_overwrites_value() {
    let mut c = MemCache::new();
    c.set_at("k".to_string(), "one".to_string(), None, 0);
    c.set_at("k".to_string(), "two".to_string(), None, 5);
    assert_eq!(c.get_at("k", 10), Some("two".to_string()));
}

#[test]
fn ttl_value_is_live_until_expiry() {
    let mut c = MemCache::new();
    c.set_at("k".to_string(), "v".to_string(), Some(10), 5 * SEC);
    assert_eq!(c.get_at("k", 5 * SEC), Some("v".to_string()));
    assert_eq!(c.get_at("k", 15 * SEC - 1), Some("v".to_string()));
}

#[test]
fn ttl_value_expires_at_expiry_and_is_dropped() {
    let mut c = MemCache::new();
    c.set_at("k".to_string(), "v".to_string(), Some(10), 5 * SEC);
    assert_eq!(c.get_at("k", 15 * SEC), None);
    // the expired key was removed: an earlier reading no longer sees it
    assert_eq!(c.get_at("k", 0), None);
}

#[test]
fn zero_ttl_expires_immediately() {
    let mut c = MemCache::new();
    c.set("k".to_string(), "v".to_string(), Some(0));
    assert_eq!(c.get("k"), None);
}

#[test]
fn set_without_ttl_drops_earlier_expiry() {
    let mut c = MemCache::new();
    c.set_at("k".to_string(), "old".to_string(), Some(1), 0);
    c.set_at("k".to_string(), "new".to_string(), None, 0);
    assert_eq!(c.get_at("k", SEC - 1), Some("new".to_string()));
    assert_eq!(c.get_at("k", SEC), Some("new".to_string()));
    c.cleanup_at(1000 * SEC);
    assert_eq!(c.get_at("k", 1000 * SEC), Some("new".to_string()));
}

#[test]
fn key_reset_without_ttl_does_not_expire() {
    let mut c = MemCache::new();
    c.set("k".to_string(), "v".to_string(), Some(0));
    c.set("k".to_string(), "w".to_string(), None);
    assert_eq!(c.get("k"), Some("w".to_string()));
}

#[test]
fn expired_key_stays_absent_until_set_again() {
    let mut c = MemCache::new();
    c.set_at("k".to_string(), "v".to_string(), Some(1), 0);
    c.set_at("other".to_string(), "o".to_string(), None, 0);
    assert_eq!(c.get_at("k", 2 * SEC), None);
    c.cleanup_at(3 * SEC);
    c.set_at("other".to_string(), "p".to_string(), Some(5), 3 * SEC);
    assert_eq!(c.get_at("k", 4 * SEC), None);
    c.set_at("k".to_string(), "back".to_string(), None, 5 * SEC);
    assert_eq!(c.get_at("k", 6 * SEC), Some("back".to_string()));
}

#[test]
fn set_with_new_ttl_replaces_expiry() {
    let mut c = MemCache::new();
    c.set_at("k".to_string(), "v".to_string(), Some(1), 0);
    c.set_at("k".to_string(), "v".to_string(), Some(100), 0);
    assert_eq!(c.get_at("k", 50 * SEC), Some("v".to_string()));
}

#[test]
fn other_keys_are_independent() {
    let mut c = MemCache::new();
    c.set_at("a".to_string(), "1".to_string(), Some(1), 0);
    c.set_at("b".to_string(), "2".to_string(), None, 0);
    assert_eq!(c.get_at("a", 2 * SEC), None);
    assert_eq!(c.get_at("b", 2 * SEC), Some("2".to_string()));
}

#[test]
fn cleanup_drops_only_expired_keys() {
    let mut c = MemCache::new();
    c.set_at("short".to_string(), "s".to_string(), Some(1), 0);
    c.set_at("long".to_string(), "l".to_string(), Some(100), 0);
    c.set_at("forever".to_string(), "f".to_string(), None, 0);
    c.cleanup_at(10 * SEC);
    assert_eq!(c.get_at("short", 0), None);
    assert_eq!(c.get_at("long", 0), Some("l".to_string()));
    assert_eq!(c.get_at("forever", 0), Some("f".to_string()));
}

#[test]
fn cleanup_at_exact_expiry_drops_key() {
    let mut c = MemCache::new();
    c.set_at("k".to_string(), "v".to_string(), Some(2), 0);
    c.cleanup_at(2 * SEC - 1);
    assert_eq!(c.get_at("k", 0), Some("v".to_string()));
    c.cleanup_at(2 * SEC);
    assert_eq!(c.get_at("k", 0), None);
}

#[test]
fn cleanup_twice_changes_nothing_more() {
    let mut c = MemCache::new();
    c.set_at("a".to_string(), "1".to_string(), Some(1), 0);
    c.set_at("b".to_string(), "2".to_string(), Some(5), 0);
    c.cleanup_at(2 * SEC);
    c.cleanup_at(2 * SEC);
    assert_eq!(c.get_at("a", 0), None);
    assert_eq!(c.get_at("b", 0), Some("2".to_string()));
}

#[test]
fn key_reset_after_expiry_is_cleaned_again() {
    let mut c = MemCache::new();
    c.set_at("k".to_string(), "v1".to_string(), Some(1), 0);
    assert_eq!(c.get_at("k", SEC), None);
    c.set_at("k".to_string(), "v2".to_string(), Some(1), 2 * SEC);
    c.cleanup_at(2 * SEC);
    assert_eq!(c.get_at("k", 2 * SEC), Some("v2".to_string()));
    c.cleanup_at(3 * SEC);
    assert_eq!(c.get_at("k", 0), None);
}

#[test]
fn cleanup_keeps_unexpired_keys_at_current_time() {
    let mut c = MemCache::new();
    c.set("k".to_string(), "v".to_string(), Some(3600));
    c.cleanup();
    assert_eq!(c.get("k"), Some("v".to_string()));
}

#[test]
fn clock_advances() {
    let c = MemCache::new();
    let a = c.now();
    let mut b = c.now();
    let mut spins: u64 = 0;
    while b <= a && spins < 100_000_000 {
        b = c.now();
        spins += 1;
    }
    assert!(b > a);
}
