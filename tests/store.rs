use cache_api::store::{CacheStatus, ExpiringCache};

fn s(x: &str) -> String {
    x.to_string()
}

#[test]
fn put_then_get_is_hit() {
    let mut c = ExpiringCache::new(4);
    c.put(s("k"), s("v"), 5, 100);
    let (v, st) = c.get(&s("k"), 100);
    assert_eq!(st, CacheStatus::Hit);
    assert_eq!(v, Some(s("v")));
}

#[test]
fn get_after_ttl_is_expired() {
    let mut c = ExpiringCache::new(4);
    c.put(s("k"), s("v"), 5, 100);
    let (v, st) = c.get(&s("k"), 104);
    assert_eq!(st, CacheStatus::Hit);
    assert_eq!(v, Some(s("v")));
    let (v, st) = c.get(&s("k"), 105);
    assert_eq!(st, CacheStatus::Expired);
    assert_eq!(v, None);
    let (v, st) = c.get(&s("k"), 1000);
    assert_eq!(st, CacheStatus::Expired);
    assert_eq!(v, None);
}

#[test]
fn zero_ttl_is_never_observable() {
    let mut c = ExpiringCache::new(4);
    c.put(s("k"), s("v"), 0, 7);
    let (v, st) = c.get(&s("k"), 7);
    assert_eq!(st, CacheStatus::Expired);
    assert_eq!(v, None);
}

#[test]
fn huge_ttl_saturates() {
    let mut c = ExpiringCache::new(4);
    c.put(s("k"), s("v"), u64::MAX, 10);
    let (v, st) = c.get(&s("k"), u64::MAX - 1);
    assert_eq!(st, CacheStatus::Hit);
    assert_eq!(v, Some(s("v")));
}

#[test]
fn absent_key_is_miss() {
    let mut c = ExpiringCache::new(4);
    let (v, st) = c.get(&s("nothing"), 0);
    assert_eq!(st, CacheStatus::Miss);
    assert_eq!(v, None);
    c.put(s("other"), s("v"), 5, 0);
    let (v, st) = c.get(&s("nothing"), 0);
    assert_eq!(st, CacheStatus::Miss);
    assert_eq!(v, None);
}

#[test]
fn capacity_plus_one_evicts_oldest() {
    let mut c = ExpiringCache::new(3);
    for k in ["a", "b", "c", "d"] {
        c.put(s(k), s(k), 50, 0);
    }
    assert_eq!(c.len(), 3);
    assert_eq!(c.capacity(), 3);
    assert_eq!(c.get(&s("a"), 1), (None, CacheStatus::Miss));
    for k in ["b", "c", "d"] {
        assert_eq!(c.get(&s(k), 1), (Some(s(k)), CacheStatus::Hit));
    }
}

#[test]
fn lookup_protects_from_eviction() {
    let mut c = ExpiringCache::new(3);
    for k in ["a", "b", "c"] {
        c.put(s(k), s(k), 50, 0);
    }
    assert_eq!(c.get(&s("a"), 1).1, CacheStatus::Hit);
    c.put(s("d"), s("d"), 50, 2);
    assert_eq!(c.len(), 3);
    assert_eq!(c.get(&s("b"), 3), (None, CacheStatus::Miss));
    assert_eq!(c.get(&s("a"), 3).1, CacheStatus::Hit);
    assert_eq!(c.get(&s("c"), 3).1, CacheStatus::Hit);
    assert_eq!(c.get(&s("d"), 3).1, CacheStatus::Hit);
}

#[test]
fn overwrite_keeps_last_value() {
    let mut c = ExpiringCache::new(2);
    c.put(s("k"), s("v1"), 5, 0);
    c.put(s("k"), s("v2"), 5, 0);
    assert_eq!(c.len(), 1);
    assert_eq!(c.get(&s("k"), 1), (Some(s("v2")), CacheStatus::Hit));
}

#[test]
fn overwrite_refreshes_expiry_and_recency() {
    let mut c = ExpiringCache::new(2);
    c.put(s("a"), s("1"), 5, 0);
    c.put(s("b"), s("2"), 5, 0);
    c.put(s("a"), s("3"), 5, 4);
    assert_eq!(c.get(&s("a"), 8), (Some(s("3")), CacheStatus::Hit));
    assert_eq!(c.get(&s("b"), 8), (None, CacheStatus::Expired));
    c.put(s("c"), s("4"), 5, 8);
    assert_eq!(c.get(&s("b"), 8), (None, CacheStatus::Miss));
    assert_eq!(c.get(&s("a"), 8).1, CacheStatus::Hit);
}

#[test]
fn status_names() {
    assert_eq!(CacheStatus::Hit.as_str(), "Hit");
    assert_eq!(CacheStatus::Miss.as_str(), "Miss");
    assert_eq!(CacheStatus::Expired.as_str(), "Expired");
}

#[test]
fn full_store_reclaims_expired_before_live() {
    let mut c = ExpiringCache::new(2);
    c.put(s("a"), s("1"), 5, 0);
    c.put(s("b"), s("2"), 100, 0);
    assert_eq!(c.get(&s("a"), 1).1, CacheStatus::Hit);
    c.put(s("c"), s("3"), 100, 10);
    assert_eq!(c.len(), 2);
    assert_eq!(c.get(&s("a"), 10), (None, CacheStatus::Miss));
    assert_eq!(c.get(&s("b"), 10), (Some(s("2")), CacheStatus::Hit));
    assert_eq!(c.get(&s("c"), 10), (Some(s("3")), CacheStatus::Hit));
}
