use pledge::store::CacheEntry;
use pledge::store::ResultCache;

fn entry(payload: &[u8], expiry: u64) -> CacheEntry {
    CacheEntry { payload: payload.to_vec(), expiry }
}

fn put(cache: &mut ResultCache, key: &str, payload: &[u8], expiry: u64) {
    cache.put(key.to_string(), payload.to_vec(), expiry);
}

#[test]
fn new_cache_is_empty() {
    let cache = ResultCache::new(100);
    assert_eq!(cache.capacity(), 100);
    assert_eq!(cache.used_bytes(), 0);
    assert_eq!(cache.len(), 0);
    assert_eq!(cache.get("a"), None);
}

#[test]
fn get_gives_what_was_put() {
    let mut cache = ResultCache::new(100);
    put(&mut cache, "a", b"alpha", 10);
    put(&mut cache, "b", b"", 20);
    assert_eq!(cache.get("a"), Some(&entry(b"alpha", 10)));
    assert_eq!(cache.get("b"), Some(&entry(b"", 20)));
    assert_eq!(cache.get("c"), None);
    assert_eq!(cache.get(""), None);
    assert_eq!(cache.used_bytes(), 5);
    assert_eq!(cache.len(), 2);
}

#[test]
fn get_changes_nothing() {
    let mut cache = ResultCache::new(100);
    put(&mut cache, "a", b"alpha", 10);
    for _ in 0..3 {
        assert_eq!(cache.get("a"), Some(&entry(b"alpha", 10)));
        assert_eq!(cache.get("b"), None);
    }
    assert_eq!(cache.used_bytes(), 5);
    assert_eq!(cache.len(), 1);
}

#[test]
fn put_overwrites() {
    let mut cache = ResultCache::new(100);
    put(&mut cache, "a", b"alpha", 10);
    put(&mut cache, "b", b"beta", 10);
    put(&mut cache, "a", b"alef-bet", 30);
    assert_eq!(cache.get("a"), Some(&entry(b"alef-bet", 30)));
    assert_eq!(cache.get("b"), Some(&entry(b"beta", 10)));
    assert_eq!(cache.used_bytes(), 12);
    assert_eq!(cache.len(), 2);
}

#[test]
fn invalidate_removes_at_once() {
    let mut cache = ResultCache::new(100);
    put(&mut cache, "a", b"alpha", 10);
    put(&mut cache, "b", b"beta", 10);
    cache.invalidate("a");
    assert_eq!(cache.get("a"), None);
    assert_eq!(cache.get("b"), Some(&entry(b"beta", 10)));
    assert_eq!(cache.used_bytes(), 4);
    cache.invalidate("a");
    cache.invalidate("missing");
    assert_eq!(cache.len(), 1);
    cache.invalidate("b");
    assert_eq!(cache.len(), 0);
    assert_eq!(cache.used_bytes(), 0);
}

#[test]
fn budget_counts_payload_bytes_not_entries() {
    let mut cache = ResultCache::new(10);
    for i in 0..50 {
        put(&mut cache, &format!("k{}", i), b"", 1);
    }
    assert_eq!(cache.len(), 50);
    assert_eq!(cache.used_bytes(), 0);
    put(&mut cache, "big", b"0123456789", 1);
    assert_eq!(cache.len(), 51);
    assert_eq!(cache.used_bytes(), 10);
}

#[test]
fn oldest_entries_leave_when_there_is_no_room() {
    let mut cache = ResultCache::new(10);
    put(&mut cache, "a", b"1234", 1);
    put(&mut cache, "b", b"123", 1);
    put(&mut cache, "c", b"123", 1);
    assert_eq!(cache.used_bytes(), 10);
    put(&mut cache, "d", b"12345", 1);
    assert_eq!(cache.get("a"), None);
    assert_eq!(cache.get("b"), None);
    assert_eq!(cache.get("c"), Some(&entry(b"123", 1)));
    assert_eq!(cache.get("d"), Some(&entry(b"12345", 1)));
    assert_eq!(cache.used_bytes(), 8);
}

#[test]
fn writing_again_makes_an_entry_the_newest() {
    let mut cache = ResultCache::new(10);
    put(&mut cache, "a", b"1234", 1);
    put(&mut cache, "b", b"123", 1);
    put(&mut cache, "a", b"4321", 2);
    put(&mut cache, "c", b"12345", 1);
    assert_eq!(cache.get("b"), None);
    assert_eq!(cache.get("a"), Some(&entry(b"4321", 2)));
    assert_eq!(cache.get("c"), Some(&entry(b"12345", 1)));
}

#[test]
fn overwriting_frees_the_old_payload_first() {
    let mut cache = ResultCache::new(10);
    put(&mut cache, "a", b"12345", 1);
    put(&mut cache, "b", b"12345", 1);
    put(&mut cache, "b", b"54321", 2);
    assert_eq!(cache.get("a"), Some(&entry(b"12345", 1)));
    assert_eq!(cache.get("b"), Some(&entry(b"54321", 2)));
    assert_eq!(cache.used_bytes(), 10);
}

#[test]
fn payload_of_exactly_the_capacity_is_kept() {
    let mut cache = ResultCache::new(4);
    put(&mut cache, "a", b"12", 1);
    put(&mut cache, "b", b"1234", 1);
    assert_eq!(cache.get("a"), None);
    assert_eq!(cache.get("b"), Some(&entry(b"1234", 1)));
    assert_eq!(cache.used_bytes(), 4);
}

#[test]
fn payload_beyond_the_capacity_is_not_kept() {
    let mut cache = ResultCache::new(4);
    put(&mut cache, "a", b"12", 1);
    put(&mut cache, "b", b"12345", 1);
    assert_eq!(cache.get("b"), None);
    assert_eq!(cache.get("a"), Some(&entry(b"12", 1)));
    put(&mut cache, "a", b"12345", 1);
    assert_eq!(cache.get("a"), None);
    assert_eq!(cache.used_bytes(), 0);
    assert_eq!(cache.len(), 0);
}

#[test]
fn cache_without_capacity_keeps_only_empty_payloads() {
    let mut cache = ResultCache::new(0);
    put(&mut cache, "a", b"1", 1);
    assert_eq!(cache.get("a"), None);
    put(&mut cache, "b", b"", 1);
    assert_eq!(cache.get("b"), Some(&entry(b"", 1)));
}

#[test]
fn used_bytes_stay_within_the_capacity() {
    let mut cache = ResultCache::new(64);
    let mut state = 7u64;
    for round in 0..2_000 {
        state = state.wrapping_mul(6364136223846793005).wrapping_add(1442695040888963407);
        let key = format!("k{}", (state >> 40) % 23);
        let size = ((state >> 20) % 80) as usize;
        match (state >> 60) % 4 {
            0 => cache.invalidate(&key),
            _ => {
                let payload = vec![round as u8; size];
                cache.put(key.clone(), payload.clone(), round);
                if size <= 64 {
                    assert_eq!(cache.get(&key), Some(&CacheEntry { payload, expiry: round }));
                } else {
                    assert_eq!(cache.get(&key), None);
                }
            }
        }
        assert!(cache.used_bytes() <= 64);
    }
}

#[test]
fn purge_lets_go_what_has_expired() {
    let mut cache = ResultCache::new(100);
    put(&mut cache, "a", b"alpha", 10);
    put(&mut cache, "b", b"beta", 20);
    put(&mut cache, "c", b"gamma", 10);
    put(&mut cache, "d", b"delta", 11);
    cache.purge_expired(9);
    assert_eq!(cache.len(), 4);
    cache.purge_expired(10);
    assert_eq!(cache.get("a"), None);
    assert_eq!(cache.get("b"), Some(&entry(b"beta", 20)));
    assert_eq!(cache.get("c"), None);
    assert_eq!(cache.get("d"), Some(&entry(b"delta", 11)));
    assert_eq!(cache.used_bytes(), 9);
    assert_eq!(cache.len(), 2);
    cache.purge_expired(19);
    assert_eq!(cache.get("b"), Some(&entry(b"beta", 20)));
    assert_eq!(cache.len(), 1);
    cache.purge_expired(u64::MAX);
    assert_eq!(cache.len(), 0);
    assert_eq!(cache.used_bytes(), 0);
}

#[test]
fn purge_keeps_the_order_of_writing() {
    let mut cache = ResultCache::new(10);
    put(&mut cache, "a", b"12", 50);
    put(&mut cache, "b", b"12", 5);
    put(&mut cache, "c", b"12", 50);
    cache.purge_expired(5);
    put(&mut cache, "d", b"1234567", 50);
    assert_eq!(cache.get("a"), None);
    assert_eq!(cache.get("c"), Some(&entry(b"12", 50)));
    assert_eq!(cache.get("d"), Some(&entry(b"1234567", 50)));
}

#[test]
fn entry_with_the_last_instant_as_expiry_is_purged_only_then() {
    let mut cache = ResultCache::new(10);
    put(&mut cache, "a", b"1", u64::MAX);
    cache.purge_expired(u64::MAX - 1);
    assert_eq!(cache.len(), 1);
    cache.purge_expired(u64::MAX);
    assert_eq!(cache.len(), 0);
}
