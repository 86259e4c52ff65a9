use nimbusdns::dns::cache::{CacheKey, CachedResponse, DnsCache, SECOND};

const NOW: u64 = 50 * SECOND;

fn make_key(domain: &str) -> CacheKey {
    CacheKey {
        domain: domain.to_string(),
        qtype: 1,
        qclass: 1,
        dnssec_ok: false,
        ecs_subnet: None,
    }
}

fn make_response(ttl: u32) -> CachedResponse {
    CachedResponse {
        data: vec![0u8; 16],
        cached_at: NOW,
        original_ttl: ttl,
        ttl,
        qtype: 1,
        qclass: 1,
        hits: 0,
    }
}

#[test]
fn test_insert_get_hit() {
    let mut cache = DnsCache::new(10);
    let key = make_key("example.com");
    cache.insert(key.copy(), make_response(60), NOW);
    let got = cache.get(&key, NOW);
    assert!(got.is_some());
    assert_eq!(got.unwrap().hits, 1);
    let stats = cache.stats();
    assert_eq!(stats.hits, 1);
    assert_eq!(stats.misses, 0);
}

#[test]
fn test_miss() {
    let mut cache = DnsCache::new(10);
    assert!(cache.get(&make_key("missing.com"), NOW).is_none());
    let stats = cache.stats();
    assert_eq!(stats.hits, 0);
    assert_eq!(stats.misses, 0);
}

#[test]
fn test_expired_ttl_zero() {
    let mut cache = DnsCache::new(10);
    let key = make_key("gone.com");
    let resp = CachedResponse { cached_at: NOW - SECOND, ..make_response(0) };
    cache.insert(key.copy(), resp, NOW);
    assert!(cache.get(&key, NOW).is_none());
    assert_eq!(cache.len(), 0);
    assert_eq!(cache.stats().misses, 1);
}

#[test]
fn test_remaining_ttl_saturating() {
    let resp = CachedResponse { cached_at: NOW - 10 * SECOND, ..make_response(5) };
    assert_eq!(resp.remaining_ttl(NOW), 0);
    assert!(resp.is_expired(NOW));
    let young = make_response(5);
    assert_eq!(young.remaining_ttl(NOW + 2 * SECOND), 3 * SECOND);
    assert!(!young.is_expired(NOW + 5 * SECOND));
    assert!(young.is_expired(NOW + 5 * SECOND + 1));
}

#[test]
fn test_max_entries_eviction() {
    let mut cache = DnsCache::new(2);
    let k3 = make_key("third.com");
    cache.insert(make_key("first.com"), make_response(60), NOW);
    cache.insert(make_key("second.com"), CachedResponse { cached_at: NOW + 1, ..make_response(60) }, NOW + 1);
    assert_eq!(cache.len(), 2);
    cache.insert(k3.copy(), CachedResponse { cached_at: NOW + 2, ..make_response(60) }, NOW + 2);
    assert!(cache.len() <= 2);
    assert!(cache.get(&k3, NOW + 2).is_some());
    // The oldest went.
    assert!(cache.get(&make_key("first.com"), NOW + 2).is_none());
    assert!(cache.get(&make_key("second.com"), NOW + 2).is_some());
}

#[test]
fn expired_entries_go_before_old_ones() {
    let mut cache = DnsCache::new(2);
    cache.insert(make_key("old.com"), make_response(600), NOW);
    cache.insert(make_key("short.com"), CachedResponse { cached_at: NOW + 1, ..make_response(1) }, NOW + 1);
    cache.insert(make_key("new.com"), make_response(60), NOW + 10 * SECOND);
    assert!(cache.get(&make_key("old.com"), NOW + 10 * SECOND).is_some());
    assert_eq!(cache.len(), 2);
}

#[test]
fn test_remove_domain() {
    let mut cache = DnsCache::new(10);
    cache.insert(make_key("test.com"), make_response(60), NOW);
    cache.insert(make_key("test.com"), make_response(60), NOW);
    cache.insert(make_key("other.com"), make_response(60), NOW);
    assert_eq!(cache.len(), 2);
    assert_eq!(cache.remove_domain("test.com"), 1);
    assert_eq!(cache.len(), 1);
}

#[test]
fn remove_domain_takes_every_type() {
    let mut cache = DnsCache::new(10);
    cache.insert(make_key("test.com"), make_response(60), NOW);
    cache.insert(CacheKey { qtype: 28, ..make_key("test.com") }, make_response(60), NOW);
    assert_eq!(cache.remove_domain("test.com"), 2);
    assert!(cache.is_empty());
    cache.insert(make_key("a.com"), make_response(60), NOW);
    cache.clear();
    assert!(cache.is_empty());
    assert_eq!(cache.stats().max_entries, 10);
}

#[test]
fn test_reinsert_same_key() {
    let mut cache = DnsCache::new(10);
    let key = make_key("dup.com");
    cache.insert(key.copy(), CachedResponse { data: b"first response".to_vec(), ..make_response(60) }, NOW);
    cache.insert(key.copy(), CachedResponse { data: b"second response".to_vec(), ..make_response(60) }, NOW);
    assert_eq!(cache.len(), 1);
    let got = cache.get(&key, NOW).unwrap();
    assert_eq!(&got.data[..], b"second response");
}
