use aegis_proxy::proxy_cache::{
    md5_simple, BypassCheck, CacheDirectives, CacheEntry, CacheKey, CacheStatus, MemoryCache, TtlConfig,
};
use std::time::Duration;

fn make_key(uri: &str) -> CacheKey {
    CacheKey::from_request("https", "example.com", uri)
}

fn make_entry(key: CacheKey, body: &[u8], ttl_secs: u64) -> CacheEntry {
    CacheEntry::new(
        key,
        200,
        vec![("content-type".to_string(), "text/html".to_string())],
        body.to_vec(),
        ttl_secs,
    )
}

#[test]
fn test_cache_key_normalization() {
    let k1 = CacheKey::from_request("https", "example.com", "/path?b=2&a=1");
    let k2 = CacheKey::from_request("https", "example.com", "/path?a=1&b=2");
    assert_eq!(k1, k2);
}

#[test]
fn test_cache_key_different_paths() {
    let k1 = CacheKey::from_request("https", "example.com", "/a");
    let k2 = CacheKey::from_request("https", "example.com", "/b");
    assert_ne!(k1, k2);
}

#[test]
fn test_cache_entry_not_expired() {
    let key = make_key("/");
    let entry = make_entry(key, b"hello", 3600);
    assert!(!entry.is_expired());
}

#[test]
fn test_cache_control_parse_max_age() {
    let d = CacheDirectives::parse("max-age=300, public");
    assert_eq!(d.max_age, Some(300));
    assert!(d.public);
    assert!(d.is_cacheable());
}

#[test]
fn test_cache_control_s_maxage_wins() {
    let d = CacheDirectives::parse("max-age=300, s-maxage=600");
    assert_eq!(d.effective_ttl_secs(), Some(600));
}

#[test]
fn test_cache_control_no_store() {
    let d = CacheDirectives::parse("no-store");
    assert!(!d.is_cacheable());
}

#[test]
fn test_cache_control_private() {
    let d = CacheDirectives::parse("private, max-age=600");
    assert!(!d.is_cacheable());
}

#[test]
fn test_ttl_per_status_override() {
    let ttl = TtlConfig::new(60).with_status(200, 600).with_status(404, 30);
    let d = CacheDirectives::default();
    assert_eq!(ttl.resolve(200, &d).map(Duration::from_secs), Some(Duration::from_secs(600)));
    assert_eq!(ttl.resolve(404, &d).map(Duration::from_secs), Some(Duration::from_secs(30)));
    assert_eq!(ttl.resolve(500, &d).map(Duration::from_secs), Some(Duration::from_secs(60)));
}

#[test]
fn test_ttl_cache_control_beats_static() {
    let ttl = TtlConfig::new(60).with_status(200, 600);
    let d = CacheDirectives::parse("max-age=1800");
    assert_eq!(ttl.resolve(200, &d).map(Duration::from_secs), Some(Duration::from_secs(1800)));
}

#[test]
fn test_cache_status_strings() {
    assert_eq!(CacheStatus::Hit.as_str(), "HIT");
    assert_eq!(CacheStatus::Miss.as_str(), "MISS");
    assert_eq!(CacheStatus::Bypass.as_str(), "BYPASS");
    assert_eq!(CacheStatus::Stale.as_str(), "STALE");
    assert_eq!(CacheStatus::Revalidated.as_str(), "REVALIDATED");
}

#[test]
fn test_bypass_non_get() {
    let check = BypassCheck::default();
    assert!(check.should_bypass("POST", &[]));
    assert!(check.should_bypass("DELETE", &[]));
    assert!(!check.should_bypass("GET", &[]));
}

#[test]
fn test_bypass_auth_header() {
    let check = BypassCheck::default();
    let headers = vec![("Authorization".to_string(), "Bearer token123".to_string())];
    assert!(check.should_bypass("GET", &headers));
}

#[test]
fn test_no_bypass_without_auth() {
    let check = BypassCheck::default();
    let headers = vec![("Content-Type".to_string(), "text/html".to_string())];
    assert!(!check.should_bypass("GET", &headers));
}

#[test]
fn cache_key_is_fnv_of_normalised_text_in_hex() {
    let k = CacheKey::from_request("http", "h", "/p?z=1&y=2&x");
    assert_eq!(k.key, format!("{:x}", md5_simple("http://h/p?x&y=2&z=1")));
    assert_eq!(md5_simple(""), 14695981039346656037);
    assert_eq!(md5_simple("a"), 0xaf63dc4c8601ec8c);
}

#[test]
fn cache_entry_headers_and_size() {
    let e = CacheEntry::new(
        make_key("/"),
        200,
        vec![
            ("ETag".to_string(), "\"v1\"".to_string()),
            ("Last-Modified".to_string(), "yesterday".to_string()),
            ("etag".to_string(), "\"v2\"".to_string()),
        ],
        vec![1, 2, 3],
        1,
    );
    assert_eq!(e.etag.as_deref(), Some("\"v1\""));
    assert_eq!(e.last_modified.as_deref(), Some("yesterday"));
    assert_eq!(e.size, 3);
}

#[test]
fn cache_directives_edge_cases() {
    let d = CacheDirectives::parse(" no-cache ,max-age=x, public");
    assert!(d.no_cache && d.public);
    assert_eq!(d.max_age, None);
    let d = CacheDirectives::parse("max-age=5, max-age=7");
    assert_eq!(d.max_age, Some(7));
    assert_eq!(d.effective_ttl_secs(), Some(7));
    let d = CacheDirectives::parse("");
    assert!(d.is_cacheable());
}

#[test]
fn bypass_empty_header_value_does_not_bypass() {
    let check = BypassCheck::default();
    let headers = vec![("authorization".to_string(), "".to_string())];
    assert!(!check.should_bypass("head", &headers));
}

#[test]
fn test_memory_cache_insert_get() {
    let mut cache = MemoryCache::new(100, 1024 * 1024);
    let key = make_key("/page");
    let entry = make_entry(key.clone(), b"body", 3600);
    cache.put(entry);
    assert!(cache.get(&key).is_some());
}

#[test]
fn test_memory_cache_lru_eviction() {
    let mut cache = MemoryCache::new(2, 1024 * 1024);
    let k1 = make_key("/a");
    let k2 = make_key("/b");
    let k3 = make_key("/c");
    cache.put(make_entry(k1.clone(), b"a", 3600));
    cache.put(make_entry(k2.clone(), b"b", 3600));
    cache.put(make_entry(k3.clone(), b"c", 3600));
    assert!(cache.get(&k1).is_none());
    assert!(cache.get(&k2).is_some());
    assert!(cache.get(&k3).is_some());
}

#[test]
fn test_memory_cache_size_eviction() {
    let mut cache = MemoryCache::new(100, 100);
    let k1 = make_key("/big");
    cache.put(make_entry(k1.clone(), &vec![0u8; 60], 3600));
    assert_eq!(cache.current_bytes(), 60);
    let k2 = make_key("/big2");
    cache.put(make_entry(k2.clone(), &vec![0u8; 60], 3600));
    assert!(cache.current_bytes() <= 100);
    assert!(cache.get(&k1).is_none());
    assert_eq!(cache.stats().entries, 1);
}

#[test]
fn test_memory_cache_min_uses() {
    let mut cache = MemoryCache::new(100, 1024 * 1024).with_min_uses(2);
    let key = make_key("/rare");
    let stored = cache.put(make_entry(key.clone(), b"x", 3600));
    assert!(!stored);
    assert!(cache.get(&key).is_none());
    let stored = cache.put(make_entry(key.clone(), b"x", 3600));
    assert!(stored);
    assert!(cache.get(&key).is_some());
}

#[test]
fn test_memory_cache_purge_prefix() {
    let mut cache = MemoryCache::new(100, 1024 * 1024);
    let k1 = make_key("/api/users");
    let k2 = make_key("/api/posts");
    let k3 = make_key("/static/js");
    cache.put(make_entry(k1.clone(), b"u", 3600));
    cache.put(make_entry(k2.clone(), b"p", 3600));
    cache.put(make_entry(k3.clone(), b"s", 3600));
    assert_eq!(cache.current_entries(), 3);
}

#[test]
fn memory_cache_purge_and_remove_by_key_text() {
    let mut cache = MemoryCache::new(10, 1000);
    let a = CacheKey { key: "api:1".to_string() };
    let b = CacheKey { key: "api:2".to_string() };
    let c = CacheKey { key: "web:1".to_string() };
    cache.put(make_entry(a.clone(), b"aa", 60));
    cache.put(make_entry(b.clone(), b"bbb", 60));
    cache.put(make_entry(c.clone(), b"c", 60));
    assert_eq!(cache.current_bytes(), 6);
    assert_eq!(cache.purge_prefix("api:"), 2);
    assert_eq!(cache.current_entries(), 1);
    assert_eq!(cache.current_bytes(), 1);
    assert!(cache.get(&c).is_some());
    cache.remove(&c);
    assert_eq!(cache.current_entries(), 0);
    assert_eq!(cache.current_bytes(), 0);
    // replacing an entry keeps one copy and its size
    cache.put(make_entry(a.clone(), b"12345", 60));
    cache.put(make_entry(a.clone(), b"12", 60));
    assert_eq!(cache.current_entries(), 1);
    assert_eq!(cache.current_bytes(), 2);
}

#[test]
fn cache_entry_expiry_by_age() {
    let e = make_entry(make_key("/x"), b"body", 60);
    assert!(!e.expired_after(59));
    assert!(e.expired_after(60));
    assert!(!e.is_expired());
    let zero = make_entry(make_key("/y"), b"body", 0);
    assert!(zero.is_expired());
}

#[test]
fn cache_bytes_follow_entry_count_eviction() {
    let mut cache = MemoryCache::new(1, 100);
    assert!(cache.put(make_entry(make_key("/one"), &[0u8; 10], 60)));
    assert!(cache.put(make_entry(make_key("/two"), &[0u8; 10], 60)));
    assert_eq!(cache.current_bytes(), 10);
    assert_eq!(cache.stats().entries, 1);
    assert!(cache.put(make_entry(make_key("/two"), &[0u8; 30], 60)));
    assert_eq!(cache.current_bytes(), 30);
}
