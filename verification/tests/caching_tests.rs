use aegis_proxy::caching::{format_http_date, parse_http_date, CacheConfig, CachingManager, EtagMode, EtagStep};

#[test]
fn test_weak_etag() {
    let mut manager = CachingManager::new(CacheConfig { etag_mode: EtagMode::Weak, ..Default::default() });
    let etag = match manager.generate_etag("weak.txt", 14, Some(1_700_000_000)) {
        EtagStep::Done(Some(t)) => t,
        _ => panic!("expected a weak tag"),
    };
    assert!(etag.starts_with("W/\""));
    assert_eq!(etag, "W/\"000000000000000e-000000006553f100\"");
}

#[test]
fn test_strong_etag() {
    let mut manager = CachingManager::new(CacheConfig { etag_mode: EtagMode::Strong, ..Default::default() });
    let key = match manager.generate_etag("/tmp/strong.txt", 16, Some(5)) {
        EtagStep::NeedsContent { cache_key } => cache_key,
        _ => panic!("expected a request for the content"),
    };
    assert_eq!(key, "/tmp/strong.txt-5");
    let etag = manager.finish_strong_etag(key, b"strong etag test");
    assert!(etag.starts_with('"') && !etag.starts_with("W/"));
    assert_eq!(etag.len(), 66);
    let again = match manager.generate_etag("/tmp/strong.txt", 16, Some(5)) {
        EtagStep::Done(Some(t)) => t,
        _ => panic!("expected the remembered tag"),
    };
    assert_eq!(etag, again);
}

#[test]
fn strong_etag_of_empty_content() {
    let mut manager = CachingManager::new(CacheConfig { etag_mode: EtagMode::Strong, ..Default::default() });
    let tag = manager.finish_strong_etag("k".to_string(), b"");
    assert_eq!(tag, "\"e3b0c44298fc1c149afbf4c8996fb92427ae41e4649b934ca495991b7852b855\"");
}

#[test]
fn test_etag_disabled() {
    let mut manager = CachingManager::new(CacheConfig { etag_mode: EtagMode::Disabled, ..Default::default() });
    assert_eq!(manager.generate_etag("dis.txt", 0, Some(1)), EtagStep::Done(None));
}

#[test]
fn test_if_none_match() {
    let manager = CachingManager::new(CacheConfig::default());
    let inm: &[u8] = b"W/\"abc\"";
    assert!(manager.check_conditional(Some(inm), None, Some("W/\"abc\""), None));
    assert!(!manager.check_conditional(Some(inm), None, Some("W/\"xyz\""), None));
    assert!(manager.check_conditional(Some(b"*"), None, Some("W/\"xyz\""), None));
    assert!(!manager.check_conditional(Some(b"*"), None, None, None));
}

#[test]
fn test_if_modified_since() {
    let manager = CachingManager::new(CacheConfig::default());
    let mtime: i64 = 1_700_000_000;
    let ims = format_http_date(mtime + 3600);
    assert!(manager.check_conditional(None, Some(ims.as_bytes()), None, Some(mtime)));
    let past = format_http_date(mtime - 3600);
    assert!(!manager.check_conditional(None, Some(past.as_bytes()), None, Some(mtime)));
    assert!(!manager.check_conditional(None, Some(b"garbage"), None, Some(mtime)));
}

#[test]
fn http_dates() {
    assert_eq!(format_http_date(1_700_000_000), "Tue, 14 Nov 2023 22:13:20 GMT");
    assert_eq!(parse_http_date("Tue, 14 Nov 2023 22:13:20 GMT"), Some(1_700_000_000));
    assert_eq!(parse_http_date("yesterday"), None);
}

#[test]
fn test_cache_control_assignment() {
    let rules = vec![
        ("*.js".to_string(), "max-age=31536000".to_string()),
        ("css".to_string(), "max-age=86400".to_string()),
    ];
    let manager = CachingManager::new(CacheConfig { cache_control_rules: rules, ..Default::default() });
    assert_eq!(manager.get_cache_control("app.js").unwrap(), "max-age=31536000");
    assert_eq!(manager.get_cache_control("style.css").unwrap(), "max-age=86400");
    assert_eq!(manager.get_cache_control("index.html"), None);
}

#[test]
fn test_expires_header() {
    let manager = CachingManager::new(CacheConfig { add_expires_header: true, ..Default::default() });
    let expires = manager.get_expires_header().unwrap();
    assert!(expires.ends_with("GMT"));
    assert_eq!(manager.expires_header_at(1_700_000_000), Some("Thu, 14 Dec 2023 22:13:20 GMT".to_string()));
    let off = CachingManager::new(CacheConfig::default());
    assert_eq!(off.get_expires_header(), None);
}
