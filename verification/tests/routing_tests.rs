use aegis_proxy::compression::{compress_body, is_compressible_mime, negotiate_encoding, CompressionAlgo, CompressionConfig};
use aegis_proxy::limit_except::{check_method, LimitExceptConfig};
use aegis_proxy::location::{match_location, LocationBlock, LocationMatchType, ParsedLocationBlock};
use aegis_proxy::map_directive::{simple_hash, MapBlock};
use aegis_proxy::mime_types::get_mime_type;
use aegis_proxy::mirror::{LimitExcept, StubStatus};
use aegis_proxy::rewrite::{CompiledRewriteRule, ReturnDirective, ReturnError, RewriteFlag, RewriteRule};

#[test]
fn test_common_extensions() {
    assert_eq!(get_mime_type("index.html", None), "text/html; charset=utf-8");
    assert_eq!(get_mime_type("style.css", None), "text/css; charset=utf-8");
    assert_eq!(get_mime_type("app.js", None), "application/javascript; charset=utf-8");
    assert_eq!(get_mime_type("data.json", None), "application/json; charset=utf-8");
    assert_eq!(get_mime_type("image.png", None), "image/png");
    assert_eq!(get_mime_type("video.mp4", None), "video/mp4");
    assert_eq!(get_mime_type("unknown.foo", None), "application/octet-stream");
    assert_eq!(get_mime_type("filewithout", None), "application/octet-stream");
}

#[test]
fn test_custom_overrides() {
    let overrides = vec![
        ("foo".to_string(), "text/x-foo".to_string()),
        ("png".to_string(), "image/custom-png".to_string()),
    ];
    assert_eq!(get_mime_type("file.foo", Some(&overrides)), "text/x-foo; charset=utf-8");
    assert_eq!(get_mime_type("image.png", Some(&overrides)), "image/custom-png");
}

#[test]
fn mime_extension_case_and_dirs() {
    assert_eq!(get_mime_type("/srv/www/PHOTO.JPG", None), "image/jpeg");
    assert_eq!(get_mime_type(".hidden", None), "application/octet-stream");
    assert_eq!(get_mime_type("a/b.tar.gz", None), "application/gzip");
}

#[test]
fn test_limit_except_allow() {
    let le = LimitExcept::new(vec!["GET", "HEAD"], 405);
    assert!(le.is_allowed("GET"));
    assert!(le.is_allowed("get"));
    assert!(le.is_allowed("HEAD"));
}

#[test]
fn test_limit_except_deny() {
    let le = LimitExcept::new(vec!["GET"], 405);
    assert!(!le.is_allowed("POST"));
    assert!(!le.is_allowed("PUT"));
    assert!(!le.is_allowed("DELETE"));
}

#[test]
fn test_stub_status_html() {
    let status = StubStatus {
        active_connections: 3,
        total_accepts: 1000,
        total_requests: 999,
        reading: 0,
        writing: 1,
        waiting: 2,
    };
    let html = status.to_html();
    assert!(html.contains("Active connections: 3"));
    assert!(html.contains("1000"));
    assert_eq!(
        html,
        "<html><body><pre>Active connections: 3\nserver accepts handled requests\n 1000 1000 999\nReading: 0 Writing: 1 Waiting: 2\n</pre></body></html>"
    );
}

#[test]
fn test_is_compressible_mime() {
    assert!(is_compressible_mime("text/html"));
    assert!(is_compressible_mime("application/json"));
    assert!(is_compressible_mime("application/javascript"));
    assert!(is_compressible_mime("image/svg+xml"));
    assert!(!is_compressible_mime("image/png"));
    assert!(!is_compressible_mime("image/jpeg"));
    assert!(!is_compressible_mime("video/mp4"));
    assert!(!is_compressible_mime("application/zip"));
}

#[test]
fn test_negotiate_encoding() {
    let config = CompressionConfig::default();
    let mime = "text/html";
    let size = 2048;
    assert_eq!(negotiate_encoding(Some(b"gzip, deflate, br"), &config, mime, size), CompressionAlgo::Brotli);
    assert_eq!(negotiate_encoding(Some(b"gzip, deflate"), &config, mime, size), CompressionAlgo::Gzip);
    assert_eq!(negotiate_encoding(Some(b"identity"), &config, mime, size), CompressionAlgo::NoCompression);
}

#[test]
fn test_min_size_bypass() {
    let config = CompressionConfig::default();
    assert_eq!(negotiate_encoding(Some(b"gzip, deflate, br"), &config, "text/html", 500), CompressionAlgo::NoCompression);
}

#[test]
fn negotiate_other_cases() {
    let config = CompressionConfig::default();
    assert_eq!(negotiate_encoding(None, &config, "text/html", 5000), CompressionAlgo::NoCompression);
    assert_eq!(negotiate_encoding(Some(b"GZIP"), &config, "text/html", 5000), CompressionAlgo::Gzip);
    assert_eq!(negotiate_encoding(Some(b"br\x01"), &config, "text/html", 5000), CompressionAlgo::NoCompression);
    assert_eq!(negotiate_encoding(Some(b"br"), &config, "image/png", 5000), CompressionAlgo::NoCompression);
    let off = CompressionConfig { enabled: false, ..CompressionConfig::default() };
    assert_eq!(negotiate_encoding(Some(b"br"), &off, "text/html", 5000), CompressionAlgo::NoCompression);
}

#[test]
fn test_rewrite_rule() {
    let rule = CompiledRewriteRule::new(RewriteRule {
        pattern: "^/users/(\\d+)/profile$".to_string(),
        replacement: "/profile?id=$1".to_string(),
        flag: Some(RewriteFlag::Break),
    })
    .unwrap();
    let (new_uri, flag) = rule.apply("/users/123/profile").unwrap();
    assert_eq!(new_uri, "/profile?id=123");
    assert_eq!(flag, Some(RewriteFlag::Break));
    assert!(rule.apply("/other/path").is_none());
}

#[test]
fn test_rewrite_redirect() {
    let rule = CompiledRewriteRule::new(RewriteRule {
        pattern: "^/old-site/(.*)$".to_string(),
        replacement: "https://new-site.com/$1".to_string(),
        flag: Some(RewriteFlag::Permanent),
    })
    .unwrap();
    let (new_uri, flag) = rule.apply("/old-site/pages/about").unwrap();
    assert_eq!(new_uri, "https://new-site.com/pages/about");
    assert_eq!(flag, Some(RewriteFlag::Permanent));
}

#[test]
fn rewrite_bad_pattern() {
    assert!(CompiledRewriteRule::new(RewriteRule { pattern: "(".to_string(), replacement: String::new(), flag: None }).is_err());
}

#[test]
fn test_return_directive() {
    let ret = ReturnDirective { code: 200, text_or_url: Some("OK".to_string()) };
    let resp = ret.return_response().unwrap();
    assert_eq!(resp.status, 200);
    assert_eq!(resp.body, b"OK");

    let redir = ReturnDirective { code: 301, text_or_url: Some("https://example.com/".to_string()) };
    let resp2 = redir.return_response().unwrap();
    assert_eq!(resp2.status, 301);
    assert_eq!(resp2.location.as_deref(), Some("https://example.com/"));
    assert!(resp2.body.is_empty());
}

#[test]
fn return_directive_errors() {
    assert_eq!(ReturnDirective { code: 42, text_or_url: None }.return_response(), Err(ReturnError::InvalidStatus));
    assert_eq!(
        ReturnDirective { code: 302, text_or_url: Some("bad\nurl".to_string()) }.return_response(),
        Err(ReturnError::InvalidLocation)
    );
    let empty = ReturnDirective { code: 204, text_or_url: None }.return_response().unwrap();
    assert!(empty.body.is_empty() && empty.location.is_none());
}

#[test]
fn test_map_exact_match() {
    let mut map = MapBlock::new("$request_method", "$backend");
    map.add_exact("GET", "read_pool");
    map.add_exact("POST", "write_pool");
    assert_eq!(map.resolve("GET"), Some("read_pool".to_string()));
    assert_eq!(map.resolve("POST"), Some("write_pool".to_string()));
}

#[test]
fn test_map_regex_match() {
    let mut map = MapBlock::new("$uri", "$cache_zone");
    map.add_regex(r"^/api/", "api_cache");
    map.add_regex(r"^/static/", "static_cache");
    assert_eq!(map.resolve("/api/users"), Some("api_cache".to_string()));
    assert_eq!(map.resolve("/static/style.css"), Some("static_cache".to_string()));
}

#[test]
fn test_map_default() {
    let mut map = MapBlock::new("$method", "$backend");
    map.add_exact("GET", "read_pool");
    map = map.with_default("default_pool");
    assert_eq!(map.resolve("DELETE"), Some("default_pool".to_string()));
}

#[test]
fn test_map_no_match() {
    let mut map = MapBlock::new("$method", "$backend");
    map.add_exact("GET", "read_pool");
    assert_eq!(map.resolve("PATCH"), None);
}

#[test]
fn map_exact_before_pattern_and_bad_pattern_ignored() {
    let mut map = MapBlock::new("$uri", "$zone");
    map.add_regex("^/a", "pattern");
    map.add_regex("(", "never");
    map.add_exact("/a", "exact");
    assert_eq!(map.regex_entries.len(), 1);
    assert_eq!(map.resolve("/a"), Some("exact".to_string()));
    assert_eq!(map.resolve("/ab"), Some("pattern".to_string()));
}

#[test]
fn split_clients_hash_is_fnv1a() {
    assert_eq!(simple_hash(""), 14695981039346656037);
    assert_eq!(simple_hash("a"), 0xaf63dc4c8601ec8c);
}

fn block(path: &str, match_type: LocationMatchType) -> ParsedLocationBlock {
    ParsedLocationBlock::parse(LocationBlock {
        path: path.to_string(),
        match_type,
        proxy_pass: None,
        root: None,
        try_files: vec![],
        return_directive: None,
        rewrite: vec![],
        auth_request: None,
        auth_request_set: vec![],
        limit_except: LimitExceptConfig { methods: vec![], deny: "all".to_string() },
    })
    .ok()
    .unwrap()
}

#[test]
fn test_location_match_priority() {
    let locs = vec![
        block("/api/", LocationMatchType::Prefix),
        block("/api/exact", LocationMatchType::Exact),
        block("^/api/.*\\.jpg$", LocationMatchType::Regex),
        block("/api/static/", LocationMatchType::PreferredPrefix),
    ];
    let m = match_location(&locs, "/api/exact").unwrap();
    assert_eq!(m.config.match_type, LocationMatchType::Exact);
    let m = match_location(&locs, "/api/static/image.jpg").unwrap();
    assert_eq!(m.config.match_type, LocationMatchType::PreferredPrefix);
    let m = match_location(&locs, "/api/image.jpg").unwrap();
    assert_eq!(m.config.match_type, LocationMatchType::Regex);
    let m = match_location(&locs, "/api/other").unwrap();
    assert_eq!(m.config.path, "/api/");
    assert_eq!(m.config.match_type, LocationMatchType::Prefix);
}

#[test]
fn location_case_insensitive_and_none() {
    let locs = vec![block("\\.PNG$", LocationMatchType::RegexCaseInsensitive), block("/img/", LocationMatchType::Prefix)];
    assert_eq!(match_location(&locs, "/x/a.png").unwrap().config.match_type, LocationMatchType::RegexCaseInsensitive);
    assert_eq!(match_location(&locs, "/img/a.gif").unwrap().config.path, "/img/");
    assert!(match_location(&locs, "/other").is_none());
    assert!(match_location(&[], "/").is_none());
    assert!(ParsedLocationBlock::parse(LocationBlock {
        path: "(".to_string(),
        match_type: LocationMatchType::Regex,
        proxy_pass: None,
        root: None,
        try_files: vec![],
        return_directive: None,
        rewrite: vec![],
        auth_request: None,
        auth_request_set: vec![],
        limit_except: LimitExceptConfig::default(),
    })
    .is_err());
}

#[test]
fn test_limit_except_allowed() {
    let config = LimitExceptConfig { methods: vec!["GET".to_string(), "POST".to_string()], deny: "all".to_string() };
    assert!(check_method(&config, "GET").is_none());
}

#[test]
fn test_limit_except_denied() {
    let config = LimitExceptConfig { methods: vec!["GET".to_string()], deny: "all".to_string() };
    assert_eq!(check_method(&config, "DELETE"), Some("405 Method Not Allowed: DELETE\n".to_string()));
    assert!(check_method(&LimitExceptConfig { methods: vec![], deny: "all".to_string() }, "DELETE").is_none());
    assert!(check_method(&LimitExceptConfig { methods: vec!["GET".to_string()], deny: "none".to_string() }, "DELETE").is_none());
}

#[test]
fn test_gzip_compression() {
    let config = CompressionConfig { gzip_level: 6, ..Default::default() };
    let data = b"hello world, this is a test string to be compressed multiple times for good measure... hello world!";
    let compressed = compress_body(data, CompressionAlgo::Gzip, &config).unwrap();
    assert!(compressed.len() < data.len());
    assert!(compressed[0] == 0x1f && compressed[1] == 0x8b);
}

#[test]
fn test_brotli_compression() {
    let config = CompressionConfig { brotli_level: 4, ..Default::default() };
    let data = b"hello world, this is a test string to be compressed multiple times for good measure... hello world!";
    let compressed = compress_body(data, CompressionAlgo::Brotli, &config).unwrap();
    assert!(!compressed.is_empty());
    assert!(compressed.len() != data.len());
    assert!(compress_body(data, CompressionAlgo::NoCompression, &config).is_none());
}
