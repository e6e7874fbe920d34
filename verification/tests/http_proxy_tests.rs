use aegis_proxy::auth_request::{AuthResponse, AuthResult};
use aegis_proxy::http_proxy::{
    build_cors_preflight, build_error_response, upstream_target, HttpProxy, HttpProxyConfig, ProxyAction,
    RequestFlow, RequestHead, Stage, StaticOutcome, UpstreamHead, UpstreamReply, UpstreamTarget,
};
use aegis_proxy::limit_except::LimitExceptConfig;
use aegis_proxy::location::{LocationBlock, LocationMatchType};
use aegis_proxy::net::SocketAddress;

fn head(method: &str, path: &str, headers: Vec<(&str, &str)>) -> RequestHead {
    RequestHead {
        method: method.to_string(),
        path: path.to_string(),
        query: None,
        path_and_query: path.to_string(),
        uri: path.to_string(),
        scheme: None,
        headers: headers.into_iter().map(|(k, v)| (k.to_string(), v.as_bytes().to_vec())).collect(),
    }
}

fn header<'a>(hs: &'a [(String, Vec<u8>)], name: &str) -> Option<&'a [u8]> {
    hs.iter().find(|(k, _)| k.eq_ignore_ascii_case(name)).map(|(_, v)| v.as_slice())
}

/// Drives a request up to the point where it needs the body.
fn to_body(proxy: &HttpProxy, h: RequestHead) -> (RequestFlow, ProxyAction) {
    let (mut flow, action) = RequestFlow::start(h);
    assert!(matches!(action, ProxyAction::CheckChallenge));
    let action = flow.on_challenge(None);
    assert!(matches!(action, ProxyAction::CheckWebSocket));
    let action = flow.on_websocket(proxy, false);
    (flow, action)
}

#[test]
fn http_proxy_test_default_config() {
    let config = HttpProxyConfig::default();
    assert_eq!(config.max_concurrent_streams, 100);
    assert_eq!(config.initial_window_size, 65535);
    assert_eq!(config.upstream_addr, "127.0.0.1:9000");
}

#[test]
fn http_proxy_test_custom_config() {
    let config = HttpProxyConfig {
        force_https: false,
        listen_addr: SocketAddress::parse("127.0.0.1:9090").unwrap(),
        upstream_addr: "backend:8080".to_string(),
        max_concurrent_streams: 50,
        initial_window_size: 32768,
        ..Default::default()
    };
    assert_eq!(config.max_concurrent_streams, 50);
    assert_eq!(config.upstream_addr, "backend:8080");
}

#[test]
fn test_http_proxy_creation() {
    let config = HttpProxyConfig::default();
    let _proxy = HttpProxy::new(config);
}

#[test]
fn test_config_clone() {
    let config = HttpProxyConfig::default();
    let cloned = config.clone();
    assert_eq!(config.listen_addr, cloned.listen_addr);
    assert_eq!(config.upstream_addr, cloned.upstream_addr);
    assert_eq!(config.max_concurrent_streams, cloned.max_concurrent_streams);
    assert_eq!(config.initial_window_size, cloned.initial_window_size);
}

#[test]
fn test_config_debug() {
    let config = HttpProxyConfig::default();
    let debug_str = format!("{:?}", config);
    assert!(debug_str.contains("HttpProxyConfig"));
    assert!(debug_str.contains("listen_addr"));
    assert!(debug_str.contains("upstream_addr"));
}

#[test]
fn test_config_listen_addr_parsing() {
    let config = HttpProxyConfig {
        listen_addr: SocketAddress::parse("0.0.0.0:3000").unwrap(),
        ..Default::default()
    };
    assert_eq!(config.listen_addr.port, 3000);
}

#[test]
fn test_config_with_different_ports() {
    for port in [8080, 8443, 9000, 3000] {
        let addr = SocketAddress::parse(&format!("127.0.0.1:{}", port)).unwrap();
        let config = HttpProxyConfig { listen_addr: addr, ..Default::default() };
        assert_eq!(config.listen_addr.port, port);
    }
}

#[test]
fn test_proxy_new_preserves_config() {
    let config = HttpProxyConfig {
        force_https: false,
        listen_addr: SocketAddress::parse("127.0.0.1:7777").unwrap(),
        upstream_addr: "custom-backend:8080".to_string(),
        max_concurrent_streams: 200,
        initial_window_size: 131070,
        ..Default::default()
    };
    let proxy = HttpProxy::new(config.clone());
    assert_eq!(proxy.config.listen_addr, config.listen_addr);
    assert_eq!(proxy.config.upstream_addr, config.upstream_addr);
}

#[test]
fn test_config_upstream_variations() {
    let upstreams = ["localhost:8080", "192.168.1.1:9000", "backend.local:443", "[::1]:8080"];
    for upstream in upstreams {
        let config = HttpProxyConfig { upstream_addr: upstream.to_string(), ..Default::default() };
        assert_eq!(config.upstream_addr, upstream);
    }
}

#[test]
fn test_config_window_size_variations() {
    for size in [16384, 32768, 65535, 131070] {
        let config = HttpProxyConfig { initial_window_size: size, ..Default::default() };
        assert_eq!(config.initial_window_size, size);
    }
}

#[test]
fn test_config_concurrent_streams_variations() {
    for streams in [10, 50, 100, 500] {
        let config = HttpProxyConfig { max_concurrent_streams: streams, ..Default::default() };
        assert_eq!(config.max_concurrent_streams, streams);
    }
}

#[test]
fn test_proxy_config_debug() {
    let config = HttpProxyConfig::default();
    let debug = format!("{:?}", config);
    assert!(debug.contains("HttpProxyConfig"));
}

#[test]
fn test_http_proxy_config_defaults() {
    let config = HttpProxyConfig::default();
    assert_eq!(config.max_concurrent_streams, 100);
    assert_eq!(config.initial_window_size, 65535);
}

#[test]
fn test_http_proxy_config_custom_upstream() {
    let config = HttpProxyConfig { upstream_addr: "backend.local:8080".to_string(), ..Default::default() };
    assert!(config.upstream_addr.contains("backend"));
}

#[test]
fn test_http_proxy_config_debug_format() {
    let config = HttpProxyConfig::default();
    let debug = format!("{:?}", config);
    assert!(debug.contains("HttpProxyConfig"));
}

#[test]
fn test_http_proxy_new_with_config() {
    let config = HttpProxyConfig::default();
    let proxy = HttpProxy::new(config);
    let _ = &proxy;
}

#[test]
fn test_socket_address_parse_forms() {
    let a = SocketAddress::parse("[::1]:8080").unwrap();
    assert_eq!(a.port, 8080);
    assert!(SocketAddress::parse("127.0.0.1").is_none());
    assert!(SocketAddress::parse("127.0.0.1:70000").is_none());
    assert!(SocketAddress::parse("::1:80").is_none());
    assert!(SocketAddress::parse("127.0.0.1:+80").is_none());
}

#[test]
fn test_error_response_body() {
    let r = build_error_response(502, "Upstream body read error");
    assert_eq!(r.status, 502);
    assert_eq!(
        r.body,
        b"{\"error\":\"proxy_error\",\"message\":\"Upstream body read error\"}".to_vec()
    );
    assert_eq!(header(&r.headers, "content-type"), Some(&b"application/json"[..]));
}

#[test]
fn test_cors_preflight_fields() {
    let r = build_cors_preflight();
    assert_eq!(r.status, 200);
    assert!(r.body.is_empty());
    assert_eq!(header(&r.headers, "access-control-allow-methods"), Some(&b"GET, POST, PUT, DELETE, OPTIONS"[..]));
}

#[test]
fn test_upstream_targets() {
    match upstream_target("fastcgi://127.0.0.1:9000", "/x") {
        UpstreamTarget::FastCgi { addr } => assert_eq!(addr, "127.0.0.1:9000"),
        _ => panic!("expected FastCGI"),
    }
    match upstream_target("scgi://10.0.0.1:4000", "/x") {
        UpstreamTarget::Scgi { addr } => assert_eq!(addr, "10.0.0.1:4000"),
        _ => panic!("expected SCGI"),
    }
    match upstream_target("grpc://svc:50051", "/pkg.Svc/Call") {
        UpstreamTarget::Http { url, grpc } => {
            assert_eq!(url, "http://svc:50051/pkg.Svc/Call");
            assert!(grpc);
        }
        _ => panic!("expected HTTP"),
    }
    match upstream_target("https://secure:443", "/a?b=1") {
        UpstreamTarget::Http { url, grpc } => {
            assert_eq!(url, "https://secure:443/a?b=1");
            assert!(!grpc);
        }
        _ => panic!("expected HTTP"),
    }
    match upstream_target("127.0.0.1:9000", "/") {
        UpstreamTarget::Http { url, .. } => assert_eq!(url, "http://127.0.0.1:9000/"),
        _ => panic!("expected HTTP"),
    }
}

#[test]
fn test_status_page_routes() {
    let (flow, action) = RequestFlow::start(head("GET", "/.well-known/aegis_status", vec![]));
    assert!(matches!(action, ProxyAction::ServeStubStatus { json: false }));
    assert!(flow.stage == Stage::Finished);
    let (_, action) = RequestFlow::start(head("GET", "/.well-known/aegis_status/json", vec![]));
    assert!(matches!(action, ProxyAction::ServeStubStatus { json: true }));
}

#[test]
fn test_acme_challenge_answered() {
    let (mut flow, _) = RequestFlow::start(head("GET", "/.well-known/acme-challenge/tok", vec![]));
    match flow.on_challenge(Some("tok.key".to_string())) {
        ProxyAction::Respond(rep) => {
            assert_eq!(rep.response.status, 200);
            assert_eq!(rep.response.body, b"tok.key".to_vec());
            assert_eq!(header(&rep.response.headers, "content-type"), Some(&b"application/octet-stream"[..]));
        }
        _ => panic!("expected a response"),
    }
}

#[test]
fn http_proxy_test_handle_request_health() {
    let mut proxy = HttpProxy::new(HttpProxyConfig::default());
    let (mut flow, action) = to_body(&proxy, head("GET", "/health", vec![]));
    assert!(matches!(action, ProxyAction::ReadBody));
    let action = flow.on_body(&mut proxy, vec![]);
    assert!(matches!(action, ProxyAction::TryStatic));
    match flow.on_static(&mut proxy, StaticOutcome::Skipped) {
        ProxyAction::Respond(rep) => {
            assert_eq!(rep.response.status, 200);
            assert_eq!(rep.response.body, b"OK".to_vec());
            assert!(rep.record_request && rep.record_energy);
        }
        _ => panic!("expected a response"),
    }
}

#[test]
fn http_proxy_test_handle_request_ready() {
    let mut proxy = HttpProxy::new(HttpProxyConfig::default());
    let (mut flow, _) = to_body(&proxy, head("GET", "/ready", vec![]));
    flow.on_body(&mut proxy, vec![]);
    match flow.on_static(&mut proxy, StaticOutcome::Skipped) {
        ProxyAction::Respond(rep) => {
            assert_eq!(rep.response.status, 200);
            assert_eq!(rep.response.body, b"{\"status\":\"ready\"}".to_vec());
        }
        _ => panic!("expected a response"),
    }
}

#[test]
fn test_metrics_endpoint_without_exporter() {
    let mut proxy = HttpProxy::new(HttpProxyConfig::default());
    let (mut flow, _) = to_body(&proxy, head("GET", "/metrics", vec![]));
    flow.on_body(&mut proxy, vec![]);
    let action = flow.on_static(&mut proxy, StaticOutcome::Skipped);
    assert!(matches!(action, ProxyAction::RenderMetrics));
    match flow.on_metrics(None) {
        ProxyAction::Respond(rep) => {
            assert_eq!(rep.response.body, b"# metrics not initialized".to_vec());
            assert_eq!(header(&rep.response.headers, "content-type"), Some(&b"text/plain; version=0.0.4"[..]));
        }
        _ => panic!("expected a response"),
    }
}

#[test]
fn test_options_gets_preflight() {
    let mut proxy = HttpProxy::new(HttpProxyConfig::default());
    let (mut flow, _) = to_body(&proxy, head("OPTIONS", "/anything", vec![]));
    match flow.on_body(&mut proxy, vec![]) {
        ProxyAction::Respond(rep) => {
            assert_eq!(rep.response.status, 200);
            assert!(!rep.record_request);
        }
        _ => panic!("expected a response"),
    }
}

#[test]
fn test_unknown_path_is_forwarded_without_host() {
    let mut proxy = HttpProxy::new(HttpProxyConfig::default());
    let h = head("POST", "/api/items", vec![("host", "example.com"), ("x-trace", "abc")]);
    let (mut flow, _) = to_body(&proxy, h);
    match flow.on_body(&mut proxy, b"payload".to_vec()) {
        ProxyAction::Forward { plan, cache_miss } => {
            assert_eq!(plan.url, "http://127.0.0.1:9000/api/items");
            assert_eq!(plan.method, "POST");
            assert_eq!(plan.headers, vec![("x-trace".to_string(), "abc".to_string())]);
            assert_eq!(plan.body, Some(b"payload".to_vec()));
            assert!(!cache_miss);
        }
        _ => panic!("expected forwarding"),
    }
}

#[test]
fn test_upstream_failure_is_bad_gateway() {
    let mut proxy = HttpProxy::new(HttpProxyConfig::default());
    let (mut flow, _) = to_body(&proxy, head("PUT", "/x", vec![]));
    flow.on_body(&mut proxy, vec![]);
    match flow.on_upstream(&proxy, UpstreamReply::Failed("connection refused".to_string())) {
        ProxyAction::Respond(rep) => {
            assert_eq!(rep.response.status, 502);
            assert_eq!(
                rep.response.body,
                b"{\"error\":\"proxy_error\",\"message\":\"Upstream error: connection refused\"}".to_vec()
            );
            assert_eq!(header(&rep.response.headers, "x-cache-status"), Some(&b"MISS"[..]));
            assert!(rep.store.is_none());
        }
        _ => panic!("expected a response"),
    }
}

#[test]
fn test_event_stream_passes_through() {
    let mut proxy = HttpProxy::new(HttpProxyConfig::default());
    let (mut flow, _) = to_body(&proxy, head("DELETE", "/events", vec![]));
    flow.on_body(&mut proxy, vec![]);
    let reply = UpstreamReply::Answered(UpstreamHead {
        status: 200,
        headers: vec![("content-type".to_string(), b"text/event-stream".to_vec())],
    });
    match flow.on_upstream(&proxy, reply) {
        ProxyAction::StreamThrough { status, headers } => {
            assert_eq!(status, 200);
            assert_eq!(header(&headers, "x-cache-status"), Some(&b"BYPASS"[..]));
        }
        _ => panic!("expected streaming"),
    }
}

#[test]
fn test_cached_response_is_served_on_second_request() {
    let config = HttpProxyConfig { cache_enabled: true, ..Default::default() };
    let mut proxy = HttpProxy::new(config);

    // First request: a miss that the upstream answers with a cacheable body.
    let (mut flow, _) = to_body(&proxy, head("GET", "/page", vec![("host", "site")]));
    flow.on_body(&mut proxy, vec![]);
    let action = flow.on_static(&mut proxy, StaticOutcome::Skipped);
    assert!(matches!(action, ProxyAction::Forward { cache_miss: true, .. }));
    let reply = UpstreamReply::Answered(UpstreamHead {
        status: 200,
        headers: vec![("cache-control".to_string(), b"max-age=300".to_vec())],
    });
    assert!(matches!(flow.on_upstream(&proxy, reply), ProxyAction::ReadUpstreamBody));
    let entry = match flow.on_upstream_body(&proxy, Some(b"hello".to_vec())) {
        ProxyAction::Respond(rep) => {
            assert_eq!(header(&rep.response.headers, "x-cache-status"), Some(&b"MISS"[..]));
            rep.store.expect("a cacheable response is offered")
        }
        _ => panic!("expected a response"),
    };
    assert_eq!(proxy.offer(entry), Some(5));

    // Second request: served from the cache.
    let (mut flow, _) = to_body(&proxy, head("GET", "/page", vec![("host", "site")]));
    flow.on_body(&mut proxy, vec![]);
    match flow.on_static(&mut proxy, StaticOutcome::Skipped) {
        ProxyAction::Respond(rep) => {
            assert_eq!(rep.response.status, 200);
            assert_eq!(rep.response.body, b"hello".to_vec());
            assert_eq!(rep.cache_hit_bytes, Some(5));
            assert_eq!(header(&rep.response.headers, "x-cache-status"), Some(&b"HIT"[..]));
            // the stored fields come back first, in order; the cache's mark last
            assert_eq!(
                rep.response.headers.first(),
                Some(&("cache-control".to_string(), b"max-age=300".to_vec()))
            );
            assert_eq!(
                rep.response.headers.last(),
                Some(&("x-cache-status".to_string(), b"HIT".to_vec()))
            );
        }
        _ => panic!("expected a cache hit"),
    }
}

#[test]
fn test_authorization_bypasses_cache() {
    let config = HttpProxyConfig { cache_enabled: true, ..Default::default() };
    let mut proxy = HttpProxy::new(config);
    let (mut flow, _) = to_body(&proxy, head("GET", "/private", vec![("authorization", "Bearer x")]));
    flow.on_body(&mut proxy, vec![]);
    let action = flow.on_static(&mut proxy, StaticOutcome::Skipped);
    assert!(matches!(action, ProxyAction::Forward { cache_miss: false, .. }));
    assert!(!flow.can_cache);
}

#[test]
fn test_location_refuses_method_and_asks_auth() {
    let block = LocationBlock {
        path: "/admin".to_string(),
        match_type: LocationMatchType::Prefix,
        proxy_pass: None,
        root: None,
        try_files: vec![],
        return_directive: None,
        rewrite: vec![],
        auth_request: Some("http://auth/check".to_string()),
        auth_request_set: vec![("$user".to_string(), "x-user".to_string())],
        limit_except: LimitExceptConfig { methods: vec!["GET".to_string()], deny: "all".to_string() },
    };
    let config = HttpProxyConfig { locations: vec![block], ..Default::default() };
    let proxy = HttpProxy::new(config);

    let (_, action) = to_body(&proxy, head("POST", "/admin/users", vec![]));
    match action {
        ProxyAction::Respond(rep) => {
            assert_eq!(rep.response.status, 405);
            assert_eq!(rep.response.body, b"405 Method Not Allowed: POST\n".to_vec());
            assert!(rep.record_request);
        }
        _ => panic!("expected a refusal"),
    }

    let (mut flow, action) = to_body(&proxy, head("GET", "/admin/users", vec![]));
    match action {
        ProxyAction::CheckAuth { auth_uri, extract } => {
            assert_eq!(auth_uri, "http://auth/check");
            assert_eq!(extract.len(), 1);
        }
        _ => panic!("expected an auth check"),
    }
    let denied = AuthResponse { status: 401, www_authenticate: Some(b"Basic".to_vec()), body: b"no".to_vec() };
    match flow.on_auth(AuthResult::Denied(denied)) {
        ProxyAction::Respond(rep) => {
            assert_eq!(rep.response.status, 401);
            assert_eq!(header(&rep.response.headers, "www-authenticate"), Some(&b"Basic"[..]));
        }
        _ => panic!("expected the auth response"),
    }
}

#[test]
fn test_static_refusals() {
    let mut proxy = HttpProxy::new(HttpProxyConfig::default());
    let (mut flow, _) = to_body(&proxy, head("GET", "/../etc/passwd", vec![]));
    flow.on_body(&mut proxy, vec![]);
    match flow.on_static(&mut proxy, StaticOutcome::PathTraversal("bad path".to_string())) {
        ProxyAction::Respond(rep) => {
            assert_eq!(rep.response.status, 400);
            assert_eq!(rep.response.body, b"bad path".to_vec());
        }
        _ => panic!("expected a refusal"),
    }
}

#[test]
fn test_fastcgi_upstream_dispatch() {
    let config = HttpProxyConfig { upstream_addr: "fastcgi://127.0.0.1:9000".to_string(), ..Default::default() };
    let mut proxy = HttpProxy::new(config);
    let (mut flow, _) = to_body(&proxy, head("POST", "/index.php", vec![]));
    match flow.on_body(&mut proxy, b"a=1".to_vec()) {
        ProxyAction::Dispatch { addr, request, .. } => {
            assert_eq!(addr, "127.0.0.1:9000");
            assert_eq!(request[0], 1);
            assert_eq!(request[1], 1);
        }
        _ => panic!("expected a dispatch"),
    }
    match flow.on_dispatched(&proxy) {
        ProxyAction::Respond(rep) => {
            assert_eq!(rep.response.body, b"FCGI Response Stubs".to_vec());
            assert_eq!(header(&rep.response.headers, "x-fastcgi-status"), Some(&b"Dispatched"[..]));
        }
        _ => panic!("expected a response"),
    }
}
