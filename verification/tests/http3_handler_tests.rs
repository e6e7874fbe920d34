use aegis_proxy::http3_handler::{
    upstream_timeouts, H3Route, Http3Config, Http3Handler, Http3Request, Http3Response, HttpBodyType,
};

fn handler() -> Http3Handler {
    Http3Handler::new(Http3Config::default(), "127.0.0.1:8080".to_string())
}

fn respond(route: H3Route) -> Http3Response {
    match route {
        H3Route::Respond(r) => r,
        _ => panic!("expected a response"),
    }
}

#[test]
fn test_http3_request_creation() {
    let req = Http3Request::new("GET", "/path");
    assert_eq!(req.method, "GET");
    assert_eq!(req.path, "/path");
    assert!(req.headers.is_empty());
    assert!(req.body.is_empty());
}

#[test]
fn test_http3_request_with_headers() {
    let req = Http3Request::new("POST", "/api")
        .with_header("content-type", "application/json")
        .with_header("authorization", "Bearer token");
    assert_eq!(req.headers.len(), 2);
    assert_eq!(req.headers[0], ("content-type".to_string(), "application/json".to_string()));
}

#[test]
fn test_http3_request_with_body() {
    let req = Http3Request::new("POST", "/api").with_body(b"test body".to_vec());
    assert!(!req.body.is_empty());
    assert_eq!(req.body.as_bytes().unwrap(), b"test body");
}

#[test]
fn test_http3_response_ok() {
    let resp = Http3Response::ok(b"test".to_vec());
    assert_eq!(resp.status, 200);
    assert!(resp.body.eq_bytes(b"test"));
}

#[test]
fn test_http3_response_not_found() {
    let resp = Http3Response::not_found();
    assert_eq!(resp.status, 404);
}

#[test]
fn test_http3_response_internal_error() {
    let resp = Http3Response::internal_error("something went wrong");
    assert_eq!(resp.status, 500);
    assert!(resp.body.eq_bytes(b"something went wrong"));
}

#[test]
fn test_http3_handler_creation() {
    let handler = Http3Handler::new(Http3Config::default(), "127.0.0.1:8080".to_string());
    assert_eq!(handler.upstream_addr(), "127.0.0.1:8080");
    assert!(handler.is_logging_enabled());
}

#[test]
fn test_http3_request_builder() {
    let req = Http3Request::new("POST", "/api/data")
        .with_header("Content-Type", "application/json")
        .with_header("Authorization", "Bearer token")
        .with_body(br#"{"key":"value"}"#.to_vec());
    assert_eq!(req.method, "POST");
    assert_eq!(req.path, "/api/data");
    assert_eq!(req.headers.len(), 2);
    assert!(!req.body.is_empty());
}

#[test]
fn test_http3_response_new() {
    let resp = Http3Response::new(201);
    assert_eq!(resp.status, 201);
    assert!(resp.headers.is_empty());
    assert!(resp.body.is_empty());
}

#[test]
fn test_http3_response_with_header() {
    let resp = Http3Response::new(200).with_header("X-Custom", "value").with_body(b"response body".to_vec());
    assert_eq!(resp.headers.len(), 1);
    assert_eq!(resp.headers[0], ("X-Custom".to_string(), "value".to_string()));
    assert!(resp.body.eq_bytes(b"response body"));
}

#[test]
fn test_metrics_not_initialized() {
    let resp = Http3Response::internal_error("Metrics not initialized");
    assert_eq!(resp.status, 500);
    assert!(resp.body.eq_bytes(b"Metrics not initialized"));
}

#[test]
fn test_http3_handler_upstream_addr() {
    let handler = Http3Handler::new(Http3Config::default(), "upstream.local:8080".to_string());
    assert_eq!(handler.upstream_addr(), "upstream.local:8080");
}

#[test]
fn test_http3_handler_logging_enabled() {
    let config = Http3Config { log_requests: true, ..Default::default() };
    let handler = Http3Handler::new(config, "localhost:8080".to_string());
    assert!(handler.is_logging_enabled());
}

#[test]
fn test_http3_handler_logging_disabled() {
    let config = Http3Config { log_requests: false, ..Default::default() };
    let handler = Http3Handler::new(config, "localhost:8080".to_string());
    assert!(!handler.is_logging_enabled());
}

#[test]
fn test_http3_response_bad_gateway() {
    let resp = Http3Response::new(502).with_body(b"Bad Gateway".to_vec());
    assert_eq!(resp.status, 502);
    assert!(resp.body.eq_bytes(b"Bad Gateway"));
}

#[test]
fn test_http3_headers_special_chars() {
    let req = Http3Request::new("GET", "/").with_header("X-Special", "!@#$%^&*()");
    assert_eq!(req.headers[0].1, "!@#$%^&*()");
}

#[test]
fn test_http3_response_empty_body() {
    let resp = Http3Response::new(204).with_body(b"".to_vec());
    assert!(resp.body.is_empty());
    assert_eq!(resp.status, 204);
}

#[test]
fn test_http3_large_headers() {
    let long_val = "a".repeat(1000);
    let req = Http3Request::new("GET", "/").with_header("X-Long", &long_val);
    assert_eq!(req.headers[0].1.len(), 1000);
}

#[test]
fn test_http3_headers_case_preservation() {
    let req = Http3Request::new("GET", "/").with_header("X-Camel-Case", "Value");
    assert_eq!(req.headers[0].0, "X-Camel-Case");
}

#[test]
fn test_http3_request_various_methods() {
    for method in ["GET", "POST", "PUT", "DELETE", "PATCH", "OPTIONS", "HEAD"] {
        let req = Http3Request::new(method, "/test");
        assert_eq!(req.method, method);
    }
}

#[test]
fn test_debug_impls() {
    let req = Http3Request::new("GET", "/");
    assert!(format!("{:?}", req).contains("Http3Request"));
    let resp = Http3Response::new(200);
    assert!(format!("{:?}", resp).contains("Http3Response"));
    let config = Http3Config::default();
    assert!(format!("{:?}", config).contains("Http3Config"));
}

#[test]
fn test_route_health_and_ready() {
    let h = handler();
    let r = respond(h.route(Http3Request::new("GET", "/healthz")));
    assert_eq!(r.status, 200);
    assert!(r.body.as_bytes().unwrap().starts_with(b"{"));
    assert!(r.body.eq_bytes(br#"{"status":"healthy"}"#));
    let r = respond(h.route(Http3Request::new("GET", "/readiness")));
    assert!(r.body.eq_bytes(br#"{"status":"ready"}"#));
}

#[test]
fn test_route_zero_rtt_protection() {
    let h = handler();
    let r = respond(h.route(Http3Request::new("GET", "/healthz").with_header("Early-Data", "1")));
    assert_eq!(r.status, 200);
    let r = respond(h.route(Http3Request::new("POST", "/api/data").with_header("Early-Data", "1")));
    assert_eq!(r.status, 425);
    let text = std::str::from_utf8(r.body.as_bytes().unwrap()).unwrap();
    assert!(text.contains("Too Early"));
}

#[test]
fn test_route_metrics_and_energy() {
    let h = handler();
    assert!(matches!(h.route(Http3Request::new("GET", "/metrics")), H3Route::RenderMetrics));
    assert!(matches!(h.route(Http3Request::new("GET", "/energy")), H3Route::Energy));
    let r = Http3Handler::metrics_response(Some("m 1".to_string()));
    assert_eq!(r.status, 200);
    assert!(r.headers.contains(&("content-type".to_string(), "text/plain; charset=utf-8".to_string())));
    let r = Http3Handler::metrics_response(None);
    assert_eq!(r.status, 500);
}

#[test]
fn test_route_forward_plan() {
    let h = Http3Handler::new(Http3Config::default(), "127.0.0.1:8080/".to_string());
    let req = Http3Request::new("BREW", "/pot")
        .with_header("Connection", "close")
        .with_header("X-Id", "7")
        .with_body(b"x".to_vec());
    match h.route(req) {
        H3Route::Forward(plan) => {
            assert_eq!(plan.method, "BREW");
            assert_eq!(plan.url, "http://127.0.0.1:8080/pot");
            assert_eq!(plan.headers, vec![("X-Id".to_string(), "7".to_string())]);
            assert!(plan.body.eq_bytes(b"x"));
        }
        _ => panic!("expected forwarding"),
    }
    match h.route(Http3Request::new("BAD METHOD", "/")) {
        H3Route::Forward(plan) => assert_eq!(plan.method, "GET"),
        _ => panic!("expected forwarding"),
    }
}

#[test]
fn test_upstream_response_filters_fields() {
    let hs = vec![
        ("Transfer-Encoding".to_string(), b"chunked".to_vec()),
        ("content-type".to_string(), b"text/html".to_vec()),
        ("x-bin".to_string(), vec![0xff]),
    ];
    let r = Http3Handler::upstream_response(201, &hs);
    assert_eq!(r.status, 201);
    assert_eq!(r.headers, vec![("content-type".to_string(), "text/html".to_string())]);
    assert!(matches!(r.body, HttpBodyType::Stream));
    let e = Http3Handler::upstream_error("refused");
    assert_eq!(e.status, 500);
    assert!(e.body.eq_bytes(b"Upstream error: refused"));
}

#[test]
fn test_upstream_timeouts_setting() {
    assert_eq!(upstream_timeouts(None), Some((5000, 15000)));
    assert_eq!(upstream_timeouts(Some("50")), Some((50, 150)));
    assert_eq!(upstream_timeouts(Some("abc")), Some((5000, 15000)));
    assert_eq!(upstream_timeouts(Some("18446744073709551615")), None);
}

use aegis_proxy::config::ProxyConfig;
use aegis_proxy::quic_server::{
    parse_stream_request, stream_response_bytes, QuicConfig, QuicServer, QuicStats, StreamRequest,
    STREAM_REQUEST_LIMIT,
};

#[test]
fn test_quic_server_creation() {
    let quic_config = QuicConfig::default();
    let proxy_config = ProxyConfig::default();
    let server = QuicServer::new(quic_config, proxy_config);
    assert_eq!(server.config.bind_address, "0.0.0.0:443");
}

#[test]
fn test_check_certificates_missing_cert() {
    let config = QuicConfig {
        cert_path: "/nonexistent/cert.crt".to_string(),
        key_path: "/nonexistent/key.pem".to_string(),
        ..Default::default()
    };
    let server = QuicServer::new(config, ProxyConfig::default());
    let result = server.check_certificates(false, false);
    assert!(result.is_err());
    let err = result.unwrap_err();
    assert!(err.contains("TLS certificate not found"));
}

#[test]
fn test_check_certificates_missing_key_only() {
    let server = QuicServer::with_defaults(ProxyConfig::default());
    assert_eq!(
        server.check_certificates(true, false),
        Err("TLS private key not found: certs/server.key".to_string())
    );
    assert_eq!(server.check_certificates(true, true), Ok(()));
}

#[test]
fn test_quic_stats_counting() {
    let mut s = QuicStats::default();
    s.record_connection();
    s.record_connection();
    s.record_stream();
    s.record_disconnect();
    assert_eq!(s.connections_accepted, 2);
    assert_eq!(s.active_connections, 1);
    assert_eq!(s.streams_handled, 1);
    s.record_disconnect();
    s.record_disconnect();
    assert_eq!(s.active_connections, 0);
}

#[test]
fn test_stream_request_line_parsing() {
    assert_eq!(
        parse_stream_request(b"GET / HTTP/1.1\r\nHost: localhost\r\n\r\n"),
        ("GET".to_string(), "/".to_string())
    );
    assert_eq!(
        parse_stream_request(b"POST /api/data HTTP/3\r\nContent-Length: 5\r\n\r\nhello"),
        ("POST".to_string(), "/api/data".to_string())
    );
    assert_eq!(parse_stream_request(b""), ("GET".to_string(), "/".to_string()));
    assert_eq!(parse_stream_request(b"   \r\n"), ("GET".to_string(), "/".to_string()));
    assert_eq!(parse_stream_request(b"DELETE"), ("DELETE".to_string(), "/".to_string()));
    let (m, _) = parse_stream_request(&[0xFF, 0x00, 0xAA, 0xBB]);
    assert!(m.contains('\u{FFFD}'));
}

#[test]
fn test_stream_response_framing() {
    let resp = Http3Response::ok(b"hi".to_vec());
    assert_eq!(stream_response_bytes(&resp), b"HTTP/3 200 OK\r\n\r\nhi".to_vec());
    let resp = Http3Response::new(404);
    assert_eq!(stream_response_bytes(&resp), b"HTTP/3 404 OK\r\n\r\n".to_vec());
}

#[test]
fn test_stream_request_limit() {
    let mut r = StreamRequest::new();
    assert!(r.push_chunk(&[1, 2, 3]));
    let big = vec![0u8; STREAM_REQUEST_LIMIT];
    assert!(!r.push_chunk(&big));
}
