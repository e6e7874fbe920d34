use aegis_proxy::acme::{AcmeManager, AutoHttpsConfig, DnsChallengeConfig};
use aegis_proxy::config::{EnvOverrides, ProxyConfig};
use aegis_proxy::green_wait::{
    on_persisted, partition_ready, queue_stats, submit_action, wait_expired, wait_remaining, JobPriority,
    ScheduleResult, SubmitAction,
};
use aegis_proxy::headers::{apply_add_header, apply_proxy_hide_header, apply_proxy_set_header, HeadersConfig};
use aegis_proxy::health_server::{health_reply, HealthReply};
use aegis_proxy::http_proxy::acme_redirect_reply;
use aegis_proxy::jwt::extract_bearer;
use aegis_proxy::lifecycle::LifecycleManager;
use aegis_proxy::limit_rate::{body_read_reply, check_body_size_limit, limit_rate_overage, BodyRead, RateAndSizeLimits};
use aegis_proxy::persistent_queue::PersistentQueue;
use aegis_proxy::rate_limit::create_429_response;
use std::time::Duration;

fn field(name: &str, value: &str) -> (String, Vec<u8>) {
    (name.to_string(), value.as_bytes().to_vec())
}

fn get<'a>(hs: &'a [(String, Vec<u8>)], name: &str) -> Option<&'a str> {
    hs.iter().find(|h| h.0 == name).map(|h| std::str::from_utf8(&h.1).unwrap())
}

fn resolver(template: &str) -> String {
    template
        .replace("$remote_addr", "10.0.0.1")
        .replace("$server_name", "backend.internal")
        .replace("$server_port", "443")
}

#[test]
fn test_apply_proxy_set_header() {
    let mut config = HeadersConfig::default();
    config.proxy_set_header.push(("x-real-ip".to_string(), "$remote_addr".to_string()));
    config.proxy_set_header.push(("x-forwarded-for".to_string(), "$remote_addr".to_string()));
    config.proxy_set_header.push(("host".to_string(), "$server_name".to_string()));
    let mut out = Vec::new();
    apply_proxy_set_header(&mut out, &config, &resolver);
    assert_eq!(get(&out, "x-real-ip"), Some("10.0.0.1"));
    assert_eq!(get(&out, "x-forwarded-for"), Some("10.0.0.1"));
    assert_eq!(get(&out, "host"), Some("backend.internal"));
}

#[test]
fn test_apply_add_header_and_security() {
    let mut config = HeadersConfig::default();
    config.add_header.push(("x-custom-id".to_string(), "req-$server_port".to_string()));
    config.security_headers = true;
    let mut out = vec![field("X-Frame-Options", "SAMEORIGIN")];
    apply_add_header(&mut out, &config, &resolver);
    assert_eq!(get(&out, "x-custom-id"), Some("req-443"));
    assert_eq!(get(&out, "X-Frame-Options"), Some("SAMEORIGIN"));
    assert_eq!(get(&out, "x-frame-options"), None);
    assert_eq!(get(&out, "x-content-type-options"), Some("nosniff"));
    assert_eq!(get(&out, "referrer-policy"), Some("strict-origin-when-cross-origin"));
}

#[test]
fn test_apply_proxy_hide_header() {
    let mut config = HeadersConfig::default();
    config.proxy_hide_header.push("x-powered-by".to_string());
    config.proxy_hide_header.push("server".to_string());
    let mut out = vec![field("x-powered-by", "Express"), field("server", "nginx"), field("content-type", "text/html")];
    apply_proxy_hide_header(&mut out, &config);
    assert_eq!(out, vec![field("content-type", "text/html")]);
}

#[test]
fn headers_invalid_names_and_values_are_skipped() {
    let mut config = HeadersConfig::default();
    config.proxy_set_header.push(("bad name".to_string(), "v".to_string()));
    config.proxy_set_header.push(("X-Ok".to_string(), "line\nbreak".to_string()));
    config.proxy_set_header.push(("X-Set".to_string(), "one".to_string()));
    let mut out = vec![field("x-set", "old"), field("X-SET", "older")];
    apply_proxy_set_header(&mut out, &config, &resolver);
    assert_eq!(out, vec![field("x-set", "one")]);
}

#[test]
fn health_server_replies() {
    let mut lifecycle = LifecycleManager::new();
    match health_reply(&lifecycle, "1.0", "GET", "/ready", true) {
        HealthReply::Text { status, body } => assert_eq!((status, body.as_str()), (503, "Not Ready")),
        _ => panic!("expected text"),
    }
    lifecycle.mark_ready();
    match health_reply(&lifecycle, "1.0", "GET", "/ready", true) {
        HealthReply::Text { status, body } => assert_eq!((status, body.as_str()), (200, "OK")),
        _ => panic!("expected text"),
    }
    match health_reply(&lifecycle, "1.0", "GET", "/health", true) {
        HealthReply::Health(h) => {
            assert_eq!(h.status, "healthy");
            assert_eq!(h.version.as_deref(), Some("1.0"));
            assert_eq!(h.connections, Some(0));
        },
        _ => panic!("expected health"),
    }
    assert!(matches!(health_reply(&lifecycle, "1.0", "GET", "/metrics", true), HealthReply::Metrics));
    match health_reply(&lifecycle, "1.0", "GET", "/metrics", false) {
        HealthReply::Text { status, body } => assert_eq!((status, body.as_str()), (501, "Metrics not enabled")),
        _ => panic!("expected text"),
    }
    match health_reply(&lifecycle, "1.0", "POST", "/health", true) {
        HealthReply::Text { status, body } => assert_eq!((status, body.as_str()), (404, "Not Found")),
        _ => panic!("expected text"),
    }
}

fn acme_manager() -> AcmeManager {
    AcmeManager::new(AutoHttpsConfig {
        enabled: true,
        email: String::new(),
        acme_ca: String::new(),
        cert_storage: "/tmp/certs".to_string(),
        renew_before_days: 30,
        encryption_key: None,
        dns_challenge: DnsChallengeConfig { provider: String::new(), api_token: String::new() },
    })
}

#[test]
fn acme_redirect_answers_challenge_or_redirects() {
    let mut m = acme_manager();
    m.register_http_challenge("tok", "tok.key");
    let r = acme_redirect_reply(&m, "/.well-known/acme-challenge/tok", "example.com", "/.well-known/acme-challenge/tok");
    assert_eq!(r.status, 200);
    assert_eq!(r.body, b"tok.key".to_vec());
    assert_eq!(r.headers, vec![field("Content-Type", "application/octet-stream")]);
    let r = acme_redirect_reply(&m, "/api/test", "example.com", "/api/test?x=1");
    assert_eq!(r.status, 301);
    assert_eq!(r.headers, vec![field("Location", "https://example.com/api/test?x=1")]);
    assert!(r.body.is_empty());
}

#[test]
fn acme_renewal_due() {
    let m = acme_manager();
    assert!(!m.renewal_due(b"no certificate here", 0, 0));
    assert_eq!(m.check_renewal(b"no certificate here", 0, 0), Some(false));
}

#[test]
fn body_size_limit_checks() {
    let hs = vec![field("Content-Length", "2048")];
    let e = check_body_size_limit(&hs, 1024).unwrap_err();
    assert_eq!(e.status, 413);
    assert_eq!(e.body, b"Payload Too Large".to_vec());
    assert!(check_body_size_limit(&hs, 4096).is_ok());
    assert!(check_body_size_limit(&vec![field("content-length", "abc")], 1).is_ok());
    assert!(check_body_size_limit(&Vec::new(), 0).is_ok());
    assert!(check_body_size_limit(&vec![field("content-length", "+5")], 4).is_err());
}

#[test]
fn body_read_outcomes() {
    assert_eq!(body_read_reply(BodyRead::Collected(vec![1, 2, 3]), 3).unwrap(), vec![1, 2, 3]);
    assert_eq!(body_read_reply(BodyRead::Collected(vec![1, 2, 3]), 2).unwrap_err().status, 413);
    let e = body_read_reply(BodyRead::Failed, 2).unwrap_err();
    assert_eq!((e.status, e.body), (400, b"Bad Request".to_vec()));
    let e = body_read_reply(BodyRead::TimedOut, 2).unwrap_err();
    assert_eq!((e.status, e.body), (408, b"Request Timeout".to_vec()));
}

#[test]
fn limit_rate_pacing() {
    let limits = RateAndSizeLimits {
        limit_rate: 100,
        limit_rate_after: 1000,
        client_max_body_size: 0,
        client_header_timeout: Duration::from_secs(60),
        client_body_timeout: Duration::from_secs(60),
    };
    assert_eq!(limit_rate_overage(1500, &limits), Some(500));
    assert_eq!(limit_rate_overage(1000, &limits), None);
    let free = RateAndSizeLimits { limit_rate: 0, ..limits };
    assert_eq!(limit_rate_overage(1500, &free), None);
}

#[test]
fn test_429_generation() {
    let r = create_429_response(5);
    assert_eq!(r.status, 429);
    assert_eq!(r.headers, vec![field("retry-after", "5")]);
    assert_eq!(r.body, b"Rate Limit Exceeded".to_vec());
    assert_eq!(create_429_response(0).headers, vec![field("retry-after", "1")]);
}

#[test]
fn jwt_bearer_extraction() {
    assert_eq!(extract_bearer(&vec![field("Authorization", "Bearer abc.def")]).as_deref(), Some("abc.def"));
    assert_eq!(extract_bearer(&vec![field("authorization", "Basic xyz")]), None);
    assert_eq!(extract_bearer(&Vec::new()), None);
    assert_eq!(extract_bearer(&vec![field("authorization", "Bearer ")]).as_deref(), Some(""));
}

#[test]
fn green_wait_submit_decisions() {
    assert_eq!(submit_action(false, JobPriority::Low, false, 0, 10), SubmitAction::Reply(ScheduleResult::Disabled));
    assert_eq!(
        submit_action(true, JobPriority::Critical, false, 10, 10),
        SubmitAction::Reply(ScheduleResult::ExecutedImmediately)
    );
    assert_eq!(
        submit_action(true, JobPriority::Low, true, 10, 10),
        SubmitAction::Reply(ScheduleResult::ExecutedImmediately)
    );
    assert_eq!(submit_action(true, JobPriority::Low, false, 10, 10), SubmitAction::Reply(ScheduleResult::QueueFull));
    assert_eq!(submit_action(true, JobPriority::Low, false, 3, 10), SubmitAction::Persist { position: 3 });
    assert_eq!(on_persisted(3, true), ScheduleResult::Queued { position: 3 });
    assert_eq!(on_persisted(3, false), ScheduleResult::QueueFull);
}

#[test]
fn green_wait_ready_partition_and_stats() {
    let (ready, kept) = partition_ready(vec!["a", "b", "c", "d"], &vec![true, false, false, false], &vec![false, true, false, true]);
    assert_eq!(ready, vec!["a", "b", "d"]);
    assert_eq!(kept, vec!["c"]);
    let stats = queue_stats(&vec![(true, JobPriority::Low), (false, JobPriority::Low), (false, JobPriority::Critical)]);
    assert_eq!(stats.total_queued, 3);
    assert_eq!(stats.expired_count, 1);
    assert_eq!(stats.by_priority, [1, 0, 0, 2, 0]);
}

#[test]
fn green_wait_expiry() {
    assert!(!wait_expired(300, 0, JobPriority::High));
    assert!(wait_expired(300, 1, JobPriority::High));
    assert!(wait_expired(1, 0, JobPriority::Critical));
    assert_eq!(wait_remaining(100, 0, JobPriority::High), (200, 0));
    assert_eq!(wait_remaining(100, 250_000_000, JobPriority::High), (199, 750_000_000));
    assert_eq!(wait_remaining(400, 0, JobPriority::High), (0, 0));
}

#[test]
fn persistent_queue_order() {
    let mut q = PersistentQueue::recover(&vec![3, 7, 5]);
    assert_eq!(q.len(), 3);
    let id = q.allocate_id();
    assert_eq!(id, 8);
    q.push_id(id);
    assert_eq!(q.pop_id(), Some(3));
    assert_eq!(q.pop_id(), Some(7));
    assert_eq!(q.pop_id(), Some(5));
    assert_eq!(q.pop_id(), Some(8));
    assert_eq!(q.pop_id(), None);
    let mut fresh = PersistentQueue::recover(&Vec::new());
    assert_eq!(fresh.allocate_id(), 1);
    fresh.push_id(1);
    fresh.clear();
    assert_eq!(fresh.len(), 0);
}

#[test]
fn config_env_overrides() {
    let mut config = ProxyConfig::default();
    let env = EnvOverrides {
        host: Some("127.0.0.1".to_string()),
        port: Some("9000".to_string()),
        upstream: None,
        tls_enabled: Some("false".to_string()),
        pqc_enabled: Some("yes".to_string()),
        worker_threads: Some("4".to_string()),
        log_level: Some("debug".to_string()),
    };
    config.apply_env_overrides(&env);
    assert_eq!(config.host, "127.0.0.1");
    assert_eq!(config.port, 9000);
    assert_eq!(config.upstream_addr, "127.0.0.1:8080");
    assert!(!config.tls_enabled);
    assert!(config.pqc_enabled);
    assert_eq!(config.worker_threads, 4);
    assert_eq!(config.logging.level, "debug");
    let big = EnvOverrides {
        host: None,
        port: Some("70000".to_string()),
        upstream: None,
        tls_enabled: None,
        pqc_enabled: None,
        worker_threads: None,
        log_level: None,
    };
    config.apply_env_overrides(&big);
    assert_eq!(config.port, 9000);
}
