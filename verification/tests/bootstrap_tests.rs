use aegis_proxy::bootstrap::{plan_for, server_plan, ServerPlan};
use aegis_proxy::config::ProxyConfig;
use aegis_proxy::lifecycle::LifecycleManager;
use aegis_proxy::net::{IpAddress, SocketAddress};

#[test]
fn test_proxy_config_defaults() {
    let config = ProxyConfig::default();
    assert!(!config.host.is_empty());
    assert!(config.port > 0);
}

#[test]
fn test_lifecycle_manager_creation() {
    let lifecycle = LifecycleManager::new();
    assert_eq!(lifecycle.active_connections(), 0);
}

#[test]
fn test_pqc_config_enabled() {
    let config = ProxyConfig::default();
    assert!(config.pqc_enabled);
}

#[test]
fn bootstrap_test_health_config_clone() {
    let config = ProxyConfig::default();
    let health_config = config.health.clone();
    assert!(health_config.port > 0);
}

#[test]
fn test_plan_pqc_when_enabled() {
    let config = ProxyConfig::default();
    match server_plan(config) {
        ServerPlan::Pqc(server) => assert!(server.config.pqc_enabled),
        _ => panic!("expected the PQC server"),
    }
}

#[test]
fn test_plan_http_when_pqc_disabled() {
    let config = ProxyConfig {
        pqc_enabled: false,
        host: "127.0.0.1".to_string(),
        port: 8088,
        upstream_addr: "backend:9000".to_string(),
        ..Default::default()
    };
    match server_plan(config) {
        ServerPlan::Http(h) => {
            assert_eq!(h.listen_addr, SocketAddress { ip: IpAddress::V4(0x7f000001), port: 8088 });
            assert_eq!(h.upstream_addr, "backend:9000");
            assert_eq!(h.max_concurrent_streams, 100);
        }
        _ => panic!("expected the HTTP proxy"),
    }
}

#[test]
fn test_plan_rejects_bad_listen_address() {
    let config = ProxyConfig { pqc_enabled: false, host: "not a host".to_string(), ..Default::default() };
    assert!(plan_for(config).is_none());
    let pqc = ProxyConfig { pqc_enabled: true, host: "not a host".to_string(), ..Default::default() };
    assert!(matches!(plan_for(pqc), Some(ServerPlan::Pqc(_))));
}
