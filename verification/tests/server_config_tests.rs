use aegis_proxy::dual_stack_server::DualStackStats;
use aegis_proxy::http3_handler::Http3Config;
use aegis_proxy::quic_server::{QuicConfig, QuicStats};

#[test]
fn quic_server_test_default_config() {
    let config = QuicConfig::default();
    assert_eq!(config.bind_address, "0.0.0.0:443");
    assert!(config.enable_0rtt);
    assert_eq!(config.max_streams, 100);
    assert_eq!(config.idle_timeout_secs, 30);
}

#[test]
fn quic_server_test_custom_config() {
    let config = QuicConfig {
        bind_address: "127.0.0.1:8443".to_string(),
        cert_path: "custom/cert.pem".to_string(),
        key_path: "custom/key.pem".to_string(),
        enable_0rtt: false,
        max_streams: 50,
        idle_timeout_secs: 60,
        pqc_enabled: true,
    };
    assert_eq!(config.bind_address, "127.0.0.1:8443");
    assert!(!config.enable_0rtt);
    assert_eq!(config.max_streams, 50);
    assert!(config.pqc_enabled);
}

#[test]
fn test_quic_stats_default() {
    let stats = QuicStats::default();
    assert_eq!(stats.connections_accepted, 0);
    assert_eq!(stats.streams_handled, 0);
    assert_eq!(stats.active_connections, 0);
    assert_eq!(stats.zero_rtt_connections, 0);
}

#[test]
fn test_quic_config_defaults() {
    let config = QuicConfig::default();
    assert_eq!(config.bind_address, "0.0.0.0:443");
    assert!(config.enable_0rtt);
    assert!(config.pqc_enabled);
    assert_eq!(config.max_streams, 100);
}

#[test]
fn test_quic_config_custom() {
    let config = QuicConfig {
        bind_address: "127.0.0.1:8443".to_string(),
        cert_path: "/custom/path.crt".to_string(),
        key_path: "/custom/key.pem".to_string(),
        enable_0rtt: false,
        max_streams: 200,
        idle_timeout_secs: 60,
        pqc_enabled: false,
    };
    assert_eq!(config.bind_address, "127.0.0.1:8443");
    assert!(!config.enable_0rtt);
    assert!(!config.pqc_enabled);
    assert_eq!(config.max_streams, 200);
    assert_eq!(config.idle_timeout_secs, 60);
}

#[test]
fn test_quic_config_clone() {
    let config = QuicConfig::default();
    let cloned = config.clone();
    assert_eq!(config.bind_address, cloned.bind_address);
    assert_eq!(config.cert_path, cloned.cert_path);
    assert_eq!(config.max_streams, cloned.max_streams);
}

#[test]
fn test_quic_stats_clone() {
    let stats = QuicStats {
        connections_accepted: 100,
        streams_handled: 500,
        active_connections: 10,
        zero_rtt_connections: 50,
    };
    let cloned = stats.clone();
    assert_eq!(cloned.connections_accepted, 100);
    assert_eq!(cloned.streams_handled, 500);
}

#[test]
fn test_quic_stats_default_values() {
    let stats = QuicStats::default();
    assert_eq!(stats.connections_accepted, 0);
    assert_eq!(stats.streams_handled, 0);
    assert_eq!(stats.active_connections, 0);
    assert_eq!(stats.zero_rtt_connections, 0);
}

#[test]
fn test_quic_config_max_values() {
    let config = QuicConfig {
        bind_address: "0.0.0.0:443".to_string(),
        max_streams: 1000,
        idle_timeout_secs: 3600,
        ..Default::default()
    };
    assert_eq!(config.max_streams, 1000);
    assert_eq!(config.idle_timeout_secs, 3600);
}

#[test]
fn test_quic_stats_debug() {
    let stats = QuicStats::default();
    let debug_str = format!("{:?}", stats);
    assert!(debug_str.contains("connections"));
}

#[test]
fn test_quic_config_debug() {
    let config = QuicConfig::default();
    let debug_str = format!("{:?}", config);
    assert!(debug_str.contains("bind_address"));
}

#[test]
fn test_http3_config_default() {
    let config = Http3Config::default();
    assert_eq!(config.max_concurrent_streams, 100);
    assert_eq!(config.max_body_size, 16 * 1024 * 1024);
    assert!(config.log_requests);
}

#[test]
fn test_http3_config_custom() {
    let config = Http3Config { max_concurrent_streams: 50, max_body_size: 1024, log_requests: false };
    assert_eq!(config.max_concurrent_streams, 50);
    assert_eq!(config.max_body_size, 1024);
    assert!(!config.log_requests);
}

#[test]
fn test_http3_config_clone() {
    let config = Http3Config { max_concurrent_streams: 200, max_body_size: 2048, log_requests: false };
    let cloned = config.clone();
    assert_eq!(cloned.max_concurrent_streams, 200);
    assert_eq!(cloned.max_body_size, 2048);
    assert!(!cloned.log_requests);
}

#[test]
fn test_dual_stack_stats_default() {
    let stats = DualStackStats::default();
    assert_eq!(stats.http2_requests, 0);
    assert_eq!(stats.http3_requests, 0);
}
