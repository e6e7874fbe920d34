use aegis_proxy::dual_stack_server::{DualStackConfig, DualStackStats};

#[test]
fn dual_stack_server_test_default_config() {
    let config = DualStackConfig::default();
    assert!(config.advertise_h3);
    assert_eq!(config.quic_port, 443);
}

#[test]
fn test_alt_svc_header() {
    let config = DualStackConfig::default();
    let header = config.alt_svc_header();
    assert!(header.contains("h3="));
    assert!(header.contains("ma=86400"));
    assert_eq!(header, "h3=\":443\"; ma=86400");
}

#[test]
fn test_alt_svc_disabled() {
    let config = DualStackConfig { advertise_h3: false, ..Default::default() };
    assert!(config.alt_svc_header().is_empty());
}

#[test]
fn test_dual_stack_config_default() {
    let config = DualStackConfig::default();
    assert!(config.advertise_h3);
    assert_eq!(config.quic_port, 443);
}

#[test]
fn test_alt_svc_header_disabled() {
    let config = DualStackConfig { advertise_h3: false, ..Default::default() };
    assert!(config.alt_svc_header().is_empty());
}

#[test]
fn test_alt_svc_header_custom_port() {
    let config = DualStackConfig { advertise_h3: true, quic_port: 8443, ..Default::default() };
    let header = config.alt_svc_header();
    assert!(header.contains("8443"));
    assert!(header.contains("h3"));
}

#[test]
fn dual_stack_stats_start_at_zero() {
    let stats = DualStackStats::default();
    assert_eq!(stats.http2_requests, 0);
    assert_eq!(stats.http3_requests, 0);
}
