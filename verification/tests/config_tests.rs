use aegis_proxy::config::{ConfigError, ConfigFormat, HealthConfig, LogConfig, ProxyConfig, TlsConfig};

#[test]
fn config_test_default_config() {
    let config = ProxyConfig::default();
    assert_eq!(config.port, 8443);
    assert!(config.tls_enabled);
    assert!(config.pqc_enabled);
}

#[test]
fn test_validation() {
    let mut config = ProxyConfig::default();
    assert!(config.validate().is_ok());
    config.port = 0;
    assert!(config.validate().is_err());
}

#[test]
fn test_config_format_detection() {
    assert_eq!(ConfigFormat::from_path("config.yaml"), Some(ConfigFormat::Yaml));
    assert_eq!(ConfigFormat::from_path("config.yml"), Some(ConfigFormat::Yaml));
    assert_eq!(ConfigFormat::from_path("config.toml"), Some(ConfigFormat::Toml));
    assert_eq!(ConfigFormat::from_path("config.json"), Some(ConfigFormat::Json));
    assert_eq!(ConfigFormat::from_path("config.txt"), None);
}

#[test]
fn test_validation_missing_upstream() {
    let config = ProxyConfig { upstream_addr: "".to_string(), ..Default::default() };
    match config.validate() {
        Err(ConfigError::ValidationError(msg)) => assert!(msg.contains("Upstream address")),
        _ => panic!("Expected ValidationError"),
    }
}

#[test]
fn test_tls_config_default() {
    let tls = TlsConfig::default();
    assert!(tls.enabled);
    assert!(tls.cert_path.contains("server.crt"));
    assert!(tls.key_path.contains("server.key"));
    assert!(tls.ca_path.is_none());
    assert!(!tls.require_client_cert);
}

#[test]
fn test_log_config_default() {
    let log = LogConfig::default();
    assert_eq!(log.level, "info");
    assert!(!log.json_format);
}

#[test]
fn test_config_format_no_extension() {
    assert_eq!(ConfigFormat::from_path("config"), None);
}

#[test]
fn test_config_error_display() {
    assert_eq!(ConfigError::IoError("e".into()).to_string(), "IO error: e");
    assert_eq!(ConfigError::ParseError("e".into()).to_string(), "Parse error: e");
    assert_eq!(ConfigError::ValidationError("e".into()).to_string(), "Validation error: e");
    assert_eq!(
        ConfigError::UnsupportedFormat("p".into()).to_string(),
        "Unsupported config format: p"
    );
}

#[test]
fn test_proxy_config_default() {
    let config = ProxyConfig::default();
    assert_eq!(config.host, "0.0.0.0");
    assert_eq!(config.port, 8443);
}

#[test]
fn test_proxy_config_clone() {
    let config = ProxyConfig { host: "127.0.0.1".to_string(), port: 3000, ..Default::default() };
    let cloned = config.clone();
    assert_eq!(config.host, cloned.host);
    assert_eq!(config.port, cloned.port);
}

#[test]
fn test_config_error_debug() {
    let err = ConfigError::IoError("test io".to_string());
    let debug_str = format!("{:?}", err);
    assert!(debug_str.contains("IoError"));
    assert!(debug_str.contains("test io"));
}

#[test]
fn test_validate_tls_certs_missing() {
    let config = ProxyConfig {
        tls_enabled: true,
        tls: TlsConfig {
            enabled: true,
            cert_path: "/nonexistent/cert.crt".to_string(),
            key_path: "/nonexistent/key.pem".to_string(),
            ..Default::default()
        },
        ..Default::default()
    };
    assert!(config.validate().is_ok());
}

#[test]
fn test_proxy_config_all_fields() {
    let config = ProxyConfig {
        host: "192.168.1.1".to_string(),
        port: 9000,
        pqc_enabled: false,
        upstream_addr: "backend:8080".to_string(),
        ..Default::default()
    };
    assert_eq!(config.host, "192.168.1.1");
    assert_eq!(config.port, 9000);
    assert!(!config.pqc_enabled);
    assert_eq!(config.upstream_addr, "backend:8080");
}

#[test]
fn test_tls_config_debug() {
    let tls = TlsConfig::default();
    let debug_str = format!("{:?}", tls);
    assert!(debug_str.contains("cert_path"));
    assert!(debug_str.contains("key_path"));
}

#[test]
fn test_proxy_config_clone_fields() {
    let config1 = ProxyConfig::default();
    let config2 = config1.clone();
    assert_eq!(config1.port, config2.port);
    assert_eq!(config1.host, config2.host);
}

#[test]
fn test_tls_config_clone() {
    let tls1 = TlsConfig::default();
    let tls2 = tls1.clone();
    assert_eq!(tls1.enabled, tls2.enabled);
}

#[test]
fn test_proxy_config_with_custom_host() {
    let config = ProxyConfig { host: "192.168.1.1".to_string(), ..Default::default() };
    assert_eq!(config.host, "192.168.1.1");
}

#[test]
fn test_proxy_config_with_pqc() {
    let config = ProxyConfig { pqc_enabled: true, ..Default::default() };
    assert!(config.pqc_enabled);
}

#[test]
fn test_proxy_config_upstream() {
    let config = ProxyConfig { upstream_addr: "backend.local:8080".to_string(), ..Default::default() };
    assert!(config.upstream_addr.contains("backend.local"));
}

#[test]
fn test_health_config_default() {
    let config = HealthConfig::default();
    assert!(config.port > 0);
}

#[test]
fn health_server_test_health_config_clone() {
    let config = HealthConfig { port: 9090, enabled: true, ..Default::default() };
    let cloned = config.clone();
    assert_eq!(cloned.port, 9090);
    assert!(cloned.enabled);
}

#[test]
fn test_health_config_default_values() {
    let config = HealthConfig::default();
    assert_eq!(config.port, 8081);
    assert!(config.enabled);
}

#[test]
fn test_health_config_custom() {
    let config = HealthConfig { port: 8888, enabled: false, ..Default::default() };
    assert_eq!(config.port, 8888);
    assert!(!config.enabled);
}

#[test]
fn config_port_checked_before_upstream() {
    let config = ProxyConfig { port: 0, upstream_addr: String::new(), ..Default::default() };
    match config.validate() {
        Err(ConfigError::ValidationError(msg)) => assert_eq!(msg, "Port cannot be 0"),
        _ => panic!("Expected ValidationError"),
    }
    assert_eq!(ConfigFormat::from_path("/etc/app/conf.d/x.json"), Some(ConfigFormat::Json));
    assert_eq!(ConfigFormat::from_path(".yaml"), None);
}
