use aegis_proxy::admin_api::RuntimeConfig;
use aegis_proxy::discovery::LoadBalanceStrategy;
use aegis_proxy::image_filter::{is_image_content_type, Rotation};
use std::collections::HashMap;

#[test]
fn test_load_balance_strategy_default() {
    let strategy: LoadBalanceStrategy = Default::default();
    assert_eq!(strategy, LoadBalanceStrategy::RoundRobin);
}

#[test]
fn test_load_balance_strategy_debug() {
    let strategy = LoadBalanceStrategy::RoundRobin;
    let debug_str = format!("{:?}", strategy);
    assert!(debug_str.contains("RoundRobin"));
}

#[test]
fn test_is_image_content_type() {
    assert!(is_image_content_type("image/jpeg"));
    assert!(is_image_content_type("image/png"));
    assert!(is_image_content_type("image/webp"));
    assert!(!is_image_content_type("text/html"));
    assert!(!is_image_content_type("application/json"));
}

#[test]
fn test_rotation_default() {
    assert_eq!(Rotation::default(), Rotation::NoRotation);
}

#[test]
fn image_content_type_parameters_are_ignored() {
    assert!(is_image_content_type(" image/gif ; charset=binary"));
    assert!(is_image_content_type("image/bmp"));
    assert!(!is_image_content_type("image/tiff"));
    assert!(!is_image_content_type(""));
}

#[test]
fn admin_bump_version_counts_changes() {
    let mut cfg = RuntimeConfig { version: 41, servers: HashMap::new(), upstreams: HashMap::new() };
    cfg.bump_version();
    assert_eq!(cfg.version, 42);
}
