use aegis_proxy::lifecycle::{HealthResponse, HealthStatus};
use std::time::Duration;

#[test]
fn test_health_status_display() {
    assert_eq!(HealthStatus::Healthy.to_string(), "healthy");
    assert_eq!(HealthStatus::Starting.to_string(), "starting");
    assert_eq!(HealthStatus::Draining.to_string(), "draining");
    assert_eq!(HealthStatus::Unhealthy.to_string(), "unhealthy");
}

#[test]
fn lifecycle_test_health_status_display() {
    assert_eq!(format!("{}", HealthStatus::Healthy.to_string()), "healthy");
    assert_eq!(format!("{}", HealthStatus::Starting.to_string()), "starting");
    assert_eq!(format!("{}", HealthStatus::Draining.to_string()), "draining");
    assert_eq!(format!("{}", HealthStatus::Unhealthy.to_string()), "unhealthy");
}

#[test]
fn test_health_status_codes() {
    assert_eq!(HealthStatus::Healthy.to_status_code(), 200);
    assert_eq!(HealthStatus::Starting.to_status_code(), 503);
    assert_eq!(HealthStatus::Draining.to_status_code(), 503);
    assert_eq!(HealthStatus::Unhealthy.to_status_code(), 503);
}

#[test]
fn test_health_status_checks() {
    assert!(HealthStatus::Healthy.is_ready());
    assert!(!HealthStatus::Starting.is_ready());
    assert!(HealthStatus::Healthy.is_alive());
    assert!(HealthStatus::Starting.is_alive());
    assert!(!HealthStatus::Unhealthy.is_alive());
}

#[test]
fn test_health_response_builders() {
    let response = HealthResponse::from_status(HealthStatus::Healthy)
        .with_uptime(Duration::from_secs(100).as_secs())
        .with_connections(5)
        .with_version("1.0.0");
    assert_eq!(response.uptime_seconds, Some(100));
    assert_eq!(response.connections, Some(5));
    assert_eq!(response.version, Some("1.0.0".to_string()));
}

#[test]
fn test_health_response_with_version() {
    let response = HealthResponse::from_status(HealthStatus::Healthy).with_version("1.0.0");
    assert_eq!(response.version.unwrap(), "1.0.0");
}

#[test]
fn test_health_response_with_all_fields() {
    let response = HealthResponse::from_status(HealthStatus::Healthy)
        .with_uptime(Duration::from_secs(3600).as_secs())
        .with_connections(100)
        .with_version("0.14.0");
    assert_eq!(response.uptime_seconds, Some(3600));
    assert_eq!(response.connections, Some(100));
    assert_eq!(response.version, Some("0.14.0".to_string()));
}

#[test]
fn test_health_status_to_status_code() {
    assert_eq!(HealthStatus::Healthy.to_status_code(), 200);
    assert_eq!(HealthStatus::Starting.to_status_code(), 503);
    assert_eq!(HealthStatus::Draining.to_status_code(), 503);
    assert_eq!(HealthStatus::Unhealthy.to_status_code(), 503);
}

#[test]
fn test_health_status_is_ready() {
    assert!(HealthStatus::Healthy.is_ready());
    assert!(!HealthStatus::Starting.is_ready());
    assert!(!HealthStatus::Draining.is_ready());
    assert!(!HealthStatus::Unhealthy.is_ready());
}

#[test]
fn test_health_status_is_alive() {
    assert!(HealthStatus::Healthy.is_alive());
    assert!(HealthStatus::Starting.is_alive());
    assert!(HealthStatus::Draining.is_alive());
    assert!(!HealthStatus::Unhealthy.is_alive());
}

#[test]
fn test_health_response_creation() {
    let response = HealthResponse::from_status(HealthStatus::Healthy);
    assert!(response.ready);
    assert!(response.alive);
}

#[test]
fn lifecycle_starting_response_fields() {
    let response = HealthResponse::from_status(HealthStatus::Starting);
    assert_eq!(response.status, "starting");
    assert!(!response.ready);
    assert!(response.alive);
    assert!(response.uptime_seconds.is_none());
}

use aegis_proxy::lifecycle::{DrainStep, LifecycleManager};

#[test]
fn lifecycle_test_connection_tracking() {
    let mut manager = LifecycleManager::new();
    manager.connection_started();
    assert_eq!(manager.active_connections(), 1);
    manager.connection_started();
    assert_eq!(manager.active_connections(), 2);
    manager.connection_finished();
    assert_eq!(manager.active_connections(), 1);
}

#[test]
fn test_lifecycle_manager_connections_count() {
    let manager = LifecycleManager::new();
    assert_eq!(manager.active_connections(), 0);
}

#[test]
fn test_with_drain_timeout() {
    let manager = LifecycleManager::new().with_drain_timeout((60, 0));
    assert_eq!(manager.drain_timeout(), (60, 0));
    assert_eq!(LifecycleManager::new().drain_timeout(), (30, 0));
}

#[test]
fn test_lifecycle_status_changes() {
    let mut manager = LifecycleManager::new();
    assert_eq!(manager.health_status(), HealthStatus::Starting);
    manager.mark_ready();
    assert!(manager.health_status().is_ready());
    manager.mark_unhealthy();
    assert!(!manager.health_status().is_alive());
}

#[test]
fn test_shutdown_begins_once() {
    let mut manager = LifecycleManager::new();
    manager.mark_ready();
    assert!(manager.begin_shutdown());
    assert!(manager.is_shutting_down());
    assert_eq!(manager.health_status(), HealthStatus::Draining);
    assert!(!manager.begin_shutdown());
}

#[test]
fn test_drain_steps() {
    let mut manager = LifecycleManager::new().with_drain_timeout((1, 0));
    assert_eq!(manager.drain_step((5, 0)), DrainStep::Drained);
    manager.connection_started();
    assert_eq!(manager.drain_step((0, 100_000_000)), DrainStep::Wait);
    assert_eq!(manager.drain_step((2, 0)), DrainStep::TimedOut);
    assert_eq!(manager.drain_step((1, 0)), DrainStep::Wait);
    assert_eq!(manager.drain_step((1, 1)), DrainStep::TimedOut);
}

#[test]
fn test_lifecycle_health_response() {
    let mut manager = LifecycleManager::new();
    manager.mark_ready();
    manager.connection_started();
    let r = manager.health_response("1.2.3");
    assert_eq!(r.status, "healthy");
    assert!(r.ready && r.alive);
    assert_eq!(r.connections, Some(1));
    assert_eq!(r.version, Some("1.2.3".to_string()));
    assert!(r.uptime_seconds.is_some());
}

#[test]
fn test_connection_count_wraps_like_atomic() {
    let mut manager = LifecycleManager::new();
    manager.connection_finished();
    assert_eq!(manager.active_connections(), u64::MAX);
    manager.connection_started();
    assert_eq!(manager.active_connections(), 0);
}
