use aegis_proxy::health_check::{HealthStatus, ServerHealthState};
use aegis_proxy::upstream::HealthCheckConfig;

fn config() -> HealthCheckConfig {
    HealthCheckConfig {
        interval_ms: 1000,
        timeout_ms: 500,
        healthy_threshold: 2,
        unhealthy_threshold: 3,
        path: "/health".to_string(),
    }
}

#[test]
fn test_server_health_state() {
    let mut state = ServerHealthState::new("127.0.0.1:80".to_string(), config());
    assert!(!state.record_failure());
    assert_eq!(state.status, HealthStatus::Unknown);
    assert_eq!(state.consecutive_failures, 1);
    assert!(!state.record_failure());
    assert_eq!(state.status, HealthStatus::Unknown);
    assert_eq!(state.consecutive_failures, 2);
    assert!(state.record_failure());
    assert_eq!(state.status, HealthStatus::Unhealthy);
    assert!(!state.record_failure());
    assert!(!state.record_success());
    assert_eq!(state.status, HealthStatus::Unhealthy);
    assert_eq!(state.consecutive_failures, 0);
    assert_eq!(state.consecutive_successes, 1);
    assert!(state.record_success());
    assert_eq!(state.status, HealthStatus::Healthy);
}

#[test]
fn test_passive_health_checks() {
    let mut state = ServerHealthState::new("127.0.0.1:80".to_string(), config());
    let max_fails = 2;
    assert!(!state.record_passive_failure(max_fails));
    assert!(state.record_passive_failure(max_fails));
    assert_eq!(state.status, HealthStatus::Unhealthy);
}

#[test]
fn health_success_resets_passive_failures() {
    let mut state = ServerHealthState::new("h".to_string(), config());
    state.record_passive_failure(5);
    assert_eq!(state.passive_failures, 1);
    state.record_success();
    assert_eq!(state.passive_failures, 0);
}
