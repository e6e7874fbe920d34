use aegis_proxy::circuit_breaker::{CircuitBreaker, CircuitState};
use std::time::{Duration, Instant};

#[test]
fn test_circuit_breaker_transitions() {
    let mut cb = CircuitBreaker::new(50, 10000, 5000);
    assert_eq!(cb.state, CircuitState::Closed);
    for _ in 0..4 {
        assert!(cb.acquire());
        cb.record_success();
    }
    for _ in 0..4 {
        assert!(cb.acquire());
        cb.record_failure();
    }
    assert_eq!(cb.state, CircuitState::Open);
    assert!(!cb.acquire());
    cb.last_state_change = Instant::now().checked_sub(Duration::from_secs(10)).unwrap();
    assert!(cb.acquire());
    assert_eq!(cb.state, CircuitState::HalfOpen);
    assert!(!cb.acquire());
    cb.record_failure();
    assert_eq!(cb.state, CircuitState::Open);
    cb.last_state_change = Instant::now().checked_sub(Duration::from_secs(10)).unwrap();
    assert!(cb.acquire());
    assert_eq!(cb.state, CircuitState::HalfOpen);
    cb.record_success();
    assert_eq!(cb.state, CircuitState::Closed);
    assert!(cb.acquire());
}

#[test]
fn circuit_breaker_needs_more_than_five_requests() {
    let mut cb = CircuitBreaker::new(1, 60000, 60000);
    for _ in 0..5 {
        cb.record_failure();
    }
    assert_eq!(cb.state, CircuitState::Closed);
    cb.record_failure();
    assert_eq!(cb.state, CircuitState::Open);
}

#[test]
fn circuit_breaker_acquire_at_is_a_pure_step() {
    let mut cb = CircuitBreaker::new(50, 1000, 1000);
    cb.state = CircuitState::Open;
    cb.total_requests = 7;
    let now = Instant::now();
    assert!(!cb.acquire_at(now, false, false));
    assert_eq!(cb.total_requests, 7);
    assert!(cb.acquire_at(now, true, true));
    assert_eq!(cb.state, CircuitState::HalfOpen);
    assert_eq!(cb.total_requests, 0);
}

#[test]
fn circuit_breaker_keeps_its_timings() {
    let cb = CircuitBreaker::new(50, 10000, 5000);
    assert_eq!(cb.window_size, 10000);
    assert_eq!(cb.open_time, 5000);
}
