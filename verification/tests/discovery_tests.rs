use aegis_proxy::discovery::{Endpoint, LoadBalanceStrategy, ServiceRegistry};
use aegis_proxy::net::{IpAddress, SocketAddress};

fn addr(port: u16) -> SocketAddress {
    SocketAddress { ip: IpAddress::parse("127.0.0.1").unwrap(), port }
}

#[test]
fn test_register_service() {
    let mut registry = ServiceRegistry::new(LoadBalanceStrategy::RoundRobin);
    registry.register("backend", vec![addr(8080), addr(8081)]);
    assert_eq!(registry.endpoint_count("backend"), 2);
    assert_eq!(registry.healthy_count("backend"), 2);
}

#[test]
fn test_round_robin() {
    let mut registry = ServiceRegistry::new(LoadBalanceStrategy::RoundRobin);
    let (ep1, ep2) = (addr(8080), addr(8081));
    registry.register("backend", vec![ep1, ep2]);
    assert_eq!(registry.get_endpoint("backend").unwrap(), ep1);
    assert_eq!(registry.get_endpoint("backend").unwrap(), ep2);
    assert_eq!(registry.get_endpoint("backend").unwrap(), ep1);
}

#[test]
fn test_mark_failed() {
    let mut registry = ServiceRegistry::new(LoadBalanceStrategy::RoundRobin);
    let (ep1, ep2) = (addr(8080), addr(8081));
    registry.register("backend", vec![ep1, ep2]);
    for _ in 0..3 {
        registry.mark_failed("backend", ep1);
    }
    assert_eq!(registry.healthy_count("backend"), 1);
    assert_eq!(registry.get_endpoint("backend").unwrap(), ep2);
}

#[test]
fn test_empty_registry_lookup() {
    let mut registry = ServiceRegistry::new(LoadBalanceStrategy::RoundRobin);
    assert!(registry.get_endpoint("non-existent").is_none());
}

#[test]
fn test_mark_healthy_restore() {
    let mut registry = ServiceRegistry::new(LoadBalanceStrategy::RoundRobin);
    let ep1 = addr(8080);
    registry.register("restore-service", vec![ep1]);
    for _ in 0..3 {
        registry.mark_failed("restore-service", ep1);
    }
    assert_eq!(registry.healthy_count("restore-service"), 0);
    assert!(registry.get_endpoint("restore-service").is_none());
    registry.mark_healthy("restore-service", ep1);
    assert_eq!(registry.healthy_count("restore-service"), 1);
    assert!(registry.get_endpoint("restore-service").is_some());
}

#[test]
fn test_random_strategy() {
    let mut registry = ServiceRegistry::new(LoadBalanceStrategy::Random);
    let (ep1, ep2) = (addr(8080), addr(8081));
    registry.register("random-service", vec![ep1, ep2]);
    let picked = registry.get_endpoint("random-service").unwrap();
    assert!(picked == ep1 || picked == ep2);
}

#[test]
fn test_least_connections_strategy() {
    let mut registry = ServiceRegistry::new(LoadBalanceStrategy::LeastConnections);
    let ep1 = addr(8080);
    registry.register("lc-service", vec![ep1]);
    assert_eq!(registry.get_endpoint("lc-service").unwrap(), ep1);
}

#[test]
fn test_weighted_strategy_with_failure() {
    let mut registry = ServiceRegistry::new(LoadBalanceStrategy::WeightedRoundRobin);
    let (ep1, ep2) = (addr(8080), addr(8081));
    registry.register("weighted-service", vec![ep1, ep2]);
    for _ in 0..3 {
        registry.mark_failed("weighted-service", ep1);
    }
    for _ in 0..10 {
        assert_eq!(registry.get_endpoint("weighted-service").unwrap(), ep2);
    }
}

#[test]
fn test_endpoint_creation() {
    let endpoint = Endpoint::new(addr(8080));
    assert!(endpoint.healthy);
    assert_eq!(endpoint.failures, 0);
    assert_eq!(endpoint.weight, 100);
}

#[test]
fn test_endpoint_mark_failed() {
    let mut endpoint = Endpoint::new(addr(8080));
    endpoint.mark_failed();
    assert_eq!(endpoint.failures, 1);
    assert!(endpoint.healthy);
    endpoint.mark_failed();
    endpoint.mark_failed();
    assert_eq!(endpoint.failures, 3);
    assert!(!endpoint.healthy);
    assert_eq!(endpoint.weight, 0);
}

#[test]
fn test_endpoint_mark_healthy() {
    let mut endpoint = Endpoint::new(addr(8080));
    for _ in 0..3 {
        endpoint.mark_failed();
    }
    assert!(!endpoint.healthy);
    endpoint.mark_healthy();
    assert!(endpoint.healthy);
    assert_eq!(endpoint.failures, 0);
    assert_eq!(endpoint.weight, 100);
}

#[test]
fn test_get_endpoint_round_robin() {
    let mut registry = ServiceRegistry::new(LoadBalanceStrategy::RoundRobin);
    let addrs = vec![addr(8080), addr(8081)];
    registry.register("test-svc", addrs.clone());
    let ep1 = registry.get_endpoint("test-svc").unwrap();
    let ep2 = registry.get_endpoint("test-svc").unwrap();
    assert!(addrs.contains(&ep1));
    assert!(addrs.contains(&ep2));
}

#[test]
fn test_get_endpoint_no_healthy() {
    let mut registry = ServiceRegistry::new(LoadBalanceStrategy::RoundRobin);
    let a = addr(8080);
    registry.register("test-svc", vec![a]);
    for _ in 0..5 {
        registry.mark_failed("test-svc", a);
    }
    assert!(registry.get_endpoint("test-svc").is_none());
}

#[test]
fn test_list_services_registry() {
    let mut registry = ServiceRegistry::new(LoadBalanceStrategy::RoundRobin);
    registry.register("svc1", vec![addr(8080)]);
    registry.register("svc2", vec![addr(8081)]);
    let services = registry.list_services();
    assert_eq!(services.len(), 2);
    registry.register("svc1", vec![addr(9000), addr(9001)]);
    assert_eq!(registry.list_services(), vec!["svc1".to_string(), "svc2".to_string()]);
    assert_eq!(registry.endpoint_count("svc1"), 2);
}

#[test]
fn test_weighted_round_robin_zero_weight_fallback() {
    let mut registry = ServiceRegistry::new(LoadBalanceStrategy::WeightedRoundRobin);
    let ep1 = addr(8080);
    registry.register("zero-weight", vec![ep1]);
    for _ in 0..3 {
        registry.mark_failed("zero-weight", ep1);
    }
    registry.mark_healthy("zero-weight", ep1);
    assert!(registry.get_endpoint("zero-weight").is_some());
}

#[test]
fn test_mark_failed_nonexistent_service() {
    let mut registry = ServiceRegistry::new(LoadBalanceStrategy::RoundRobin);
    registry.mark_failed("nonexistent", addr(8080));
    registry.mark_healthy("nonexistent", addr(8080));
    assert_eq!(registry.endpoint_count("nonexistent"), 0);
}

#[test]
fn test_endpoint_new() {
    let a = addr(8080);
    let ep = Endpoint::new(a);
    assert_eq!(ep.addr, a);
    assert!(ep.healthy);
    assert_eq!(ep.failures, 0);
    assert_eq!(ep.weight, 100);
}

#[test]
fn test_endpoint_failure_threshold() {
    let mut ep = Endpoint::new(addr(8080));
    ep.mark_failed();
    assert_eq!(ep.failures, 1);
    assert!(ep.healthy);
    ep.mark_failed();
    ep.mark_failed();
    assert!(!ep.healthy);
    assert_eq!(ep.weight, 0);
}

#[test]
fn test_endpoint_recovery() {
    let mut ep = Endpoint::new(addr(8080));
    for _ in 0..3 {
        ep.mark_failed();
    }
    assert!(!ep.healthy);
    ep.mark_healthy();
    assert!(ep.healthy);
    assert_eq!(ep.failures, 0);
}

#[test]
fn test_endpoint_debug() {
    let ep = Endpoint::new(addr(8080));
    let debug = format!("{:?}", ep);
    assert!(debug.contains("Endpoint"));
}

#[test]
fn test_endpoint_clone() {
    let ep1 = Endpoint::new(addr(9000));
    let ep2 = ep1.clone();
    assert_eq!(ep1.addr, ep2.addr);
    assert_eq!(ep1.healthy, ep2.healthy);
}

#[test]
fn test_endpoint_initial_state() {
    let ep = Endpoint::new(addr(8080));
    assert!(ep.healthy);
    assert_eq!(ep.failures, 0);
    assert_eq!(ep.weight, 100);
}

#[test]
fn test_endpoint_mark_failed_once() {
    let mut ep = Endpoint::new(addr(8080));
    ep.mark_failed();
    assert_eq!(ep.failures, 1);
    assert!(ep.healthy);
}

#[test]
fn test_endpoint_mark_failed_twice() {
    let mut ep = Endpoint::new(addr(8080));
    ep.mark_failed();
    ep.mark_failed();
    assert_eq!(ep.failures, 2);
    assert!(ep.healthy);
}

#[test]
fn test_endpoint_mark_failed_three_times() {
    let mut ep = Endpoint::new(addr(8080));
    ep.mark_failed();
    ep.mark_failed();
    ep.mark_failed();
    assert_eq!(ep.failures, 3);
    assert!(!ep.healthy);
    assert_eq!(ep.weight, 0);
}

#[test]
fn test_list_services_empty() {
    let registry = ServiceRegistry::new(LoadBalanceStrategy::RoundRobin);
    assert_eq!(registry.list_services().len(), 0);
}

#[test]
fn test_endpoint_count_nonexistent() {
    let registry = ServiceRegistry::new(LoadBalanceStrategy::RoundRobin);
    assert_eq!(registry.endpoint_count("non-existent"), 0);
}
