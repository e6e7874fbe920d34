use aegis_proxy::lb::LoadBalancer;
use aegis_proxy::upstream::{LoadBalanceStrategy, UpstreamServer};

fn dummy_server(addr: &str, weight: u32, down: bool, backup: bool) -> UpstreamServer {
    UpstreamServer { addr: addr.to_string(), weight, max_connections: None, backup, down }
}

#[test]
fn test_weighted_round_robin() {
    let servers = vec![dummy_server("s1", 3, false, false), dummy_server("s2", 1, false, false)];
    let mut lb = LoadBalancer::new(LoadBalanceStrategy::RoundRobin, servers);
    assert_eq!(lb.select_server(None).unwrap().config.addr, "s1");
    assert_eq!(lb.select_server(None).unwrap().config.addr, "s1");
    assert_eq!(lb.select_server(None).unwrap().config.addr, "s1");
    assert_eq!(lb.select_server(None).unwrap().config.addr, "s2");
    assert_eq!(lb.select_server(None).unwrap().config.addr, "s1");
}

#[test]
fn test_least_connections() {
    let servers = vec![dummy_server("s1", 1, false, false), dummy_server("s2", 1, false, false)];
    let mut lb = LoadBalancer::new(LoadBalanceStrategy::LeastConnections, servers);
    lb.servers[0].active_connections = 10;
    lb.servers[1].active_connections = 5;
    assert_eq!(lb.select_server(None).unwrap().config.addr, "s2");
    lb.servers[0].active_connections = 5;
    lb.servers[0].config.weight = 5;
    lb.servers[1].config.weight = 1;
    assert_eq!(lb.select_server(None).unwrap().config.addr, "s1");
}

#[test]
fn test_ip_hash() {
    let servers = vec![dummy_server("s1", 1, false, false), dummy_server("s2", 1, false, false)];
    let mut lb = LoadBalancer::new(LoadBalanceStrategy::IpHash, servers);
    let s1 = lb.select_server(Some("192.168.1.100")).unwrap().config.addr.clone();
    let s2 = lb.select_server(Some("192.168.1.100")).unwrap().config.addr.clone();
    assert_eq!(s1, s2);
}

#[test]
fn test_p2c() {
    let servers = vec![
        dummy_server("s1", 1, false, false),
        dummy_server("s2", 1, false, false),
        dummy_server("s3", 1, false, false),
    ];
    let mut lb = LoadBalancer::new(LoadBalanceStrategy::PowerOfTwoChoices, servers);
    lb.servers[0].active_connections = 100;
    lb.servers[1].active_connections = 100;
    lb.servers[2].active_connections = 0;
    let mut s3_chosen = false;
    for _ in 0..10 {
        if lb.select_server(None).unwrap().config.addr == "s3" {
            s3_chosen = true;
        }
    }
    assert!(s3_chosen);
}

#[test]
fn lb_backups_only_when_no_primary_is_up() {
    let servers = vec![
        dummy_server("p", 1, true, false),
        dummy_server("b", 1, false, true),
        dummy_server("d", 1, true, true),
    ];
    let mut lb = LoadBalancer::new(LoadBalanceStrategy::RoundRobin, servers);
    assert_eq!(lb.select_server(None).unwrap().config.addr, "b");
    let mut none = LoadBalancer::new(LoadBalanceStrategy::RoundRobin, vec![dummy_server("x", 1, true, false)]);
    assert!(none.select_server(None).is_none());
    let mut zero = LoadBalancer::new(LoadBalanceStrategy::RoundRobin, vec![dummy_server("z", 0, false, false)]);
    assert!(zero.select_server(None).is_none());
}

#[test]
fn lb_generic_hash_is_stable() {
    let servers = vec![dummy_server("a", 1, false, false), dummy_server("b", 1, false, false)];
    let mut lb = LoadBalancer::new(LoadBalanceStrategy::GenericHash("$uri".to_string()), servers);
    let x = lb.select_index(Some("/index"));
    let y = lb.select_index(Some("/index"));
    assert_eq!(x, y);
    assert!(x.unwrap() < 2);
}
