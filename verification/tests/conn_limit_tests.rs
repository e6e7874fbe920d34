use aegis_proxy::conn_limit::ActiveConnections;

#[test]
fn test_active_connections() {
    let mut conn = ActiveConnections::new();
    assert_eq!(conn.current(), 0);
    assert_eq!(conn.increment(), 1);
    assert_eq!(conn.increment(), 2);
    conn.decrement();
    assert_eq!(conn.current(), 1);
}

#[test]
fn conn_limit_admit_refuses_over_limit() {
    let mut conn = ActiveConnections::new();
    assert!(conn.try_admit(1));
    assert!(!conn.try_admit(1));
    assert_eq!(conn.current(), 1);
}
