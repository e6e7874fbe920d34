use aegis_proxy::auth::{create_401_response, BasicAuthConfig};

#[test]
fn test_basic_auth() {
    let mut config = BasicAuthConfig::new("Restricted");
    let pw_hash = bcrypt::hash("secret", 4).unwrap();
    config.add_user("admin", &pw_hash);
    assert!(config.check_auth(Some(b"Basic YWRtaW46c2VjcmV0")));
    assert!(!config.check_auth(Some(b"Basic cm9vdDpzZWNyZXQ=")));
    assert!(!config.check_auth(Some(b"Basic YWRtaW46d3Jvbmc=")));
}

#[test]
fn basic_auth_malformed_inputs() {
    let mut config = BasicAuthConfig::new("r");
    config.add_user("admin", "not-a-bcrypt-hash");
    assert!(!config.check_auth(None));
    assert!(!config.check_auth(Some(b"Bearer abc")));
    assert!(!config.check_auth(Some(b"Basic !!!")));
    assert!(!config.check_auth(Some(b"Basic YWRtaW4=")));
    assert!(!config.check_auth(Some(b"Basic YWRtaW46c2VjcmV0")));
    let h = bcrypt::hash("x", 4).unwrap();
    config.add_user("admin", &h);
    assert_eq!(config.users.len(), 1);
    assert!(config.check_auth(Some(b"Basic YWRtaW46eA==")));
}

#[test]
fn test_401() {
    let res = create_401_response("MyRealm");
    assert_eq!(res.status, 401);
    assert_eq!(res.www_authenticate, "Basic realm=\"MyRealm\"");
}
