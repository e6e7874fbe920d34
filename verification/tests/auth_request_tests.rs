use aegis_proxy::auth_request::{
    begin_check, build_cache_key, finish_check, AuthCache, AuthResult, AuthStep, SatisfyMode,
    SubrequestReply,
};

#[test]
fn cache_key_text() {
    assert_eq!(build_cache_key("http://auth/check", Some("Bearer x"), None), "http://auth/check|Bearer x|-");
    assert_eq!(build_cache_key("u", None, Some("sid=1")), "u|-|sid=1");
}

#[test]
fn satisfy_default_is_all() {
    assert_eq!(SatisfyMode::default(), SatisfyMode::All);
}

#[test]
fn allow_is_cached_for_a_minute() {
    let mut cache = AuthCache::new();
    let step = begin_check(&mut cache, 1_000, "http://auth", Some("tok"), None);
    let key = match step {
        AuthStep::Fetch { key } => key,
        _ => panic!("expected a subrequest"),
    };
    assert_eq!(key, "http://auth|tok|-");
    let extract = vec![("$user".to_string(), "X-User".to_string()), ("$bad".to_string(), "X-Missing".to_string())];
    let reply = SubrequestReply::Response {
        status: 204,
        headers: vec![("x-user".to_string(), b"alice".to_vec())],
        body: vec![],
    };
    let r = finish_check(&mut cache, 1_000, key, reply, &extract);
    assert_eq!(r, AuthResult::Allowed(vec![("$user".to_string(), "alice".to_string())]));
    match begin_check(&mut cache, 60_999, "http://auth", Some("tok"), None) {
        AuthStep::Done(AuthResult::Allowed(h)) => assert_eq!(h, vec![("$user".to_string(), "alice".to_string())]),
        _ => panic!("expected a cached allow"),
    }
    // expired a minute after the decision
    assert!(matches!(begin_check(&mut cache, 61_000, "http://auth", Some("tok"), None), AuthStep::Fetch { .. }));
}

#[test]
fn denial_passes_status_and_challenge_through() {
    let mut cache = AuthCache::new();
    let reply = SubrequestReply::Response {
        status: 401,
        headers: vec![("www-authenticate".to_string(), b"Basic realm=x".to_vec())],
        body: b"nope".to_vec(),
    };
    match finish_check(&mut cache, 5, "k".to_string(), reply, &vec![]) {
        AuthResult::Denied(resp) => {
            assert_eq!(resp.status, 401);
            assert_eq!(resp.www_authenticate, Some(b"Basic realm=x".to_vec()));
            assert_eq!(resp.body, b"nope");
        },
        _ => panic!("expected a denial"),
    }
    // denials are not cached
    assert!(matches!(begin_check(&mut cache, 6, "k", None, None), AuthStep::Fetch { .. }));
}

#[test]
fn subrequest_errors_are_500() {
    let mut cache = AuthCache::new();
    match finish_check(&mut cache, 0, "k".to_string(), SubrequestReply::InvalidUri, &vec![]) {
        AuthResult::Error(resp) => {
            assert_eq!(resp.status, 500);
            assert_eq!(resp.body, b"Internal Server Error (Auth Request Configuration Invalid)");
        },
        _ => panic!(),
    }
    match finish_check(&mut cache, 0, "k".to_string(), SubrequestReply::Failed, &vec![]) {
        AuthResult::Error(resp) => assert_eq!(resp.body, b"Internal Server Error (Auth Request Failed)"),
        _ => panic!(),
    }
}
