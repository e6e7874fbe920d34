use aegis_proxy::access_log::{
    generate_launchd_plist, generate_systemd_unit, parse_log_format, AccessLogRecord, LogToken,
    RotationConfig,
};

fn sample_record() -> AccessLogRecord {
    AccessLogRecord {
        remote_addr: "127.0.0.1".to_string(),
        time_secs: 1_700_000_000,
        time_nanos: 0,
        method: "GET".to_string(),
        uri: "/index.html".to_string(),
        proto: "HTTP/1.1".to_string(),
        status: 200,
        body_bytes_sent: 512,
        referer: Some("https://google.com".to_string()),
        user_agent: Some("Mozilla/5.0".to_string()),
        request_time_ms: 42,
        upstream_response_time_ms: Some(38),
        host: "example.com".to_string(),
    }
}

#[test]
fn test_combined_format() {
    let record = sample_record();
    let line = record.render_combined();
    assert!(line.starts_with("127.0.0.1"));
    assert!(line.contains("GET /index.html HTTP/1.1"));
    assert!(line.contains("200"));
    assert!(line.contains("512"));
    assert!(line.contains("google.com"));
}

#[test]
fn combined_format_exact() {
    let mut record = sample_record();
    record.user_agent = None;
    assert_eq!(
        record.render_combined(),
        "127.0.0.1 - - [14/Nov/2023:22:13:20 +0000] \"GET /index.html HTTP/1.1\" 200 512 \"https://google.com\" \"-\""
    );
}

#[test]
fn test_custom_format_parse() {
    let tokens = parse_log_format("$remote_addr [$time_local] \"$request\" $status $body_bytes_sent");
    assert!(tokens.contains(&LogToken::RemoteAddr));
    assert!(tokens.contains(&LogToken::Status));
    assert!(tokens.contains(&LogToken::Request));
}

#[test]
fn custom_format_parse_exact() {
    assert_eq!(
        parse_log_format("a$host:$x_y$$"),
        vec![
            LogToken::Literal("a".to_string()),
            LogToken::Host,
            LogToken::Literal(":".to_string()),
            LogToken::Unknown("x_y".to_string()),
            LogToken::Unknown(String::new()),
            LogToken::Unknown(String::new()),
        ]
    );
    assert_eq!(parse_log_format(""), vec![]);
}

#[test]
fn test_custom_format_render() {
    let tokens = parse_log_format("$status $request_time");
    let record = sample_record();
    let out = record.render_custom(&tokens);
    assert_eq!(out, "200 0.042");
}

#[test]
fn custom_format_render_all_tokens() {
    let tokens = parse_log_format("$remote_addr $time_local $request $body_bytes_sent $http_referer $http_user_agent $upstream_response_time $host $nope");
    let mut record = sample_record();
    record.upstream_response_time_ms = Some(12_345);
    assert_eq!(
        record.render_custom(&tokens),
        "127.0.0.1 [14/Nov/2023:22:13:20 +0000] GET /index.html HTTP/1.1 512 https://google.com Mozilla/5.0 12.345 example.com $nope"
    );
    record.upstream_response_time_ms = None;
    assert_eq!(record.render_custom(&parse_log_format("$upstream_response_time")), "-");
}

#[test]
fn test_rotation_size_exceeded() {
    let cfg = RotationConfig::on_size(1024 * 1024, 5, true);
    assert!(cfg.size_exceeded(2 * 1024 * 1024));
    assert!(!cfg.size_exceeded(512 * 1024));
}

#[test]
fn test_rotation_daily_no_size_trigger() {
    let cfg = RotationConfig::daily(7, true);
    assert!(!cfg.size_exceeded(999_999_999));
}

#[test]
fn test_rotated_filename() {
    assert_eq!(RotationConfig::rotated_name("access.log", 1), "access.log.1");
    assert_eq!(RotationConfig::rotated_name("access.log", 3), "access.log.3");
}

#[test]
fn test_systemd_unit_generation() {
    let unit = generate_systemd_unit("myapp", "/usr/bin/myapp --config /etc/myapp.toml", "root");
    assert!(unit.contains("[Unit]"));
    assert!(unit.contains("ExecStart=/usr/bin/myapp"));
    assert!(unit.contains("Restart=always"));
    assert!(unit.contains("WantedBy=multi-user.target"));
}

#[test]
fn test_launchd_plist_generation() {
    let plist = generate_launchd_plist("myapp", &["/usr/bin/myapp", "--config", "/etc/myapp.toml"]);
    assert!(plist.contains("com.aegis-flow.myapp"));
    assert!(plist.contains("KeepAlive"));
    assert!(plist.contains("RunAtLoad"));
    assert!(plist.contains("/usr/bin/myapp"));
    assert!(plist.contains("<array>\n        <string>/usr/bin/myapp</string>\n        <string>--config</string>\n        <string>/etc/myapp.toml</string>\n</array>"));
}
