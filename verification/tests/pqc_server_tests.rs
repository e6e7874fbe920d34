use aegis_proxy::config::ProxyConfig;
use aegis_proxy::pqc_server::{HandshakeAction, HandshakeFlow, HandshakePhase, PqcProxyServer, MAX_CIPHERTEXT_LEN};

#[test]
fn test_pqc_proxy_server_creation() {
    let config = ProxyConfig { host: "127.0.0.1".to_string(), port: 8443, pqc_enabled: true, ..Default::default() };
    let server = PqcProxyServer::new(config);
    let _ = format!("{:p}", &server);
}

#[test]
fn test_pqc_server_config_options() {
    let config = ProxyConfig {
        host: "0.0.0.0".to_string(),
        port: 8443,
        pqc_enabled: true,
        upstream_addr: "backend:9000".to_string(),
        ..Default::default()
    };
    let server = PqcProxyServer::new(config);
    let _ = format!("{:p}", &server);
}

#[test]
fn test_pqc_server_with_default_config() {
    let config = ProxyConfig::default();
    let server = PqcProxyServer::new(config);
    let _ = &server;
}

#[test]
fn test_pqc_server_with_custom_port() {
    let config = ProxyConfig { port: 9443, ..Default::default() };
    let server = PqcProxyServer::new(config);
    assert_eq!(server.config.port, 9443);
}

#[test]
fn test_pqc_server_pqc_mode() {
    let config = ProxyConfig { pqc_enabled: true, ..Default::default() };
    let server = PqcProxyServer::new(config);
    assert!(server.config.pqc_enabled);
}

#[test]
fn test_handshake_key_frame() {
    let (mut flow, action) = HandshakeFlow::start(&[9, 8, 7]);
    match action {
        HandshakeAction::Write(b) => assert_eq!(b, vec![0, 0, 0, 3, 9, 8, 7]),
        _ => panic!("expected the key frame"),
    }
    assert!(flow.on_key_sent() == HandshakeAction::ReadExact(4));
    assert!(flow.phase == HandshakePhase::ReadingLength);
}

#[test]
fn test_handshake_reads_ciphertext() {
    let (mut flow, _) = HandshakeFlow::start(&[1]);
    flow.on_key_sent();
    assert!(flow.on_length(&[0, 0, 0x04, 0x00]) == HandshakeAction::ReadExact(1024));
    match flow.on_ciphertext(vec![5; 1024]) {
        HandshakeAction::Complete(ct) => assert_eq!(ct.len(), 1024),
        _ => panic!("expected completion"),
    }
    assert!(flow.phase == HandshakePhase::Done);
}

#[test]
fn test_ciphertext_too_large() {
    let (mut flow, _) = HandshakeFlow::start(&[1]);
    flow.on_key_sent();
    assert!(flow.on_length(&20000u32.to_be_bytes()) == HandshakeAction::TooLarge(20000));
    assert!(flow.phase == HandshakePhase::Refused);
    let (mut flow, _) = HandshakeFlow::start(&[1]);
    flow.on_key_sent();
    let limit = (MAX_CIPHERTEXT_LEN as u32).to_be_bytes();
    assert!(flow.on_length(&limit) == HandshakeAction::ReadExact(MAX_CIPHERTEXT_LEN));
}
