use aegis_proxy::net::{IpAddress, SocketAddress};
use aegis_proxy::proxy_protocol::{ProxyHeader, ProxyProtocolError};

fn sock(ip: &str, port: u16) -> SocketAddress {
    SocketAddress { ip: IpAddress::parse(ip).unwrap(), port }
}

#[test]
fn test_parse_v1_tcp4() {
    let input = b"PROXY TCP4 192.168.1.100 10.0.0.1 50000 80\r\nSome other data";
    let (header, bytes_read) = ProxyHeader::parse_v1(input).unwrap().unwrap();

    assert_eq!(bytes_read, 44);
    assert_eq!(header.source_addr, sock("192.168.1.100", 50000));
    assert_eq!(header.dest_addr, sock("10.0.0.1", 80));
}

#[test]
fn test_to_v1_bytes() {
    let header = ProxyHeader {
        source_addr: sock("192.168.1.100", 50000),
        dest_addr: sock("10.0.0.1", 80),
    };
    let bytes = header.to_v1_bytes();
    assert_eq!(bytes, b"PROXY TCP4 192.168.1.100 10.0.0.1 50000 80\r\n");
}

#[test]
fn test_v2_roundtrip_ipv4() {
    let src = sock("192.168.1.100", 50000);
    let dst = sock("10.0.0.1", 80);
    let header = ProxyHeader { source_addr: src, dest_addr: dst };

    let encoded = header.to_v2_bytes();
    let (decoded, bytes_read) = ProxyHeader::parse_v2(&encoded).unwrap().unwrap();

    assert_eq!(bytes_read, 28);
    assert_eq!(decoded.source_addr, src);
    assert_eq!(decoded.dest_addr, dst);
}

#[test]
fn v2_roundtrip_ipv6() {
    let header = ProxyHeader {
        source_addr: sock("2001:db8::1", 443),
        dest_addr: sock("fe80::1:2", 8443),
    };
    let encoded = header.to_v2_bytes();
    assert_eq!(encoded.len(), 52);
    let (decoded, n) = ProxyHeader::parse_v2(&encoded).unwrap().unwrap();
    assert_eq!(n, 52);
    assert_eq!(decoded, header);
}

#[test]
fn v2_mixed_families_are_unspecified() {
    let header = ProxyHeader {
        source_addr: sock("10.0.0.1", 1),
        dest_addr: sock("::1", 2),
    };
    let encoded = header.to_v2_bytes();
    assert_eq!(encoded.len(), 16);
    let (decoded, n) = ProxyHeader::parse_v2(&encoded).unwrap().unwrap();
    assert_eq!(n, 16);
    assert_eq!(decoded.source_addr, SocketAddress::unspecified());
}

#[test]
fn v2_needs_more_bytes_and_refuses_bad_version() {
    assert_eq!(ProxyHeader::parse_v2(b"\x0D\x0A\x0D").unwrap(), None);
    assert_eq!(ProxyHeader::parse_v2(b"not a proxy header at all").unwrap(), None);
    let mut bad = b"\x0D\x0A\x0D\x0A\x00\x0D\x0A\x51\x55\x49\x54\x0A".to_vec();
    bad.extend_from_slice(&[0x31, 0x11, 0, 0]);
    assert_eq!(ProxyHeader::parse_v2(&bad), Err(ProxyProtocolError::UnsupportedVersion));
    let mut short = b"\x0D\x0A\x0D\x0A\x00\x0D\x0A\x51\x55\x49\x54\x0A".to_vec();
    short.extend_from_slice(&[0x21, 0x11, 0, 4, 1, 2, 3, 4]);
    assert_eq!(ProxyHeader::parse_v2(&short), Err(ProxyProtocolError::TruncatedIpv4));
}

#[test]
fn v1_ipv6_text() {
    let header = ProxyHeader {
        source_addr: sock("2001:0db8:0000:0000:0000:0000:0000:0001", 1),
        dest_addr: sock("::ffff:1.2.3.4", 2),
    };
    assert_eq!(header.to_v1_bytes(), b"PROXY TCP6 2001:db8::1 ::ffff:1.2.3.4 1 2\r\n");
    let (back, n) = ProxyHeader::parse_v1(&header.to_v1_bytes()).unwrap().unwrap();
    assert_eq!(n, 43);
    assert_eq!(back, header);
}

#[test]
fn ipv6_text_forms() {
    assert_eq!(IpAddress::parse("::").unwrap().to_text(), "::");
    assert_eq!(IpAddress::parse("::1").unwrap().to_text(), "::1");
    assert_eq!(IpAddress::parse("1:0:0:2:0:0:0:3").unwrap().to_text(), "1:0:0:2::3");
    assert_eq!(IpAddress::parse("1:0:2:3:4:5:6:7").unwrap().to_text(), "1:0:2:3:4:5:6:7");
    assert_eq!(IpAddress::parse("1:0:0:2:3:0:0:4").unwrap().to_text(), "1::2:3:0:0:4");
    assert_eq!(IpAddress::parse("10.1.2.3").unwrap().to_text(), "10.1.2.3");
    assert_eq!(IpAddress::parse("10.1.2.3/8"), None);
    assert_eq!(IpAddress::parse("300.1.2.3"), None);
}

#[test]
fn v1_errors() {
    assert_eq!(ProxyHeader::parse_v1(b"PROX"), Ok(None));
    assert_eq!(ProxyHeader::parse_v1(b"GET / HTTP/1.1\r\n"), Err(ProxyProtocolError::InvalidSignature));
    assert_eq!(ProxyHeader::parse_v1(b"PROXY TCP4 1.2.3.4"), Ok(None));
    assert_eq!(ProxyHeader::parse_v1(&[b'P', b'R', b'O', b'X', b'Y', b' ', 0xff]), Ok(None));
    assert_eq!(ProxyHeader::parse_v1(b"PROXY TCP4 1.2.3.4 5.6.7.8 1\r\n"), Err(ProxyProtocolError::MalformedTcp));
    assert_eq!(ProxyHeader::parse_v1(b"PROXY UDP4 1.2.3.4 5.6.7.8 1 2\r\n"), Err(ProxyProtocolError::UnsupportedFamily));
    assert_eq!(ProxyHeader::parse_v1(b"PROXY TCP4 1.2.3.x 5.6.7.8 1 2\r\n"), Err(ProxyProtocolError::InvalidAddress));
    assert_eq!(ProxyHeader::parse_v1(b"PROXY TCP4 1.2.3.4 5.6.7.8 1 70000\r\n"), Err(ProxyProtocolError::InvalidPort));
    assert_eq!(ProxyHeader::parse_v1(b"PROXY\r\n"), Err(ProxyProtocolError::InvalidSignature));
    let (h, n) = ProxyHeader::parse_v1(b"PROXY UNKNOWN\r\n").unwrap().unwrap();
    assert_eq!(n, 15);
    assert_eq!(h.source_addr, SocketAddress::unspecified());
    let long = vec![b'P'; 0].into_iter().chain(b"PROXY ".iter().copied()).chain(std::iter::repeat(b'a').take(120)).collect::<Vec<u8>>();
    assert_eq!(ProxyHeader::parse_v1(&long), Err(ProxyProtocolError::HeaderTooLong));
}

#[test]
fn v1_roundtrip_leaves_trailing_bytes() {
    let header = ProxyHeader { source_addr: sock("10.1.2.3", 4000), dest_addr: sock("fe80::1", 443) };
    let mut bytes = header.to_v1_bytes();
    let len = bytes.len();
    bytes.extend_from_slice(b"GET / HTTP/1.1\r\n");
    let (back, n) = ProxyHeader::parse_v1(&bytes).unwrap().unwrap();
    assert_eq!(back, header);
    assert_eq!(n, len);
}
