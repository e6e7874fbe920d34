use aegis_proxy::cgi::{header_value_text, CgiRequest};
use aegis_proxy::fastcgi::FastCgiClient;
use aegis_proxy::scgi::ScgiClient;

fn request(query: Option<&str>, headers: Vec<(&str, &[u8])>, body: Vec<&[u8]>) -> CgiRequest {
    CgiRequest {
        method: "GET".to_string(),
        path: "/index.php".to_string(),
        query: query.map(|q| q.to_string()),
        headers: headers.into_iter().map(|(n, v)| (n.to_string(), v.to_vec())).collect(),
        body: body.into_iter().map(|b| b.to_vec()).collect(),
    }
}

fn nv(k: &str, v: &str) -> Vec<u8> {
    let mut out = vec![k.len() as u8, v.len() as u8];
    out.extend_from_slice(k.as_bytes());
    out.extend_from_slice(v.as_bytes());
    out
}

#[test]
fn fastcgi_request_bytes() {
    let req = request(Some("a=1"), vec![("x-token", b"abc"), ("bad", b"\x01")], vec![b"hello", b""]);
    let out = FastCgiClient::encode_request(&req, 7, "/srv/index.php");
    let mut expected: Vec<u8> = vec![1, 1, 0, 7, 0, 8, 0, 0, 0, 1, 0, 0, 0, 0, 0, 0];
    let mut params = Vec::new();
    params.extend(nv("SCRIPT_FILENAME", "/srv/index.php"));
    params.extend(nv("REQUEST_METHOD", "GET"));
    params.extend(nv("REQUEST_URI", "/index.php"));
    params.extend(nv("QUERY_STRING", "a=1"));
    params.extend(nv("HTTP_X_TOKEN", "abc"));
    let pad = (8 - params.len() % 8) % 8;
    expected.extend_from_slice(&[1, 4, 0, 7, (params.len() >> 8) as u8, params.len() as u8, pad as u8, 0]);
    expected.extend(params);
    expected.extend(std::iter::repeat(0u8).take(pad));
    expected.extend_from_slice(&[1, 4, 0, 7, 0, 0, 0, 0]);
    expected.extend_from_slice(&[1, 5, 0, 7, 0, 5, 3, 0]);
    expected.extend_from_slice(b"hello\0\0\0");
    expected.extend_from_slice(&[1, 5, 0, 7, 0, 0, 0, 0]);
    assert_eq!(out, expected);
}

#[test]
fn fastcgi_long_values_and_big_bodies() {
    let long = vec![b'v'; 200];
    let big = vec![7u8; 70000];
    let req = request(None, vec![("x-long", &long)], vec![&big]);
    let out = FastCgiClient::encode_request(&req, 1, "s");
    // the long value's length is written in four bytes with the top bit set
    let needle = [0x80u8, 0, 0, 200];
    assert!(out.windows(4).any(|w| w == needle));
    // a 70000-byte body becomes a 65535-byte record (1 byte of padding) and a 4465-byte one
    let first = [1u8, 5, 0, 1, 0xff, 0xff, 1, 0];
    let second = [1u8, 5, 0, 1, (4465 >> 8) as u8, (4465 & 0xff) as u8, 7, 0];
    assert!(out.windows(8).any(|w| w == first));
    assert!(out.windows(8).any(|w| w == second));
    assert!(out.ends_with(&[1, 5, 0, 1, 0, 0, 0, 0]));
}

#[test]
fn scgi_request_bytes() {
    let req = request(None, vec![("content-length", b"5"), ("host", b"example.com")], vec![b"he", b"llo"]);
    let out = ScgiClient::encode_request(&req);
    let payload = b"SCGI\x001\x00CONTENT_LENGTH\x005\x00REQUEST_METHOD\x00GET\x00REQUEST_URI\x00/index.php\x00HTTP_HOST\x00example.com\x00";
    let mut expected = format!("{}:", payload.len()).into_bytes();
    expected.extend_from_slice(payload);
    expected.push(b',');
    expected.extend_from_slice(b"hello");
    assert_eq!(out, expected);
}

#[test]
fn scgi_defaults_content_length() {
    let req = request(Some("q"), vec![], vec![]);
    let out = ScgiClient::encode_request(&req);
    let payload = b"SCGI\x001\x00CONTENT_LENGTH\x000\x00REQUEST_METHOD\x00GET\x00REQUEST_URI\x00/index.php\x00QUERY_STRING\x00q\x00";
    let mut expected = format!("{}:", payload.len()).into_bytes();
    expected.extend_from_slice(payload);
    expected.push(b',');
    assert_eq!(out, expected);
}

#[test]
fn header_values_must_be_visible_ascii() {
    assert_eq!(header_value_text(b"a b\tc"), Some("a b\tc".to_string()));
    assert_eq!(header_value_text(b"\x7f"), None);
    assert_eq!(header_value_text("é".as_bytes()), None);
}
