//! PROXY protocol headers (HAProxy v1 text and v2 binary forms), which
//! carry the original client and destination addresses of a connection.

use vstd::prelude::*;
use crate::net::{
    be_bytes, be_value, ip_from_bytes, ip_text, lemma_be_roundtrip, lemma_p256_values, push_be,
    push_ip, read_be, str_from_utf8, IpAddress, SocketAddress,
};
use crate::text::{bytes_split, chars_parse_u64, dec_str, parse_u64, push_dec, push_str, split};

verus! {

#[derive(Debug, Clone, Copy, PartialEq, Eq, Structural)]
pub struct ProxyHeader {
    pub source_addr: SocketAddress,
    pub dest_addr: SocketAddress,
}

/// Why a PROXY header was refused.
#[derive(Debug, Clone, Copy, PartialEq, Eq, Structural)]
pub enum ProxyProtocolError {
    /// Invalid PROXY protocol v1 signature
    InvalidSignature,
    /// PROXY protocol v1 header too long without CRLF
    HeaderTooLong,
    /// Malformed PROXY protocol v1 header
    Malformed,
    /// Malformed PROXY protocol v1 TCP header
    MalformedTcp,
    /// An address of a v1 header is not an IP address
    InvalidAddress,
    /// A port of a v1 header is not a 16-bit number
    InvalidPort,
    /// Unsupported PROXY protocol v1 family
    UnsupportedFamily,
    /// Unsupported PROXY protocol version
    UnsupportedVersion,
    /// Truncated IPv4 PROXY header
    TruncatedIpv4,
    /// Truncated IPv6 PROXY header
    TruncatedIpv6,
}

impl ProxyProtocolError {
    pub fn message(&self) -> (r: &'static str)
        ensures
            r@.len() > 0,
    {
        let r = match self {
            Self::InvalidSignature => "Invalid PROXY protocol v1 signature",
            Self::HeaderTooLong => "PROXY protocol v1 header too long without CRLF",
            Self::Malformed => "Malformed PROXY protocol v1 header",
            Self::MalformedTcp => "Malformed PROXY protocol v1 TCP header",
            Self::InvalidAddress => "invalid IP address syntax",
            Self::InvalidPort => "invalid port number",
            Self::UnsupportedFamily => "Unsupported PROXY protocol v1 family",
            Self::UnsupportedVersion => "Unsupported PROXY protocol version",
            Self::TruncatedIpv4 => "Truncated IPv4 PROXY header",
            Self::TruncatedIpv6 => "Truncated IPv6 PROXY header",
        };
        proof {
            reveal_strlit("Invalid PROXY protocol v1 signature");
            reveal_strlit("PROXY protocol v1 header too long without CRLF");
            reveal_strlit("Malformed PROXY protocol v1 header");
            reveal_strlit("Malformed PROXY protocol v1 TCP header");
            reveal_strlit("invalid IP address syntax");
            reveal_strlit("invalid port number");
            reveal_strlit("Unsupported PROXY protocol v1 family");
            reveal_strlit("Unsupported PROXY protocol version");
            reveal_strlit("Truncated IPv4 PROXY header");
            reveal_strlit("Truncated IPv6 PROXY header");
        }
        r
    }
}

/// The header that stands for "no address information".
pub open spec fn unspecified_header() -> ProxyHeader {
    ProxyHeader {
        source_addr: SocketAddress::spec_unspecified(),
        dest_addr: SocketAddress::spec_unspecified(),
    }
}

// ---------------------------------------------------------------------------
// Version 1 (text)
// ---------------------------------------------------------------------------

pub open spec fn ascii(s: Seq<char>) -> Seq<u8> {
    s.map_values(|c: char| c as u8)
}

/// Bytes read as ISO-8859-1 characters (ASCII stays ASCII).
pub open spec fn latin1(b: Seq<u8>) -> Seq<char> {
    b.map_values(|x: u8| x as char)
}

pub open spec fn starts_with_bytes(s: Seq<u8>, p: Seq<u8>) -> bool {
    p.len() <= s.len() && s.take(p.len() as int) == p
}

/// The index of the first CR LF in `s`, if any.
pub open spec fn find_crlf(s: Seq<u8>) -> Option<int> {
    if exists|i: int| 0 <= i && i + 1 < s.len() && #[trigger] s[i] == 13 && s[i + 1] == 10 {
        Some(
            choose|i: int|
                0 <= i && i + 1 < s.len() && #[trigger] s[i] == 13 && s[i + 1] == 10 && forall|j: int|
                    0 <= j < i ==> !(#[trigger] s[j] == 13 && s[j + 1] == 10),
        )
    } else {
        None
    }
}

/// A port of a v1 header: `u16::from_str` of the text.
pub open spec fn port_from_text(b: Seq<u8>) -> Option<u16> {
    match parse_u64(latin1(b)) {
        Some(v) => if v <= 65535 {
            Some(v as u16)
        } else {
            None
        },
        None => None,
    }
}

/// The header of the fields of a v1 line, or why they are refused.
pub open spec fn v1_fields(parts: Seq<Seq<u8>>) -> Result<ProxyHeader, ProxyProtocolError> {
    if parts.len() < 2 {
        Err(ProxyProtocolError::Malformed)
    } else if parts[1] == ascii("UNKNOWN"@) {
        Ok(unspecified_header())
    } else if parts[1] == ascii("TCP4"@) || parts[1] == ascii("TCP6"@) {
        if parts.len() != 6 {
            Err(ProxyProtocolError::MalformedTcp)
        } else {
            match (
                ip_from_bytes(parts[2]),
                ip_from_bytes(parts[3]),
                port_from_text(parts[4]),
                port_from_text(parts[5]),
            ) {
                (None, _, _, _) => Err(ProxyProtocolError::InvalidAddress),
                (_, None, _, _) => Err(ProxyProtocolError::InvalidAddress),
                (_, _, None, _) => Err(ProxyProtocolError::InvalidPort),
                (_, _, _, None) => Err(ProxyProtocolError::InvalidPort),
                (Some(s), Some(d), Some(sp), Some(dp)) => Ok(
                    ProxyHeader {
                        source_addr: SocketAddress { ip: s, port: sp },
                        dest_addr: SocketAddress { ip: d, port: dp },
                    },
                ),
            }
        }
    } else {
        Err(ProxyProtocolError::UnsupportedFamily)
    }
}

/// What `parse_v1` answers: `Ok(None)` while more bytes are needed (or the
/// bytes are not UTF-8), the header and the bytes it took, or an error.
pub open spec fn spec_parse_v1(input: Seq<u8>) -> Result<
    Option<(ProxyHeader, int)>,
    ProxyProtocolError,
> {
    if !vstd::utf8::valid_utf8(input) {
        Ok(None)
    } else if !starts_with_bytes(input, ascii("PROXY "@)) {
        if input.len() >= 6 {
            Err(ProxyProtocolError::InvalidSignature)
        } else {
            Ok(None)
        }
    } else {
        match find_crlf(input) {
            None => if input.len() >= 107 {
                Err(ProxyProtocolError::HeaderTooLong)
            } else {
                Ok(None)
            },
            Some(end) => match v1_fields(split(input.take(end), 32u8)) {
                Ok(h) => Ok(Some((h, end + 2))),
                Err(e) => Err(e),
            },
        }
    }
}

/// The text of a v1 header: the family follows the source address.
pub open spec fn v1_text(h: ProxyHeader) -> Seq<char> {
    "PROXY "@ + (if h.source_addr.ip is V4 {
        "TCP4"@
    } else {
        "TCP6"@
    }) + " "@ + ip_text(h.source_addr.ip) + " "@ + ip_text(h.dest_addr.ip) + " "@ + dec_str(
        h.source_addr.port as nat,
    ) + " "@ + dec_str(h.dest_addr.port as nat) + "\r\n"@
}

fn ascii_bytes(s: &str) -> (r: Vec<u8>)
    ensures
        r@ == ascii(s@),
{
    let cs = crate::text::chars_of(s);
    let mut r: Vec<u8> = Vec::new();
    let mut i: usize = 0;
    while i < cs.len()
        invariant
            i <= cs@.len(),
            cs@ == s@,
            r@ == ascii(s@).take(i as int),
        decreases cs@.len() - i,
    {
        r.push(cs[i] as u8);
        assert(ascii(s@).take(i + 1) =~= ascii(s@).take(i as int).push(cs@[i as int] as u8));
        i += 1;
    }
    assert(ascii(s@).take(cs@.len() as int) =~= ascii(s@));
    r
}

fn bytes_eq(a: &[u8], b: &[u8]) -> (r: bool)
    ensures
        r == (a@ == b@),
{
    if a.len() != b.len() {
        return false;
    }
    let mut i: usize = 0;
    while i < a.len()
        invariant
            a.len() == b.len(),
            i <= a.len(),
            forall|j: int| 0 <= j < i ==> a@[j] == b@[j],
        decreases a.len() - i,
    {
        if a[i] != b[i] {
            return false;
        }
        i += 1;
    }
    assert(a@ =~= b@);
    true
}

fn parse_port(b: &[u8]) -> (r: Option<u16>)
    ensures
        r == port_from_text(b@),
{
    let mut cs: Vec<char> = Vec::new();
    let mut i: usize = 0;
    while i < b.len()
        invariant
            i <= b@.len(),
            cs@ == latin1(b@).take(i as int),
        decreases b@.len() - i,
    {
        cs.push(b[i] as char);
        assert(latin1(b@).take(i + 1) =~= latin1(b@).take(i as int).push(b@[i as int] as char));
        i += 1;
    }
    assert(latin1(b@).take(b@.len() as int) =~= latin1(b@));
    match chars_parse_u64(cs.as_slice()) {
        Some(v) => if v <= 65535 {
            Some(v as u16)
        } else {
            None
        },
        None => None,
    }
}

fn find_crlf_exec(s: &[u8]) -> (r: Option<usize>)
    ensures
        match r {
            Some(i) => find_crlf(s@) == Some(i as int) && i + 1 < s@.len(),
            None => find_crlf(s@) is None,
        },
{
    let mut i: usize = 0;
    while i < s.len() && i + 1 < s.len()
        invariant
            i <= s@.len(),
            forall|j: int| 0 <= j < i && j + 1 < s@.len() ==> !(#[trigger] s@[j] == 13 && s@[j + 1] == 10),
        decreases s.len() - i,
    {
        if s[i] == 13 && s[i + 1] == 10 {
            let ghost k = choose|k: int|
                0 <= k && k + 1 < s@.len() && #[trigger] s@[k] == 13 && s@[k + 1] == 10 && forall|j: int|
                    0 <= j < k ==> !(#[trigger] s@[j] == 13 && s@[j + 1] == 10);
            assert(k == i) by {
                if k < i {
                    assert(!(s@[k] == 13 && s@[k + 1] == 10));
                }
                if k > i {
                    assert(s@[i as int] == 13 && s@[i + 1] == 10);
                }
            }
            return Some(i);
        }
        i += 1;
    }
    None
}

fn fields_of(parts: &Vec<Vec<u8>>) -> (r: Result<ProxyHeader, ProxyProtocolError>)
    ensures
        r == v1_fields(parts@.map_values(|p: Vec<u8>| p@)),
{
    let ghost ps = parts@.map_values(|p: Vec<u8>| p@);
    if parts.len() < 2 {
        return Err(ProxyProtocolError::Malformed);
    }
    let unknown = ascii_bytes("UNKNOWN");
    let tcp4 = ascii_bytes("TCP4");
    let tcp6 = ascii_bytes("TCP6");
    if bytes_eq(parts[1].as_slice(), unknown.as_slice()) {
        return Ok(ProxyHeader { source_addr: SocketAddress::unspecified(), dest_addr: SocketAddress::unspecified() });
    }
    if bytes_eq(parts[1].as_slice(), tcp4.as_slice()) || bytes_eq(parts[1].as_slice(), tcp6.as_slice()) {
        if parts.len() != 6 {
            return Err(ProxyProtocolError::MalformedTcp);
        }
        let src_ip = match IpAddress::parse_bytes(parts[2].as_slice()) {
            Some(ip) => ip,
            None => return Err(ProxyProtocolError::InvalidAddress),
        };
        let dst_ip = match IpAddress::parse_bytes(parts[3].as_slice()) {
            Some(ip) => ip,
            None => return Err(ProxyProtocolError::InvalidAddress),
        };
        let src_port = match parse_port(parts[4].as_slice()) {
            Some(p) => p,
            None => return Err(ProxyProtocolError::InvalidPort),
        };
        let dst_port = match parse_port(parts[5].as_slice()) {
            Some(p) => p,
            None => return Err(ProxyProtocolError::InvalidPort),
        };
        return Ok(ProxyHeader {
            source_addr: SocketAddress { ip: src_ip, port: src_port },
            dest_addr: SocketAddress { ip: dst_ip, port: dst_port },
        });
    }
    Err(ProxyProtocolError::UnsupportedFamily)
}

impl ProxyHeader {
    /// Parses a PROXY Protocol v1 string.
    /// Example: `PROXY TCP4 198.51.100.22 203.0.113.7 35646 80\r\n`
    pub fn parse_v1(input: &[u8]) -> (r: Result<Option<(Self, usize)>, ProxyProtocolError>)
        ensures
            match (r, spec_parse_v1(input@)) {
                (Ok(None), Ok(None)) => true,
                (Ok(Some((h, n))), Ok(Some((sh, sn)))) => h == sh && n == sn,
                (Err(e), Err(se)) => e == se,
                _ => false,
            },
    {
        if str_from_utf8(input).is_none() {
            return Ok(None);
        }
        let sig = ascii_bytes("PROXY ");
        assert(sig@.len() == 6) by {
            reveal_strlit("PROXY ");
        }
        let starts = input.len() >= 6 && bytes_eq(slice_prefix(input, 6).as_slice(), sig.as_slice());
        if !starts {
            if input.len() >= 6 {
                return Err(ProxyProtocolError::InvalidSignature);
            }
            return Ok(None);
        }
        let end_idx = match find_crlf_exec(input) {
            Some(idx) => idx,
            None => {
                if input.len() >= 107 {
                    return Err(ProxyProtocolError::HeaderTooLong);
                }
                return Ok(None);
            },
        };
        let line = slice_prefix(input, end_idx);
        let parts = bytes_split(line.as_slice(), 32u8);
        assert(parts@.map_values(|p: Vec<u8>| p@) =~= split(input@.take(end_idx as int), 32u8));
        match fields_of(&parts) {
            Ok(h) => Ok(Some((h, end_idx + 2))),
            Err(e) => Err(e),
        }
    }

    /// Generates a PROXY Protocol v1 payload mapped to standard TCP bounds
    pub fn to_v1_bytes(&self) -> (r: Vec<u8>)
        ensures
            r@ == vstd::utf8::encode_utf8(v1_text(*self)),
    {
        let mut s = String::new();
        push_str(&mut s, "PROXY ");
        match self.source_addr.ip {
            IpAddress::V4(_) => push_str(&mut s, "TCP4"),
            IpAddress::V6(_) => push_str(&mut s, "TCP6"),
        }
        push_str(&mut s, " ");
        push_ip(&mut s, self.source_addr.ip);
        push_str(&mut s, " ");
        push_ip(&mut s, self.dest_addr.ip);
        push_str(&mut s, " ");
        push_dec(&mut s, self.source_addr.port as u64);
        push_str(&mut s, " ");
        push_dec(&mut s, self.dest_addr.port as u64);
        push_str(&mut s, "\r\n");
        assert(s@ =~= v1_text(*self));
        let b = s.as_str().as_bytes();
        copy_bytes(b)
    }
}

fn copy_bytes(b: &[u8]) -> (r: Vec<u8>)
    ensures
        r@ == b@,
{
    slice_prefix(b, b.len())
}

/// `s[..n]` as a vector.
pub fn slice_prefix(s: &[u8], n: usize) -> (r: Vec<u8>)
    requires
        n <= s@.len(),
    ensures
        r@ == s@.take(n as int),
{
    let mut r: Vec<u8> = Vec::new();
    let mut i: usize = 0;
    while i < n
        invariant
            i <= n <= s@.len(),
            r@ == s@.take(i as int),
        decreases n - i,
    {
        r.push(s[i]);
        assert(s@.take(i + 1) =~= s@.take(i as int).push(s@[i as int]));
        i += 1;
    }
    r
}

// ---------------------------------------------------------------------------
// Version 2 (binary)
// ---------------------------------------------------------------------------

/// The twelve signature bytes of a v2 header.
pub open spec fn v2_signature() -> Seq<u8> {
    seq![0x0Du8, 0x0A, 0x0D, 0x0A, 0x00, 0x0D, 0x0A, 0x51, 0x55, 0x49, 0x54, 0x0A]
}

fn signature_bytes() -> (r: Vec<u8>)
    ensures
        r@ == v2_signature(),
{
    let mut r: Vec<u8> = Vec::new();
    r.push(0x0D);
    r.push(0x0A);
    r.push(0x0D);
    r.push(0x0A);
    r.push(0x00);
    r.push(0x0D);
    r.push(0x0A);
    r.push(0x51);
    r.push(0x55);
    r.push(0x49);
    r.push(0x54);
    r.push(0x0A);
    assert(r@ =~= v2_signature());
    r
}

/// The addresses of a v2 payload for a family/protocol byte.
pub open spec fn v2_addresses(fam: u8, payload: Seq<u8>) -> Result<ProxyHeader, ProxyProtocolError> {
    if fam == 0x11 {
        if payload.len() < 12 {
            Err(ProxyProtocolError::TruncatedIpv4)
        } else {
            Ok(
                ProxyHeader {
                    source_addr: SocketAddress {
                        ip: IpAddress::V4(be_value(payload.subrange(0, 4)) as u32),
                        port: be_value(payload.subrange(8, 10)) as u16,
                    },
                    dest_addr: SocketAddress {
                        ip: IpAddress::V4(be_value(payload.subrange(4, 8)) as u32),
                        port: be_value(payload.subrange(10, 12)) as u16,
                    },
                },
            )
        }
    } else if fam == 0x21 {
        if payload.len() < 36 {
            Err(ProxyProtocolError::TruncatedIpv6)
        } else {
            Ok(
                ProxyHeader {
                    source_addr: SocketAddress {
                        ip: IpAddress::V6(be_value(payload.subrange(0, 16)) as u128),
                        port: be_value(payload.subrange(32, 34)) as u16,
                    },
                    dest_addr: SocketAddress {
                        ip: IpAddress::V6(be_value(payload.subrange(16, 32)) as u128),
                        port: be_value(payload.subrange(34, 36)) as u16,
                    },
                },
            )
        }
    } else {
        Ok(unspecified_header())
    }
}

/// What `parse_v2` answers: `Ok(None)` while the signature is incomplete,
/// absent or the packet is incomplete; the header and its length; or an
/// error.
pub open spec fn spec_parse_v2(input: Seq<u8>) -> Result<
    Option<(ProxyHeader, int)>,
    ProxyProtocolError,
> {
    if input.len() < 16 {
        Ok(None)
    } else if input.take(12) != v2_signature() {
        Ok(None)
    } else if input[12] / 16 != 2 {
        Err(ProxyProtocolError::UnsupportedVersion)
    } else {
        let len = be_value(input.subrange(14, 16)) as int;
        if input.len() < 16 + len {
            Ok(None)
        } else if input[12] % 16 != 1 {
            Ok(Some((unspecified_header(), 16 + len)))
        } else {
            match v2_addresses(input[13], input.subrange(16, 16 + len)) {
                Ok(h) => Ok(Some((h, 16 + len))),
                Err(e) => Err(e),
            }
        }
    }
}

/// The bytes of a v2 header: the signature, version 2 with command PROXY,
/// then the family, the length and the addresses when both addresses are of
/// one family, or an unspecified family and no addresses otherwise.
pub open spec fn v2_bytes(h: ProxyHeader) -> Seq<u8> {
    let head = v2_signature().push(0x21u8);
    match (h.source_addr.ip, h.dest_addr.ip) {
        (IpAddress::V4(s), IpAddress::V4(d)) => head.push(0x11u8) + be_bytes(12, 2) + be_bytes(
            s as nat,
            4,
        ) + be_bytes(d as nat, 4) + be_bytes(h.source_addr.port as nat, 2) + be_bytes(
            h.dest_addr.port as nat,
            2,
        ),
        (IpAddress::V6(s), IpAddress::V6(d)) => head.push(0x21u8) + be_bytes(36, 2) + be_bytes(
            s as nat,
            16,
        ) + be_bytes(d as nat, 16) + be_bytes(h.source_addr.port as nat, 2) + be_bytes(
            h.dest_addr.port as nat,
            2,
        ),
        _ => head.push(0x00u8) + be_bytes(0, 2),
    }
}

impl ProxyHeader {
    /// Parses a PROXY Protocol v2 binary header.
    /// V2 signature: \x0D\x0A\x0D\x0A\x00\x0D\x0A\x51\x55\x49\x54\x0A
    pub fn parse_v2(input: &[u8]) -> (r: Result<Option<(Self, usize)>, ProxyProtocolError>)
        ensures
            match (r, spec_parse_v2(input@)) {
                (Ok(None), Ok(None)) => true,
                (Ok(Some((h, n))), Ok(Some((sh, sn)))) => h == sh && n == sn,
                (Err(e), Err(se)) => e == se,
                _ => false,
            },
    {
        let signature = signature_bytes();
        if input.len() < 16 {
            return Ok(None);
        }
        let head = slice_prefix(input, 12);
        if !bytes_eq(head.as_slice(), signature.as_slice()) {
            return Ok(None);
        }
        let version_cmd = input[12];
        if version_cmd / 16 != 2 {
            return Err(ProxyProtocolError::UnsupportedVersion);
        }
        let fam_prot = input[13];
        let len = read_be(input, 14, 2) as usize;
        proof {
            crate::net::lemma_be_value_bound(input@.subrange(14, 16));
            lemma_p256_values();
        }
        if input.len() < 16 + len {
            return Ok(None);
        }
        if version_cmd % 16 != 1 {
            return Ok(Some((ProxyHeader { source_addr: SocketAddress::unspecified(), dest_addr: SocketAddress::unspecified() }, 16 + len)));
        }
        let ghost payload = input@.subrange(16, 16 + len);
        if fam_prot == 0x11 {
            if len < 12 {
                return Err(ProxyProtocolError::TruncatedIpv4);
            }
            let src_ip = read_be(input, 16, 4);
            let dst_ip = read_be(input, 20, 4);
            let src_port = read_be(input, 24, 2);
            let dst_port = read_be(input, 26, 2);
            proof {
                assert(payload.subrange(0, 4) =~= input@.subrange(16, 20));
                assert(payload.subrange(4, 8) =~= input@.subrange(20, 24));
                assert(payload.subrange(8, 10) =~= input@.subrange(24, 26));
                assert(payload.subrange(10, 12) =~= input@.subrange(26, 28));
                crate::net::lemma_be_value_bound(input@.subrange(16, 20));
                crate::net::lemma_be_value_bound(input@.subrange(20, 24));
                crate::net::lemma_be_value_bound(input@.subrange(24, 26));
                crate::net::lemma_be_value_bound(input@.subrange(26, 28));
            }
            let h = ProxyHeader {
                source_addr: SocketAddress { ip: IpAddress::V4(src_ip as u32), port: src_port as u16 },
                dest_addr: SocketAddress { ip: IpAddress::V4(dst_ip as u32), port: dst_port as u16 },
            };
            return Ok(Some((h, 16 + len)));
        } else if fam_prot == 0x21 {
            if len < 36 {
                return Err(ProxyProtocolError::TruncatedIpv6);
            }
            let src_ip = read_be(input, 16, 16);
            let dst_ip = read_be(input, 32, 16);
            let src_port = read_be(input, 48, 2);
            let dst_port = read_be(input, 50, 2);
            proof {
                assert(payload.subrange(0, 16) =~= input@.subrange(16, 32));
                assert(payload.subrange(16, 32) =~= input@.subrange(32, 48));
                assert(payload.subrange(32, 34) =~= input@.subrange(48, 50));
                assert(payload.subrange(34, 36) =~= input@.subrange(50, 52));
                crate::net::lemma_be_value_bound(input@.subrange(48, 50));
                crate::net::lemma_be_value_bound(input@.subrange(50, 52));
            }
            let h = ProxyHeader {
                source_addr: SocketAddress { ip: IpAddress::V6(src_ip), port: src_port as u16 },
                dest_addr: SocketAddress { ip: IpAddress::V6(dst_ip), port: dst_port as u16 },
            };
            return Ok(Some((h, 16 + len)));
        }
        Ok(Some((ProxyHeader { source_addr: SocketAddress::unspecified(), dest_addr: SocketAddress::unspecified() }, 16 + len)))
    }

    /// Generates a PROXY Protocol v2 binary header.
    pub fn to_v2_bytes(&self) -> (r: Vec<u8>)
        ensures
            r@ == v2_bytes(*self),
    {
        let mut buf = signature_bytes();
        buf.push(0x21u8);
        match (self.source_addr.ip, self.dest_addr.ip) {
            (IpAddress::V4(src), IpAddress::V4(dst)) => {
                buf.push(0x11);
                push_be(&mut buf, 12, 2);
                push_be(&mut buf, src as u128, 4);
                push_be(&mut buf, dst as u128, 4);
                push_be(&mut buf, self.source_addr.port as u128, 2);
                push_be(&mut buf, self.dest_addr.port as u128, 2);
            },
            (IpAddress::V6(src), IpAddress::V6(dst)) => {
                buf.push(0x21);
                push_be(&mut buf, 36, 2);
                push_be(&mut buf, src, 16);
                push_be(&mut buf, dst, 16);
                push_be(&mut buf, self.source_addr.port as u128, 2);
                push_be(&mut buf, self.dest_addr.port as u128, 2);
            },
            _ => {
                buf.push(0x00);
                push_be(&mut buf, 0, 2);
            },
        }
        buf
    }
}

/// Reading back what `to_v2_bytes` wrote gives the header and its full
/// length, whenever both addresses are of one family (a header with an IPv4
/// and an IPv6 address is written as "unspecified").
pub proof fn law_v2_roundtrip(h: ProxyHeader)
    requires
        (h.source_addr.ip is V4 && h.dest_addr.ip is V4) || (h.source_addr.ip is V6
            && h.dest_addr.ip is V6),
    ensures
        spec_parse_v2(v2_bytes(h)) == Ok::<Option<(ProxyHeader, int)>, ProxyProtocolError>(
            Some((h, v2_bytes(h).len() as int)),
        ),
{
    lemma_p256_values();
    let sp = h.source_addr.port as nat;
    let dp = h.dest_addr.port as nat;
    lemma_be_roundtrip(sp, 2);
    lemma_be_roundtrip(dp, 2);
    let b = v2_bytes(h);
    match (h.source_addr.ip, h.dest_addr.ip) {
        (IpAddress::V4(s), IpAddress::V4(d)) => {
            lemma_be_roundtrip(12, 2);
            lemma_be_roundtrip(s as nat, 4);
            lemma_be_roundtrip(d as nat, 4);
            assert(b.len() == 28);
            assert(b.take(12) =~= v2_signature());
            assert(b[12] == 0x21u8);
            assert(b[13] == 0x11u8);
            assert(b.subrange(14, 16) =~= be_bytes(12, 2));
            let payload = b.subrange(16, 28);
            assert(payload.subrange(0, 4) =~= be_bytes(s as nat, 4));
            assert(payload.subrange(4, 8) =~= be_bytes(d as nat, 4));
            assert(payload.subrange(8, 10) =~= be_bytes(sp, 2));
            assert(payload.subrange(10, 12) =~= be_bytes(dp, 2));
        },
        (IpAddress::V6(s), IpAddress::V6(d)) => {
            lemma_be_roundtrip(36, 2);
            lemma_be_roundtrip(s as nat, 16);
            lemma_be_roundtrip(d as nat, 16);
            assert(b.len() == 52);
            assert(b.take(12) =~= v2_signature());
            assert(b[12] == 0x21u8);
            assert(b[13] == 0x21u8);
            assert(b.subrange(14, 16) =~= be_bytes(36, 2));
            let payload = b.subrange(16, 52);
            assert(payload.subrange(0, 16) =~= be_bytes(s as nat, 16));
            assert(payload.subrange(16, 32) =~= be_bytes(d as nat, 16));
            assert(payload.subrange(32, 34) =~= be_bytes(sp, 2));
            assert(payload.subrange(34, 36) =~= be_bytes(dp, 2));
        },
        _ => {},
    }
}

// ---------------------------------------------------------------------------
// Reading back a v1 header
// ---------------------------------------------------------------------------

/// A character that may stand inside a field of a v1 line: ASCII, neither
/// a space nor a carriage return.
pub open spec fn field_char(c: char) -> bool {
    (c as u32) < 128 && c != ' ' && c != '\r'
}

pub open spec fn field_text(s: Seq<char>) -> bool {
    forall|i: int| 0 <= i < s.len() ==> field_char(#[trigger] s[i])
}

pub open spec fn ascii_text(s: Seq<char>) -> bool {
    forall|i: int| 0 <= i < s.len() ==> (#[trigger] s[i] as u32) < 128
}

proof fn lemma_field_concat(a: Seq<char>, b: Seq<char>)
    requires
        field_text(a),
        field_text(b),
    ensures
        field_text(a + b),
{
    assert forall|i: int| 0 <= i < (a + b).len() implies field_char(#[trigger] (a + b)[i]) by {
        if i < a.len() {
            assert((a + b)[i] == a[i]);
        } else {
            assert((a + b)[i] == b[i - a.len()]);
        }
    }
}

proof fn lemma_digit_char_field(d: int)
    requires
        0 <= d < 16,
    ensures
        field_char(crate::text::digit_char(d)),
{
    if d < 10 {
        assert(((d + ('0' as int)) as u8) as char as u32 == d + 48);
    } else {
        assert(((d - 10 + ('a' as int)) as u8) as char as u32 == d + 87);
    }
}

proof fn lemma_radix_field(n: nat, b: nat)
    requires
        2 <= b <= 16,
    ensures
        field_text(crate::text::radix_str(n, b)),
        crate::text::radix_str(n, b).len() > 0,
    decreases n,
{
    if n < b {
        lemma_digit_char_field(n as int);
    } else {
        assert(n / b < n) by (nonlinear_arith)
            requires
                b >= 2,
                n >= b,
        ;
        lemma_radix_field(n / b, b);
        lemma_digit_char_field((n % b) as int);
        let r = crate::text::radix_str(n / b, b);
        let c = crate::text::digit_char((n % b) as int);
        assert forall|i: int| 0 <= i < r.push(c).len() implies field_char(#[trigger] r.push(c)[i]) by {
            if i < r.len() {
                assert(r.push(c)[i] == r[i]);
            }
        }
    }
}

proof fn lemma_join_field(ps: Seq<Seq<char>>, sep: Seq<char>)
    requires
        forall|i: int| 0 <= i < ps.len() ==> field_text(#[trigger] ps[i]),
        field_text(sep),
    ensures
        field_text(crate::text::join(ps, sep)),
    decreases ps.len(),
{
    if ps.len() > 1 {
        lemma_join_field(ps.drop_last(), sep);
        lemma_field_concat(crate::text::join(ps.drop_last(), sep), sep);
        lemma_field_concat(crate::text::join(ps.drop_last(), sep) + sep, ps.last());
    }
}

proof fn lemma_ipv4_field(v: u32)
    ensures
        field_text(crate::net::ipv4_text(v)),
{
    reveal_strlit(".");
    let dot = "."@;
    assert(field_text(dot));
    lemma_radix_field((v / 16777216) as nat, 10);
    lemma_radix_field(((v / 65536) % 256) as nat, 10);
    lemma_radix_field(((v / 256) % 256) as nat, 10);
    lemma_radix_field((v % 256) as nat, 10);
    let a = dec_str((v / 16777216) as nat);
    let b = dec_str(((v / 65536) % 256) as nat);
    let c = dec_str(((v / 256) % 256) as nat);
    let d = dec_str((v % 256) as nat);
    lemma_field_concat(a, dot);
    lemma_field_concat(a + dot, b);
    lemma_field_concat(a + dot + b, dot);
    lemma_field_concat(a + dot + b + dot, c);
    lemma_field_concat(a + dot + b + dot + c, dot);
    lemma_field_concat(a + dot + b + dot + c + dot, d);
}

proof fn lemma_hex_groups_field(g: Seq<u16>)
    ensures
        field_text(crate::net::hex_groups(g)),
{
    reveal_strlit(":");
    let ps = g.map_values(|x: u16| crate::text::hex_str(x as nat));
    assert forall|i: int| 0 <= i < ps.len() implies field_text(#[trigger] ps[i]) by {
        lemma_radix_field(g[i] as nat, 16);
    }
    lemma_join_field(ps, ":"@);
}

proof fn lemma_ip_text_field(ip: IpAddress)
    ensures
        field_text(ip_text(ip)),
{
    match ip {
        IpAddress::V4(v) => lemma_ipv4_field(v),
        IpAddress::V6(v) => {
            reveal_strlit("::ffff:");
            reveal_strlit("::");
            let g = crate::net::ipv6_groups(v);
            if crate::net::is_ipv4_mapped(g) {
                lemma_ipv4_field((v % 0x1_0000_0000) as u32);
                lemma_field_concat("::ffff:"@, crate::net::ipv4_text((v % 0x1_0000_0000) as u32));
            } else {
                let (st, l) = crate::net::longest_zero_run(g, 8);
                lemma_hex_groups_field(g);
                if l > 1 {
                    lemma_hex_groups_field(g.take(st));
                    lemma_hex_groups_field(g.skip(st + l));
                    lemma_field_concat(crate::net::hex_groups(g.take(st)), "::"@);
                    lemma_field_concat(crate::net::hex_groups(g.take(st)) + "::"@, crate::net::hex_groups(g.skip(st + l)));
                }
            }
        },
    }
}

proof fn lemma_dec_digits(n: nat)
    ensures
        crate::text::all_digits(dec_str(n)),
        crate::text::digits_value(dec_str(n)) == n,
        dec_str(n).len() > 0,
        dec_str(n)[0] != '+',
    decreases n,
{
    let d = (n % 10) as int;
    let c = crate::text::digit_char(d);
    assert(c as u32 == d + 48);
    if n < 10 {
        assert(dec_str(n) == seq![c]);
        assert(seq![c].drop_last() =~= Seq::<char>::empty());
        assert(crate::text::digits_value(seq![c]) == crate::text::digits_value(Seq::<char>::empty()) * 10
            + crate::text::digit_value(c));
    } else {
        lemma_dec_digits(n / 10);
        let r = dec_str(n / 10);
        assert(dec_str(n) == r.push(c));
        assert(r.push(c).drop_last() =~= r);
        assert(r.push(c)[0] == r[0]);
        assert(crate::text::digits_value(r.push(c)) == crate::text::digits_value(r) * 10
            + crate::text::digit_value(c));
        assert(n == (n / 10) * 10 + d);
        assert forall|i: int| 0 <= i < r.push(c).len() implies crate::text::is_digit(#[trigger] r.push(c)[i]) by {
            if i < r.len() {
                assert(r.push(c)[i] == r[i]);
            }
        }
    }
}

proof fn lemma_latin1_ascii(s: Seq<char>)
    requires
        ascii_text(s),
    ensures
        latin1(ascii(s)) == s,
{
    assert forall|i: int| 0 <= i < s.len() implies #[trigger] latin1(ascii(s))[i] == s[i] by {
        let u = s[i] as u32;
        assert(u < 128);
        vstd::utf8::char_u32_cast(s[i], u);
        assert((s[i] as u8) as int == u as int);
        assert(((s[i] as u8) as char) == (u as char));
    }
    assert(latin1(ascii(s)) =~= s);
}

proof fn lemma_port_text(p: u16)
    ensures
        port_from_text(ascii(dec_str(p as nat))) == Some(p),
        field_text(dec_str(p as nat)),
{
    lemma_radix_field(p as nat, 10);
    lemma_dec_digits(p as nat);
    let t = dec_str(p as nat);
    assert(ascii_text(t));
    lemma_latin1_ascii(t);
}

proof fn lemma_encode_ascii(s: Seq<char>)
    requires
        ascii_text(s),
    ensures
        vstd::utf8::encode_utf8(s) == ascii(s),
    decreases s.len(),
{
    if s.len() > 0 {
        let t = s.drop_first();
        assert(ascii_text(t)) by {
            assert forall|i: int| 0 <= i < t.len() implies (#[trigger] t[i] as u32) < 128 by {
                assert(t[i] == s[i + 1]);
            }
        }
        lemma_encode_ascii(t);
        let u = s[0] as u32;
        assert(u < 128);
        assert(u & 0x7F == u) by (bit_vector)
            requires
                u < 128,
        ;
        assert(vstd::utf8::encode_scalar(u) == seq![(u & 0x7F) as u8]);
        vstd::utf8::char_u32_cast(s[0], u);
        assert((s[0] as u8) as int == u as int);
        assert((u as u8) as int == u as int);
        assert(vstd::utf8::encode_scalar(u) == seq![s[0] as u8]);
        assert(vstd::utf8::encode_utf8(s) == vstd::utf8::encode_scalar(s[0] as u32) + vstd::utf8::encode_utf8(t));
        assert(ascii(s) =~= seq![s[0] as u8] + ascii(t));
    } else {
        assert(ascii(s) =~= Seq::<u8>::empty());
    }
}

proof fn lemma_split_whole(a: Seq<u8>, sep: u8)
    requires
        forall|i: int| 0 <= i < a.len() ==> #[trigger] a[i] != sep,
    ensures
        split(a, sep) == seq![a],
    decreases a.len(),
{
    if a.len() > 0 {
        lemma_split_whole(a.drop_last(), sep);
        assert(a.drop_last().push(a.last()) =~= a);
        assert(seq![a.drop_last()].update(0, a.drop_last().push(a.last())) =~= seq![a]);
    } else {
        assert(a =~= Seq::<u8>::empty());
    }
}

proof fn lemma_split_at_sep(a: Seq<u8>, sep: u8, b: Seq<u8>)
    ensures
        split(a + seq![sep] + b, sep) == split(a, sep) + split(b, sep),
    decreases b.len(),
{
    let y = a + seq![sep] + b;
    if b.len() == 0 {
        assert(y =~= a.push(sep));
        assert(y.drop_last() =~= a);
        assert(split(b, sep) == seq![Seq::<u8>::empty()]);
        assert(split(a, sep).push(Seq::<u8>::empty()) =~= split(a, sep) + seq![Seq::<u8>::empty()]);
    } else {
        let bd = b.drop_last();
        lemma_split_at_sep(a, sep, bd);
        assert(y.drop_last() =~= a + seq![sep] + bd);
        assert(y.last() == b.last());
        crate::text::lemma_split_nonempty(bd, sep);
        crate::text::lemma_split_nonempty(a, sep);
        let sa = split(a, sep);
        let sb = split(bd, sep);
        if b.last() == sep {
            assert((sa + sb).push(Seq::<u8>::empty()) =~= sa + sb.push(Seq::<u8>::empty()));
        } else {
            let r = sa + sb;
            assert(r.last() == sb.last());
            assert(r.update(r.len() - 1, r.last().push(b.last())) =~= sa + sb.update(
                sb.len() - 1,
                sb.last().push(b.last()),
            ));
        }
    }
}

proof fn lemma_byte_of(c: char)
    requires
        (c as u32) < 128,
    ensures
        (c as u8) as int == (c as u32) as int,
{
    vstd::utf8::char_u32_cast(c, c as u32);
}

proof fn lemma_ascii_concat(a: Seq<char>, b: Seq<char>)
    ensures
        ascii(a + b) == ascii(a) + ascii(b),
{
    assert(ascii(a + b) =~= ascii(a) + ascii(b));
}

/// ASCII text without a carriage return.
pub open spec fn line_text(s: Seq<char>) -> bool {
    forall|i: int| 0 <= i < s.len() ==> (#[trigger] s[i] as u32) < 128 && s[i] != '\r'
}

proof fn lemma_line_concat(a: Seq<char>, b: Seq<char>)
    requires
        line_text(a),
        line_text(b),
    ensures
        line_text(a + b),
{
    assert forall|i: int| 0 <= i < (a + b).len() implies (#[trigger] (a + b)[i] as u32) < 128 && (a + b)[i] != '\r' by {
        if i < a.len() {
            assert((a + b)[i] == a[i]);
        } else {
            assert((a + b)[i] == b[i - a.len()]);
        }
    }
}

proof fn lemma_field_line(x: Seq<char>)
    requires
        field_text(x),
    ensures
        line_text(x),
        ascii_text(x),
{
    assert forall|i: int| 0 <= i < x.len() implies (#[trigger] x[i] as u32) < 128 && x[i] != '\r' by {
        assert(field_char(x[i]));
    }
}

/// A character other than a given one has another code.
proof fn lemma_char_code_differs(c: char, d: char)
    requires
        c != d,
    ensures
        c as u32 != d as u32,
{
    if c as u32 == d as u32 {
        vstd::utf8::char_u32_cast(c, c as u32);
        vstd::utf8::char_u32_cast(d, d as u32);
    }
}

/// The bytes of ASCII text without a CR hold no 13.
proof fn lemma_line_bytes(x: Seq<char>)
    requires
        line_text(x),
    ensures
        forall|i: int| 0 <= i < ascii(x).len() ==> #[trigger] ascii(x)[i] != 13u8,
{
    assert forall|i: int| 0 <= i < ascii(x).len() implies #[trigger] ascii(x)[i] != 13u8 by {
        let c = x[i];
        assert((c as u32) < 128 && c != '\r');
        assert(ascii(x)[i] == c as u8);
        lemma_byte_of(c);
        lemma_char_code_differs(c, '\r');
    }
}

/// The bytes of a field hold no space and no carriage return.
proof fn lemma_field_bytes(x: Seq<char>)
    requires
        field_text(x),
    ensures
        forall|i: int| 0 <= i < ascii(x).len() ==> #[trigger] ascii(x)[i] != 32u8 && ascii(x)[i] != 13u8,
        ascii_text(x),
{
    lemma_field_line(x);
    assert forall|i: int| 0 <= i < ascii(x).len() implies #[trigger] ascii(x)[i] != 32u8 && ascii(x)[i] != 13u8 by {
        let c = x[i];
        assert(field_char(c));
        assert(ascii(x)[i] == c as u8);
        lemma_byte_of(c);
        lemma_char_code_differs(c, '\r');
        lemma_char_code_differs(c, ' ');
    }
}

proof fn lemma_literal_field(x: Seq<char>)
    requires
        forall|i: int| 0 <= i < x.len() ==> 65 <= (#[trigger] x[i] as u32) <= 90 || 48 <= (x[i] as u32) <= 57,
    ensures
        field_text(x),
{
    assert forall|i: int| 0 <= i < x.len() implies field_char(#[trigger] x[i]) by {
        assert(' ' as u32 == 32);
        assert('\r' as u32 == 13);
    }
}

/// A line followed by CR LF (and anything after), with no CR in the line:
/// the first CR LF ends the line.
proof fn lemma_crlf_at_end(ab: Seq<u8>, rest: Seq<u8>)
    requires
        forall|j: int| 0 <= j < ab.len() ==> #[trigger] ab[j] != 13u8,
    ensures
        find_crlf(ab + seq![13u8, 10u8] + rest) == Some(ab.len() as int),
{
    let b = ab + seq![13u8, 10u8] + rest;
    let end = ab.len() as int;
    assert forall|j: int| 0 <= j < end implies #[trigger] b[j] != 13u8 by {
        assert(b[j] == ab[j]);
    }
    assert(b[end] == 13u8 && b[end + 1] == 10u8);
    assert(0 <= end && end + 1 < b.len() && b[end] == 13 && b[end + 1] == 10 && forall|j: int|
        0 <= j < end ==> !(#[trigger] b[j] == 13 && b[j + 1] == 10));
    let c = choose|i: int|
        0 <= i && i + 1 < b.len() && #[trigger] b[i] == 13 && b[i + 1] == 10 && forall|j: int|
            0 <= j < i ==> !(#[trigger] b[j] == 13 && b[j + 1] == 10);
    assert(c == end);
}

/// Six fields with no space in them, joined by single spaces, split back
/// into the six.
proof fn lemma_six_fields(x0: Seq<u8>, x1: Seq<u8>, x2: Seq<u8>, x3: Seq<u8>, x4: Seq<u8>, x5: Seq<u8>)
    requires
        forall|i: int| 0 <= i < x0.len() ==> #[trigger] x0[i] != 32u8,
        forall|i: int| 0 <= i < x1.len() ==> #[trigger] x1[i] != 32u8,
        forall|i: int| 0 <= i < x2.len() ==> #[trigger] x2[i] != 32u8,
        forall|i: int| 0 <= i < x3.len() ==> #[trigger] x3[i] != 32u8,
        forall|i: int| 0 <= i < x4.len() ==> #[trigger] x4[i] != 32u8,
        forall|i: int| 0 <= i < x5.len() ==> #[trigger] x5[i] != 32u8,
    ensures
        split(x0 + seq![32u8] + x1 + seq![32u8] + x2 + seq![32u8] + x3 + seq![32u8] + x4 + seq![32u8] + x5, 32u8)
            == seq![x0, x1, x2, x3, x4, x5],
{
    let s32 = seq![32u8];
    lemma_split_whole(x5, 32u8);
    lemma_split_whole(x4, 32u8);
    lemma_split_whole(x3, 32u8);
    lemma_split_whole(x2, 32u8);
    lemma_split_whole(x1, 32u8);
    lemma_split_whole(x0, 32u8);
    let r4 = x4 + s32 + x5;
    let r3 = x3 + s32 + r4;
    let r2 = x2 + s32 + r3;
    let r1 = x1 + s32 + r2;
    let r0 = x0 + s32 + r1;
    lemma_split_at_sep(x4, 32u8, x5);
    lemma_split_at_sep(x3, 32u8, r4);
    lemma_split_at_sep(x2, 32u8, r3);
    lemma_split_at_sep(x1, 32u8, r2);
    lemma_split_at_sep(x0, 32u8, r1);
    assert(r0 =~= x0 + s32 + x1 + s32 + x2 + s32 + x3 + s32 + x4 + s32 + x5);
    assert(split(r0, 32u8) =~= seq![x0, x1, x2, x3, x4, x5]);
}

/// The bytes of the six fields of a header's v1 text.
pub open spec fn v1_field_bytes(h: ProxyHeader) -> Seq<Seq<u8>> {
    seq![
        ascii("PROXY"@),
        ascii(if h.source_addr.ip is V4 { "TCP4"@ } else { "TCP6"@ }),
        ascii(ip_text(h.source_addr.ip)),
        ascii(ip_text(h.dest_addr.ip)),
        ascii(dec_str(h.source_addr.port as nat)),
        ascii(dec_str(h.dest_addr.port as nat)),
    ]
}

/// The bytes of a header's v1 line without its CR LF: the fields joined by
/// spaces.
pub open spec fn v1_line_bytes(h: ProxyHeader) -> Seq<u8> {
    let x = v1_field_bytes(h);
    let s32 = seq![32u8];
    x[0] + s32 + x[1] + s32 + x[2] + s32 + x[3] + s32 + x[4] + s32 + x[5]
}

/// The bytes of a v1 header's text: its fields joined by spaces, then
/// CR LF; the fields have no space or CR, and the text is ASCII.
proof fn lemma_v1_bytes(h: ProxyHeader)
    ensures
        vstd::utf8::encode_utf8(v1_text(h)) == v1_line_bytes(h) + seq![13u8, 10u8],
        forall|j: int| 0 <= j < v1_line_bytes(h).len() ==> #[trigger] v1_line_bytes(h)[j] != 13u8,
{
    reveal_strlit("PROXY ");
    reveal_strlit("PROXY");
    reveal_strlit("TCP4");
    reveal_strlit("TCP6");
    reveal_strlit(" ");
    reveal_strlit("\r\n");
    let sp = seq![' '];
    let fam = if h.source_addr.ip is V4 { "TCP4"@ } else { "TCP6"@ };
    let t1 = ip_text(h.source_addr.ip);
    let t2 = ip_text(h.dest_addr.ip);
    let d1 = dec_str(h.source_addr.port as nat);
    let d2 = dec_str(h.dest_addr.port as nat);
    lemma_ip_text_field(h.source_addr.ip);
    lemma_ip_text_field(h.dest_addr.ip);
    lemma_port_text(h.source_addr.port);
    lemma_port_text(h.dest_addr.port);
    lemma_literal_field("PROXY"@);
    lemma_literal_field(fam);
    lemma_field_line("PROXY"@);
    lemma_field_line(fam);
    lemma_field_line(t1);
    lemma_field_line(t2);
    lemma_field_line(d1);
    lemma_field_line(d2);
    assert(line_text(sp)) by {
        lemma_char_code_differs(' ', '\r');
    }
    let crlf = seq!['\r', '\n'];
    assert(ascii_text(crlf));
    let l1 = "PROXY"@ + sp;
    lemma_line_concat("PROXY"@, sp);
    let l2 = l1 + fam;
    lemma_line_concat(l1, fam);
    let l3 = l2 + sp;
    lemma_line_concat(l2, sp);
    let l4 = l3 + t1;
    lemma_line_concat(l3, t1);
    let l5 = l4 + sp;
    lemma_line_concat(l4, sp);
    let l6 = l5 + t2;
    lemma_line_concat(l5, t2);
    let l7 = l6 + sp;
    lemma_line_concat(l6, sp);
    let l8 = l7 + d1;
    lemma_line_concat(l7, d1);
    let l9 = l8 + sp;
    lemma_line_concat(l8, sp);
    let line = l9 + d2;
    lemma_line_concat(l9, d2);
    let text = v1_text(h);
    assert(text =~= line + crlf);
    assert(ascii_text(text)) by {
        assert forall|i: int| 0 <= i < text.len() implies (#[trigger] text[i] as u32) < 128 by {
            if i < line.len() {
                assert(text[i] == line[i]);
            } else {
                assert(text[i] == crlf[i - line.len()]);
            }
        }
    }
    lemma_encode_ascii(text);
    lemma_ascii_concat(line, crlf);
    assert(ascii(crlf) =~= seq![13u8, 10u8]) by {
        lemma_byte_of('\r');
        lemma_byte_of('\n');
    }
    assert(ascii(sp) =~= seq![32u8]) by {
        lemma_byte_of(' ');
    }
    lemma_ascii_concat("PROXY"@, sp);
    lemma_ascii_concat(l1, fam);
    lemma_ascii_concat(l2, sp);
    lemma_ascii_concat(l3, t1);
    lemma_ascii_concat(l4, sp);
    lemma_ascii_concat(l5, t2);
    lemma_ascii_concat(l6, sp);
    lemma_ascii_concat(l7, d1);
    lemma_ascii_concat(l8, sp);
    lemma_ascii_concat(l9, d2);
    lemma_line_bytes(line);
}

/// The six fields of a header's v1 text read back as the header.
proof fn lemma_v1_fields_back(h: ProxyHeader)
    requires
        crate::net::ip_from_text(ip_text(h.source_addr.ip)) == Some(h.source_addr.ip),
        crate::net::ip_from_text(ip_text(h.dest_addr.ip)) == Some(h.dest_addr.ip),
    ensures
        v1_fields(v1_field_bytes(h)) == Ok::<ProxyHeader, ProxyProtocolError>(h),
{
    reveal_strlit("TCP4");
    reveal_strlit("TCP6");
    reveal_strlit("UNKNOWN");
    let fam = if h.source_addr.ip is V4 { "TCP4"@ } else { "TCP6"@ };
    let t1 = ip_text(h.source_addr.ip);
    let t2 = ip_text(h.dest_addr.ip);
    let x1 = ascii(fam);
    assert(x1 != ascii("UNKNOWN"@)) by {
        assert(x1.len() == 4);
    }
    assert(x1 == ascii("TCP4"@) || x1 == ascii("TCP6"@));
    lemma_ip_text_field(h.source_addr.ip);
    lemma_ip_text_field(h.dest_addr.ip);
    lemma_field_line(t1);
    lemma_field_line(t2);
    lemma_port_text(h.source_addr.port);
    lemma_port_text(h.dest_addr.port);
    lemma_encode_ascii(t1);
    lemma_encode_ascii(t2);
    vstd::utf8::encode_utf8_valid_utf8(t1);
    vstd::utf8::encode_utf8_valid_utf8(t2);
    vstd::utf8::encode_utf8_decode_utf8(t1);
    vstd::utf8::encode_utf8_decode_utf8(t2);
    assert(ip_from_bytes(ascii(t1)) == Some(h.source_addr.ip));
    assert(ip_from_bytes(ascii(t2)) == Some(h.dest_addr.ip));
}

/// The fields of a header's v1 text have no space in them.
proof fn lemma_v1_fields_spaceless(h: ProxyHeader)
    ensures
        forall|k: int, i: int|
            0 <= k < 6 && 0 <= i < v1_field_bytes(h)[k].len() ==> #[trigger] v1_field_bytes(h)[k][i] != 32u8,
{
    reveal_strlit("PROXY");
    reveal_strlit("TCP4");
    reveal_strlit("TCP6");
    let fam = if h.source_addr.ip is V4 { "TCP4"@ } else { "TCP6"@ };
    lemma_literal_field("PROXY"@);
    lemma_literal_field(fam);
    lemma_ip_text_field(h.source_addr.ip);
    lemma_ip_text_field(h.dest_addr.ip);
    lemma_port_text(h.source_addr.port);
    lemma_port_text(h.dest_addr.port);
    lemma_field_bytes("PROXY"@);
    lemma_field_bytes(fam);
    lemma_field_bytes(ip_text(h.source_addr.ip));
    lemma_field_bytes(ip_text(h.dest_addr.ip));
    lemma_field_bytes(dec_str(h.source_addr.port as nat));
    lemma_field_bytes(dec_str(h.dest_addr.port as nat));
}

/// Reading back what `to_v1_bytes` wrote, followed by any further UTF-8
/// bytes, gives the header and the length of the written header (the bytes
/// after it are not taken), whenever the address parser reads each
/// address's text back as that address (as `IpAddr`'s text does).
#[verifier::rlimit(40)]
pub proof fn law_v1_roundtrip(h: ProxyHeader, rest: Seq<u8>)
    requires
        crate::net::ip_from_text(ip_text(h.source_addr.ip)) == Some(h.source_addr.ip),
        crate::net::ip_from_text(ip_text(h.dest_addr.ip)) == Some(h.dest_addr.ip),
        vstd::utf8::valid_utf8(rest),
    ensures
        spec_parse_v1(vstd::utf8::encode_utf8(v1_text(h)) + rest) == Ok::<
            Option<(ProxyHeader, int)>,
            ProxyProtocolError,
        >(Some((h, vstd::utf8::encode_utf8(v1_text(h)).len() as int))),
{
    let text = v1_text(h);
    let s32 = seq![32u8];
    let xs = v1_field_bytes(h);
    let x0 = xs[0];
    let x1 = xs[1];
    let x2 = xs[2];
    let x3 = xs[3];
    let x4 = xs[4];
    let x5 = xs[5];
    let ab = v1_line_bytes(h);
    lemma_v1_bytes(h);
    let w = vstd::utf8::encode_utf8(text);
    let b = w + rest;
    vstd::utf8::encode_utf8_valid_utf8(text);
    vstd::utf8::valid_utf8_concat(w, rest);
    assert(b =~= ab + seq![13u8, 10u8] + rest);
    assert(starts_with_bytes(b, ascii("PROXY "@))) by {
        reveal_strlit("PROXY ");
        reveal_strlit("PROXY");
        lemma_byte_of(' ');
        assert(ascii("PROXY "@) =~= x0 + s32);
        assert(x0.len() == 5);
        assert(b.take(6) =~= ascii("PROXY "@));
    }
    lemma_crlf_at_end(ab, rest);
    assert(b.take(ab.len() as int) =~= ab);
    lemma_v1_fields_spaceless(h);
    assert forall|i: int| 0 <= i < x0.len() implies #[trigger] x0[i] != 32u8 by {
        assert(xs[0][i] != 32u8);
    }
    assert forall|i: int| 0 <= i < x1.len() implies #[trigger] x1[i] != 32u8 by {
        assert(xs[1][i] != 32u8);
    }
    assert forall|i: int| 0 <= i < x2.len() implies #[trigger] x2[i] != 32u8 by {
        assert(xs[2][i] != 32u8);
    }
    assert forall|i: int| 0 <= i < x3.len() implies #[trigger] x3[i] != 32u8 by {
        assert(xs[3][i] != 32u8);
    }
    assert forall|i: int| 0 <= i < x4.len() implies #[trigger] x4[i] != 32u8 by {
        assert(xs[4][i] != 32u8);
    }
    assert forall|i: int| 0 <= i < x5.len() implies #[trigger] x5[i] != 32u8 by {
        assert(xs[5][i] != 32u8);
    }
    assert(xs =~= seq![x0, x1, x2, x3, x4, x5]);
    lemma_six_fields(x0, x1, x2, x3, x4, x5);
    lemma_v1_fields_back(h);
}

} // verus!
