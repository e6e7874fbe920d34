//! Network addresses as plain numbers: IPv4 and IPv6 addresses, socket
//! addresses, CIDR networks, and their text forms.

use vstd::prelude::*;
use vstd::arithmetic::power2::pow2;
use crate::text::{
    all_digits, chars_of, chars_parse_u64, chars_slice, dec_str, digits_value, has_char, hex_str, join,
    push_char, push_dec, push_radix, push_str, string_of,
};

verus! {

/// An IP address: IPv4 as its 32-bit value, IPv6 as its 128-bit value
/// (both in network byte order read as one big-endian number).
#[derive(Debug, Clone, Copy, PartialEq, Eq, Structural)]
pub enum IpAddress {
    V4(u32),
    V6(u128),
}

/// An IP address and a port.
#[derive(Debug, Clone, Copy, PartialEq, Eq, Structural)]
pub struct SocketAddress {
    pub ip: IpAddress,
    pub port: u16,
}

impl SocketAddress {
    /// The unspecified IPv4 address with port 0 (`0.0.0.0:0`).
    pub open spec fn spec_unspecified() -> SocketAddress {
        SocketAddress { ip: IpAddress::V4(0), port: 0 }
    }

    pub fn unspecified() -> (r: SocketAddress)
        ensures
            r == Self::spec_unspecified(),
    {
        SocketAddress { ip: IpAddress::V4(0), port: 0 }
    }
}

#[verifier::external_type_specification]
#[verifier::external_body]
pub struct ExIpNetworkError(ipnetwork::IpNetworkError);

/// What `<ipnetwork::IpNetwork as FromStr>::from_str` makes of a text: the
/// address and the prefix length, or `None` where it refuses the text.
pub uninterp spec fn network_from_text(text: Seq<char>) -> Option<(IpAddress, u8)>;

/// `str::parse::<ipnetwork::IpNetwork>`, the address taken as its number.
/// Trusted: the result is named `network_from_text` of the text; besides,
/// the prefix never exceeds the address width, and a text without `/` gets
/// the full width (the crate's `cidr_parts`, `parse_prefix` and `new`
/// show both). The address grammar (std's) and the error's content are not
/// stated.
#[verifier::external_body]
pub(crate) fn parse_network(s: &str) -> (r: Result<(IpAddress, u8), ipnetwork::IpNetworkError>)
    ensures
        r is Ok <==> network_from_text(s@) is Some,
        r matches Ok(v) ==> network_from_text(s@) == Some(v),
        r matches Ok((IpAddress::V4(_), p)) ==> p <= 32 && (!has_char(s@, '/') ==> p == 32),
        r matches Ok((IpAddress::V6(_), p)) ==> p <= 128 && (!has_char(s@, '/') ==> p == 128),
{
    match s.parse::<ipnetwork::IpNetwork>() {
        Ok(ipnetwork::IpNetwork::V4(n)) => Ok((IpAddress::V4(u32::from(n.ip())), n.prefix())),
        Ok(ipnetwork::IpNetwork::V6(n)) => Ok((IpAddress::V6(u128::from(n.ip())), n.prefix())),
        Err(e) => Err(e),
    }
}

/// `std::str::from_utf8`. Trusted: it succeeds exactly on the well-formed
/// UTF-8 byte strings of vstd's model, and gives their decoding.
#[verifier::external_body]
pub(crate) fn str_from_utf8(b: &[u8]) -> (r: Option<&str>)
    ensures
        r is Some <==> vstd::utf8::valid_utf8(b@),
        r matches Some(s) ==> s@ == vstd::utf8::decode_utf8(b@),
{
    std::str::from_utf8(b).ok()
}

/// The address that a text without a prefix denotes (`IpAddr::from_str`):
/// a text with a `/` is no address.
pub open spec fn ip_from_text(t: Seq<char>) -> Option<IpAddress> {
    if has_char(t, '/') {
        None
    } else {
        match network_from_text(t) {
            Some((ip, _)) => Some(ip),
            None => None,
        }
    }
}

/// The address that UTF-8 bytes denote.
pub open spec fn ip_from_bytes(b: Seq<u8>) -> Option<IpAddress> {
    if vstd::utf8::valid_utf8(b) {
        ip_from_text(vstd::utf8::decode_utf8(b))
    } else {
        None
    }
}

/// Whether `s` holds the character `c` (`str::contains`).
fn str_has_char(s: &str, c: char) -> (r: bool)
    ensures
        r == has_char(s@, c),
{
    let n = s.unicode_len();
    let mut i: usize = 0;
    while i < n
        invariant
            i <= n == s@.len(),
            forall|j: int| 0 <= j < i ==> s@[j] != c,
        decreases n - i,
    {
        if s.get_char(i) == c {
            return true;
        }
        i += 1;
    }
    false
}

/// The index of the last occurrence of `c` in `s`, if any.
pub open spec fn rfind_char(s: Seq<char>, c: char) -> Option<int>
    decreases s.len(),
{
    if s.len() == 0 {
        None
    } else if s.last() == c {
        Some(s.len() - 1)
    } else {
        rfind_char(s.drop_last(), c)
    }
}

/// A port: one or more decimal digits denoting at most 65535.
pub open spec fn port_from_text(t: Seq<char>) -> Option<u16> {
    if t.len() > 0 && all_digits(t) && digits_value(t) <= 65535 {
        Some(digits_value(t) as u16)
    } else {
        None
    }
}

/// What `<SocketAddr as FromStr>` makes of a text: `a.b.c.d:port` or
/// `[v6]:port`.
pub open spec fn socket_from_text(t: Seq<char>) -> Option<SocketAddress> {
    match rfind_char(t, ':') {
        None => None,
        Some(i) => {
            let host = t.take(i);
            match port_from_text(t.skip(i + 1)) {
                None => None,
                Some(port) => if host.len() >= 2 && host[0] == '[' && host.last() == ']' {
                    match ip_from_text(host.subrange(1, host.len() - 1)) {
                        Some(IpAddress::V6(a)) => Some(SocketAddress { ip: IpAddress::V6(a), port }),
                        _ => None,
                    }
                } else {
                    match ip_from_text(host) {
                        Some(IpAddress::V4(a)) => Some(SocketAddress { ip: IpAddress::V4(a), port }),
                        _ => None,
                    }
                },
            }
        },
    }
}

fn rfind_char_exec(s: &[char], c: char) -> (r: Option<usize>)
    ensures
        match (r, rfind_char(s@, c)) {
            (Some(i), Some(j)) => i == j,
            (None, None) => true,
            _ => false,
        },
        r matches Some(i) ==> i < s@.len(),
{
    let mut n: usize = s.len();
    assert(s@.take(n as int) =~= s@);
    while n > 0
        invariant
            n <= s@.len(),
            rfind_char(s@, c) == rfind_char(s@.take(n as int), c),
        decreases n,
    {
        assert(s@.take(n as int).last() == s@[n - 1]);
        if s[n - 1] == c {
            return Some(n - 1);
        }
        assert(s@.take(n as int).drop_last() =~= s@.take(n - 1));
        n -= 1;
    }
    None
}

fn port_from_chars(t: &[char]) -> (r: Option<u16>)
    ensures
        r == port_from_text(t@),
{
    if t.len() == 0 || !('0' <= t[0] && t[0] <= '9') {
        return None;
    }
    assert(t@[0] != '+');
    proof {
        if all_digits(t@) {
            crate::text::lemma_digits_value_nonneg(t@);
        }
    }
    match chars_parse_u64(t) {
        Some(v) => {
            if v <= 65535 {
                Some(v as u16)
            } else {
                None
            }
        },
        None => None,
    }
}

impl SocketAddress {
    /// Parses the text of a socket address (`str::parse::<SocketAddr>`).
    pub fn parse(s: &str) -> (r: Option<SocketAddress>)
        ensures
            r == socket_from_text(s@),
    {
        let cs = chars_of(s);
        let i = match rfind_char_exec(cs.as_slice(), ':') {
            Some(i) => i,
            None => return None,
        };
        let n = cs.len();
        let host = chars_slice(cs.as_slice(), 0, i);
        let port_text = chars_slice(cs.as_slice(), i + 1, n);
        assert(host@ =~= s@.take(i as int));
        assert(port_text@ =~= s@.skip(i + 1));
        let port = match port_from_chars(port_text.as_slice()) {
            Some(p) => p,
            None => return None,
        };
        let hn = host.len();
        if hn >= 2 && host[0] == '[' && host[hn - 1] == ']' {
            let inner = chars_slice(host.as_slice(), 1, hn - 1);
            let text = string_of(inner.as_slice());
            match IpAddress::parse(text.as_str()) {
                Some(IpAddress::V6(a)) => Some(SocketAddress { ip: IpAddress::V6(a), port }),
                _ => None,
            }
        } else {
            let text = string_of(host.as_slice());
            match IpAddress::parse(text.as_str()) {
                Some(IpAddress::V4(a)) => Some(SocketAddress { ip: IpAddress::V4(a), port }),
                _ => None,
            }
        }
    }
}

impl IpAddress {
    /// Parses the text of an IP address (`str::parse::<IpAddr>`).
    pub fn parse(s: &str) -> (r: Option<IpAddress>)
        ensures
            r == ip_from_text(s@),
    {
        if str_has_char(s, '/') {
            return None;
        }
        match parse_network(s) {
            Ok((ip, _)) => Some(ip),
            Err(_) => None,
        }
    }

    /// Parses UTF-8 bytes as the text of an IP address.
    pub fn parse_bytes(b: &[u8]) -> (r: Option<IpAddress>)
        ensures
            r == ip_from_bytes(b@),
    {
        match str_from_utf8(b) {
            Some(s) => IpAddress::parse(s),
            None => None,
        }
    }

    /// The text of the address (`Display`).
    pub fn to_text(&self) -> (r: String)
        ensures
            r@ == ip_text(*self),
    {
        let mut s = String::new();
        push_ip(&mut s, *self);
        assert(s@ =~= ip_text(*self));
        s
    }

    /// The address as a 128-bit number: IPv4 addresses keep their 32-bit
    /// value.
    pub fn to_u128(&self) -> (r: u128)
        ensures
            r == self.spec_u128(),
    {
        match self {
            IpAddress::V4(v) => *v as u128,
            IpAddress::V6(v) => *v,
        }
    }

    pub open spec fn spec_u128(self) -> u128 {
        match self {
            IpAddress::V4(v) => v as u128,
            IpAddress::V6(v) => v,
        }
    }
}

// ---------------------------------------------------------------------------
// Networks
// ---------------------------------------------------------------------------

/// The number of bits of an address of the family of `ip`.
pub open spec fn width_of(ip: IpAddress) -> nat {
    match ip {
        IpAddress::V4(_) => 32,
        IpAddress::V6(_) => 128,
    }
}

/// Whether `a` and `b` agree in their first `prefix` bits of `width`.
pub open spec fn same_prefix(width: nat, prefix: nat, a: nat, b: nat) -> bool {
    a / pow2((width - prefix) as nat) == b / pow2((width - prefix) as nat)
}

/// A network: an address and a prefix length no longer than the address
/// (the model of `ipnetwork::IpNetwork`).
#[derive(Debug, Clone, Copy, PartialEq, Eq, Structural)]
pub struct IpNetwork {
    pub ip: IpAddress,
    pub prefix: u8,
}

/// A text that `ipnetwork` does not read as a network.
#[derive(Debug, Clone, Copy, PartialEq, Eq, Structural)]
pub struct InvalidNetwork;

/// The network that a text denotes (`str::parse::<ipnetwork::IpNetwork>`).
pub open spec fn network_of_text(t: Seq<char>) -> Option<IpNetwork> {
    match network_from_text(t) {
        Some((ip, p)) => Some(IpNetwork { ip, prefix: p }),
        None => None,
    }
}

impl IpNetwork {
    pub open spec fn wf(self) -> bool {
        self.prefix <= width_of(self.ip)
    }

    /// Whether `ip` lies in the network: it is of the network's family and
    /// agrees with the network's address in the first `prefix` bits.
    pub open spec fn spec_contains(self, ip: IpAddress) -> bool {
        match (self.ip, ip) {
            (IpAddress::V4(n), IpAddress::V4(a)) => same_prefix(32, self.prefix as nat, n as nat, a as nat),
            (IpAddress::V6(n), IpAddress::V6(a)) => same_prefix(128, self.prefix as nat, n as nat, a as nat),
            _ => false,
        }
    }

    /// Parses a network such as `10.0.0.0/8`; an address alone is a network
    /// of one address.
    pub fn parse(s: &str) -> (r: Result<IpNetwork, InvalidNetwork>)
        ensures
            match r {
                Ok(n) => network_of_text(s@) == Some(n) && n.wf(),
                Err(_) => network_of_text(s@) is None,
            },
            !has_char(s@, '/') ==> (r matches Ok(n) ==> n.prefix == width_of(n.ip)),
    {
        match parse_network(s) {
            Ok((ip, prefix)) => Ok(IpNetwork { ip, prefix }),
            Err(_) => Err(InvalidNetwork),
        }
    }

    /// `ipnetwork::IpNetwork::contains`.
    pub fn contains(&self, ip: IpAddress) -> (r: bool)
        requires
            self.wf(),
        ensures
            r == self.spec_contains(ip),
    {
        proof {
            lemma_pow2_128();
        }
        match (self.ip, ip) {
            (IpAddress::V4(n), IpAddress::V4(a)) => {
                same_top_bits(n as u128, a as u128, 32, self.prefix)
            },
            (IpAddress::V6(n), IpAddress::V6(a)) => same_top_bits(n, a, 128, self.prefix),
            _ => false,
        }
    }
}

pub proof fn lemma_pow2_128()
    ensures
        pow2(32) == 0x1_0000_0000,
        pow2(128) == 0x1_0000_0000_0000_0000_0000_0000_0000_0000,
{
    vstd::arithmetic::power2::lemma2_to64();
    vstd::arithmetic::power2::lemma_pow2_adds(64, 64);
}

/// Whether two numbers below `2^width` agree in their first `prefix` bits.
fn same_top_bits(a: u128, b: u128, width: u8, prefix: u8) -> (r: bool)
    requires
        width == 32 || width == 128,
        prefix <= width,
        a < pow2(width as nat),
        b < pow2(width as nat),
    ensures
        r == same_prefix(width as nat, prefix as nat, a as nat, b as nat),
{
    proof {
        lemma_pow2_128();
    }
    let shift: u8 = width - prefix;
    if shift == 128 {
        proof {
            vstd::arithmetic::div_mod::lemma_basic_div(a as int, pow2(128) as int);
            vstd::arithmetic::div_mod::lemma_basic_div(b as int, pow2(128) as int);
        }
        return true;
    }
    proof {
        vstd::bits::lemma_u128_shr_is_div(a, shift as u128);
        vstd::bits::lemma_u128_shr_is_div(b, shift as u128);
    }
    (a >> (shift as u128)) == (b >> (shift as u128))
}

// ---------------------------------------------------------------------------
// Text forms
// ---------------------------------------------------------------------------

/// The dotted-decimal text of an IPv4 address.
pub open spec fn ipv4_text(v: u32) -> Seq<char> {
    dec_str((v / 16777216) as nat) + "."@ + dec_str(((v / 65536) % 256) as nat) + "."@ + dec_str(
        ((v / 256) % 256) as nat,
    ) + "."@ + dec_str((v % 256) as nat)
}

/// The eight 16-bit groups of an IPv6 address, most significant first.
pub open spec fn ipv6_groups(v: u128) -> Seq<u16> {
    Seq::new(8, |i: int| ((v as nat / p256((2 * (7 - i)) as nat)) % 65536) as u16)
}

/// The number of zero groups from `i` on.
pub open spec fn zero_run(g: Seq<u16>, i: int) -> nat
    decreases g.len() - i,
{
    if i < 0 || i >= g.len() || g[i] != 0 {
        0
    } else {
        1 + zero_run(g, i + 1)
    }
}

pub proof fn lemma_zero_run_bound(g: Seq<u16>, i: int)
    requires
        0 <= i <= g.len(),
    ensures
        zero_run(g, i) <= g.len() - i,
    decreases g.len() - i,
{
    if i < g.len() && g[i] == 0 {
        lemma_zero_run_bound(g, i + 1);
    }
}

/// The first longest run of zero groups among the first `n` starts:
/// its start and its length.
pub open spec fn longest_zero_run(g: Seq<u16>, n: nat) -> (int, nat)
    decreases n,
{
    if n == 0 {
        (0, 0)
    } else {
        let (s, l) = longest_zero_run(g, (n - 1) as nat);
        if zero_run(g, n - 1) > l {
            (n - 1, zero_run(g, n - 1))
        } else {
            (s, l)
        }
    }
}

/// Groups in lower-case hexadecimal, `:` between them.
pub open spec fn hex_groups(g: Seq<u16>) -> Seq<char> {
    join(g.map_values(|x: u16| hex_str(x as nat)), ":"@)
}

/// Whether the address is an IPv4 address mapped into IPv6 (`::ffff:a.b.c.d`).
pub open spec fn is_ipv4_mapped(g: Seq<u16>) -> bool {
    g[0] == 0 && g[1] == 0 && g[2] == 0 && g[3] == 0 && g[4] == 0 && g[5] == 0xffff
}

/// How an IPv6 address is written: an IPv4-mapped address as `::ffff:`
/// and the dotted IPv4 text; otherwise the groups in hexadecimal, with the
/// first longest run of two or more zero groups written `::`.
pub open spec fn ipv6_text(v: u128) -> Seq<char> {
    let g = ipv6_groups(v);
    if is_ipv4_mapped(g) {
        "::ffff:"@ + ipv4_text((v % 0x1_0000_0000) as u32)
    } else {
        let (s, l) = longest_zero_run(g, 8);
        if l > 1 {
            hex_groups(g.take(s)) + "::"@ + hex_groups(g.skip(s + l))
        } else {
            hex_groups(g)
        }
    }
}

/// The text of an IP address as `Display` writes it.
pub open spec fn ip_text(ip: IpAddress) -> Seq<char> {
    match ip {
        IpAddress::V4(v) => ipv4_text(v),
        IpAddress::V6(v) => ipv6_text(v),
    }
}

/// Appends the dotted-decimal text of an IPv4 address.
fn push_ipv4(out: &mut String, v: u32)
    ensures
        final(out)@ == old(out)@ + ipv4_text(v),
{
    push_dec(out, (v / 16777216) as u64);
    push_str(out, ".");
    push_dec(out, ((v / 65536) % 256) as u64);
    push_str(out, ".");
    push_dec(out, ((v / 256) % 256) as u64);
    push_str(out, ".");
    push_dec(out, (v % 256) as u64);
    proof {
        reveal_strlit(".");
    }
    assert(final(out)@ =~= old(out)@ + ipv4_text(v));
}

/// The eight groups of an IPv6 address.
fn groups_of(v: u128) -> (r: Vec<u16>)
    ensures
        r@ == ipv6_groups(v),
{
    let mut r: Vec<u16> = Vec::new();
    let mut x: u128 = v;
    let mut j: usize = 0;
    proof {
        assert(p256(0) == 1);
        assert(v as nat / 1 == v as nat);
    }
    while j < 8
        invariant
            j <= 8,
            x as nat == v as nat / p256((2 * j) as nat),
            r@.len() == j,
            forall|t: int|
                0 <= t < j ==> r@[t] == ipv6_groups(v)[8 - j + t],
        decreases 8 - j,
    {
        let g = (x % 65536) as u16;
        proof {
            lemma_p256_pos((2 * j) as nat);
            assert(p256((2 * j + 2) as nat) == p256((2 * j) as nat) * 65536) by {
                assert(p256((2 * j + 2) as nat) == 256 * p256((2 * j + 1) as nat));
                assert(p256((2 * j + 1) as nat) == 256 * p256((2 * j) as nat));
            }
            vstd::arithmetic::div_mod::lemma_div_denominator(
                v as int,
                p256((2 * j) as nat) as int,
                65536,
            );
            assert(ipv6_groups(v)[7 - j as int] == g);
        }
        r.insert(0, g);
        x = x / 65536;
        j += 1;
    }
    assert(r@ =~= ipv6_groups(v));
    r
}

/// Appends `g[from..to]` in hexadecimal with `:` between the groups.
fn push_hex_groups(out: &mut String, g: &Vec<u16>, from: usize, to: usize)
    requires
        from <= to <= g@.len(),
    ensures
        final(out)@ == old(out)@ + hex_groups(g@.subrange(from as int, to as int)),
{
    let ghost hx = |x: u16| hex_str(x as nat);
    let mut i: usize = from;
    proof {
        reveal_strlit(":");
        assert(g@.subrange(from as int, from as int).map_values(hx) =~= Seq::<Seq<char>>::empty());
    }
    while i < to
        invariant
            from <= i <= to <= g@.len(),
            hx == (|x: u16| hex_str(x as nat)),
            out@ == old(out)@ + hex_groups(g@.subrange(from as int, i as int)),
        decreases to - i,
    {
        if i > from {
            push_char(out, ':');
        }
        push_radix(out, g[i] as u64, 16);
        proof {
            reveal_strlit(":");
            let ps = g@.subrange(from as int, i + 1).map_values(hx);
            let qs = g@.subrange(from as int, i as int).map_values(hx);
            assert(ps.drop_last() =~= qs);
            assert(ps.last() == hex_str(g@[i as int] as nat));
            if i == from {
                assert(qs.len() == 0);
                assert(join(qs, ":"@) == Seq::<char>::empty());
                assert(ps.len() == 1);
                assert(join(ps, ":"@) == ps[0]);
                assert(out@ =~= old(out)@ + join(ps, ":"@));
            } else {
                assert(out@ =~= old(out)@ + join(ps, ":"@));
            }
        }
        i += 1;
    }
}

/// Appends the text of an IPv6 address.
fn push_ipv6(out: &mut String, v: u128)
    ensures
        final(out)@ == old(out)@ + ipv6_text(v),
{
    let g = groups_of(v);
    if g[0] == 0 && g[1] == 0 && g[2] == 0 && g[3] == 0 && g[4] == 0 && g[5] == 0xffff {
        push_str(out, "::ffff:");
        push_ipv4(out, (v % 0x1_0000_0000) as u32);
        return ;
    }
    // zero runs, from the end
    let mut z: Vec<u8> = vec![0u8, 0, 0, 0, 0, 0, 0, 0];
    let mut k: usize = 8;
    while k > 0
        invariant
            k <= 8,
            z@.len() == 8,
            g@ == ipv6_groups(v),
            forall|t: int| k <= t < 8 ==> z@[t] == zero_run(g@, t),
            forall|t: int| k <= t < 8 ==> z@[t] <= 8 - t,
        decreases k,
    {
        k -= 1;
        let next: u8 = if k == 7 { 0 } else { z[k + 1] };
        assert(next == zero_run(g@, k + 1)) by {
            if k == 7 {
                assert(zero_run(g@, 8) == 0);
            }
        }
        let val: u8 = if g[k] == 0 { next + 1 } else { 0 };
        z.set(k, val);
    }
    let mut best_s: usize = 0;
    let mut best_l: u8 = 0;
    let mut i: usize = 0;
    while i < 8
        invariant
            i <= 8,
            z@.len() == 8,
            g@.len() == 8,
            forall|t: int| 0 <= t < 8 ==> z@[t] == zero_run(g@, t),
            (best_s as int, best_l as nat) == longest_zero_run(g@, i as nat),
            best_s + best_l <= 8,
        decreases 8 - i,
    {
        proof {
            lemma_zero_run_bound(g@, i as int);
        }
        if z[i] > best_l {
            best_s = i;
            best_l = z[i];
        }
        i += 1;
    }
    if best_l > 1 {
        push_hex_groups(out, &g, 0, best_s);
        push_str(out, "::");
        push_hex_groups(out, &g, best_s + best_l as usize, 8);
        proof {
            reveal_strlit("::");
            assert(g@.subrange(0, best_s as int) =~= g@.take(best_s as int));
            assert(g@.subrange(best_s + best_l, 8) =~= g@.skip(best_s + best_l));
        }
    } else {
        push_hex_groups(out, &g, 0, 8);
        assert(g@.subrange(0, 8) =~= g@);
    }
    proof {
        reveal_strlit("::ffff:");
    }
}

/// Appends the text of an IP address.
pub fn push_ip(out: &mut String, ip: IpAddress)
    ensures
        final(out)@ == old(out)@ + ip_text(ip),
{
    match ip {
        IpAddress::V4(v) => push_ipv4(out, v),
        IpAddress::V6(v) => push_ipv6(out, v),
    }
}

// ---------------------------------------------------------------------------
// Big-endian numbers
// ---------------------------------------------------------------------------

pub open spec fn p256(n: nat) -> nat
    decreases n,
{
    if n == 0 {
        1
    } else {
        256 * p256((n - 1) as nat)
    }
}

/// The number that a byte string denotes read as big-endian.
pub open spec fn be_value(s: Seq<u8>) -> nat
    decreases s.len(),
{
    if s.len() == 0 {
        0
    } else {
        be_value(s.drop_last()) * 256 + s.last() as nat
    }
}

/// The last `n` bytes of `v` in big-endian order.
pub open spec fn be_bytes(v: nat, n: nat) -> Seq<u8>
    decreases n,
{
    if n == 0 {
        Seq::empty()
    } else {
        be_bytes(v / 256, (n - 1) as nat).push((v % 256) as u8)
    }
}

pub proof fn lemma_p256_pos(n: nat)
    ensures
        p256(n) >= 1,
    decreases n,
{
    if n > 0 {
        lemma_p256_pos((n - 1) as nat);
    }
}

pub proof fn lemma_be_value_bound(s: Seq<u8>)
    ensures
        be_value(s) < p256(s.len()),
    decreases s.len(),
{
    if s.len() > 0 {
        lemma_be_value_bound(s.drop_last());
        let x = be_value(s.drop_last());
        let p = p256((s.len() - 1) as nat);
        let l = s.last();
        assert(x * 256 + l < 256 * p) by (nonlinear_arith)
            requires
                x < p,
                l < 256,
        ;
    }
}

/// Reading back the bytes of a number gives the number, up to the width.
pub proof fn lemma_be_roundtrip(v: nat, n: nat)
    ensures
        be_bytes(v, n).len() == n,
        be_value(be_bytes(v, n)) == v % p256(n),
    decreases n,
{
    if n > 0 {
        lemma_be_roundtrip(v / 256, (n - 1) as nat);
        let bs = be_bytes(v, n);
        assert(bs.drop_last() =~= be_bytes(v / 256, (n - 1) as nat));
        lemma_p256_pos((n - 1) as nat);
        vstd::arithmetic::div_mod::lemma_mod_breakdown(v as int, 256, p256((n - 1) as nat) as int);
    } else {
        assert(v % 1 == 0) by (nonlinear_arith);
    }
}

pub proof fn lemma_p256_values()
    ensures
        p256(2) == 65536,
        p256(4) == 4294967296,
        p256(16) == 0x1_0000_0000_0000_0000_0000_0000_0000_0000,
{
    reveal_with_fuel(p256, 17);
}

/// Appends the last `n` bytes of `v` in big-endian order.
pub fn push_be(buf: &mut Vec<u8>, v: u128, n: usize)
    ensures
        final(buf)@ == old(buf)@ + be_bytes(v as nat, n as nat),
    decreases n,
{
    if n > 0 {
        push_be(buf, v / 256, n - 1);
        buf.push((v % 256) as u8);
        assert(old(buf)@ + be_bytes((v / 256) as nat, (n - 1) as nat) + seq![(v % 256) as u8]
            =~= old(buf)@ + be_bytes(v as nat, n as nat));
    } else {
        assert(old(buf)@ + be_bytes(v as nat, 0) =~= old(buf)@);
    }
}

/// The big-endian number of `b[from..from + n]`, for at most 16 bytes.
pub fn read_be(b: &[u8], from: usize, n: usize) -> (r: u128)
    requires
        from + n <= b@.len(),
        n <= 16,
    ensures
        r as nat == be_value(b@.subrange(from as int, from + n)),
{
    let mut v: u128 = 0;
    let mut k: usize = 0;
    let blen = b.len();
    assert(b@.subrange(from as int, from as int) =~= Seq::<u8>::empty());
    proof {
        lemma_p256_values();
    }
    while k < n
        invariant
            k <= n <= 16,
            from + n <= b@.len(),
            blen == b@.len(),
            v as nat == be_value(b@.subrange(from as int, from + k)),
            p256(16) == 0x1_0000_0000_0000_0000_0000_0000_0000_0000,
        decreases n - k,
    {
        let ghost s = b@.subrange(from as int, from + k + 1);
        let byte = b[from + k];
        proof {
            assert(s.drop_last() =~= b@.subrange(from as int, from + k));
            assert(s.last() == byte);
            assert(be_value(s) == v * 256 + byte);
            lemma_be_value_bound(s);
            lemma_p256_mono(s.len(), 16);
        }
        v = v * 256 + byte as u128;
        k += 1;
    }
    v
}

pub proof fn lemma_p256_mono(a: nat, b: nat)
    requires
        a <= b,
    ensures
        p256(a) <= p256(b),
    decreases b,
{
    if a < b {
        lemma_p256_mono(a, (b - 1) as nat);
        lemma_p256_pos((b - 1) as nat);
    }
}

} // verus!
