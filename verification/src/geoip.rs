//! Geographic routing data: CIDR blocks as address ranges, a range table
//! that maps addresses to records, the `geo` directive (the most specific
//! block wins), country allow/deny lists, and the client address behind
//! trusted proxies.

use vstd::prelude::*;
use vstd::arithmetic::power2::pow2;
use crate::net::{ip_from_text, lemma_pow2_128, width_of, IpAddress, IpNetwork};
use crate::text::{
    chars_of, chars_parse_u64, chars_split, chars_trim, parse_u64, split, str_eq, string_of,
    to_uppercase, trim, unicode_upper,
};

verus! {

/// A closed range of addresses, both ends as 128-bit numbers.
#[derive(Debug, Clone, Copy, PartialEq, Eq, Structural)]
pub struct IpRange {
    pub start: u128,
    pub end: u128,
}

/// The block of `2^(width - prefix)` addresses that holds `v`.
pub open spec fn block_of(v: nat, width: nat, prefix: nat) -> IpRange {
    let m = pow2((width - prefix) as nat);
    IpRange { start: (v / m * m) as u128, end: (v / m * m + m - 1) as u128 }
}

/// The range of a CIDR text `address/prefix`: `None` unless the text has
/// exactly one `/`, an address before it and a prefix (a `u8`) after it
/// that is no longer than the address.
pub open spec fn range_of_cidr(t: Seq<char>) -> Option<IpRange> {
    let parts = split(t, '/');
    if parts.len() != 2 {
        None
    } else {
        match (ip_from_text(parts[0]), parse_u64(parts[1])) {
            (Some(ip), Some(p)) => if p <= 255 && p <= width_of(ip) {
                Some(block_of(ip.spec_u128() as nat, width_of(ip), p as nat))
            } else {
                None
            },
            _ => None,
        }
    }
}

/// `pow2(k)` for `k < 128`.
fn pow2_u128(k: u8) -> (r: u128)
    requires
        k < 128,
    ensures
        r == pow2(k as nat),
{
    let mut m: u128 = 1;
    let mut i: u8 = 0;
    proof {
        lemma_pow2_128();
        assert(pow2(0) == 1) by {
            vstd::arithmetic::power2::lemma2_to64();
        }
    }
    while i < k
        invariant
            i <= k < 128,
            m == pow2(i as nat),
            pow2(128) == 0x1_0000_0000_0000_0000_0000_0000_0000_0000,
        decreases k - i,
    {
        proof {
            vstd::arithmetic::power2::lemma_pow2_unfold((i + 1) as nat);
            vstd::arithmetic::power2::lemma_pow2_strictly_increases((i + 1) as nat, 128);
        }
        m = m * 2;
        i += 1;
    }
    m
}

proof fn lemma_block_fits(v: nat, w: nat, s: nat)
    requires
        s <= w,
        v < pow2(w),
    ensures
        (v / pow2(s)) * pow2(s) + pow2(s) <= pow2(w),
        (v / pow2(s)) * pow2(s) <= v,
{
    let m = pow2(s);
    vstd::arithmetic::power2::lemma_pow2_pos(s);
    vstd::arithmetic::power2::lemma_pow2_adds((w - s) as nat, s);
    let k = pow2((w - s) as nat);
    vstd::arithmetic::div_mod::lemma_multiply_divide_lt(v as int, m as int, k as int);
    let q = v / m;
    assert((q + 1) * m <= k * m) by (nonlinear_arith)
        requires
            q + 1 <= k,
            m > 0,
    ;
    vstd::arithmetic::div_mod::lemma_fundamental_div_mod(v as int, m as int);
    assert(q * m + m == (q + 1) * m) by (nonlinear_arith);
    assert(q * m <= v) by (nonlinear_arith)
        requires
            v == m * q + v % m,
            v % m >= 0,
    ;
}

impl IpRange {
    /// The range of a CIDR block such as `10.0.0.0/8` (see `range_of_cidr`).
    pub fn from_cidr(cidr: &str) -> (r: Option<IpRange>)
        ensures
            r == range_of_cidr(cidr@),
    {
        let cs = chars_of(cidr);
        let parts = chars_split(cs.as_slice(), '/');
        if parts.len() != 2 {
            return None;
        }
        let addr = string_of(parts[0].as_slice());
        let ip = match IpAddress::parse(addr.as_str()) {
            Some(ip) => ip,
            None => return None,
        };
        let p = match chars_parse_u64(parts[1].as_slice()) {
            Some(p) => p,
            None => return None,
        };
        let w: u8 = match ip {
            IpAddress::V4(_) => 32,
            IpAddress::V6(_) => 128,
        };
        if p > 255 || p > w as u64 {
            return None;
        }
        let v = ip.to_u128();
        let s: u8 = w - p as u8;
        proof {
            lemma_pow2_128();
            lemma_block_fits(v as nat, w as nat, s as nat);
            vstd::arithmetic::power2::lemma_pow2_pos(s as nat);
        }
        if s == 128 {
            proof {
                vstd::arithmetic::div_mod::lemma_basic_div(v as int, pow2(128) as int);
            }
            return Some(IpRange { start: 0, end: 0xffff_ffff_ffff_ffff_ffff_ffff_ffff_ffff });
        }
        let m = pow2_u128(s);
        let start = v / m * m;
        Some(IpRange { start, end: start + (m - 1) })
    }

    pub open spec fn spec_contains(self, ip: u128) -> bool {
        self.start <= ip <= self.end
    }

    pub fn contains(&self, ip: u128) -> (r: bool)
        ensures
            r == self.spec_contains(ip),
    {
        ip >= self.start && ip <= self.end
    }
}

// ---------------------------------------------------------------------------
// Range table
// ---------------------------------------------------------------------------

/// The index of the first entry whose range holds `x`, if any.
pub open spec fn first_holding<R>(entries: Seq<(IpRange, R)>, x: u128) -> Option<int>
    decreases entries.len(),
{
    if entries.len() == 0 {
        None
    } else if entries.last().0.spec_contains(x) && first_holding(entries.drop_last(), x) is None {
        Some(entries.len() - 1)
    } else {
        first_holding(entries.drop_last(), x)
    }
}

/// A table from address ranges to records; a lookup takes the first range
/// that holds the address.
pub struct GeoIpDatabase<R> {
    country_map: Vec<(IpRange, R)>,
}

impl<R> View for GeoIpDatabase<R> {
    type V = Seq<(IpRange, R)>;

    closed spec fn view(&self) -> Seq<(IpRange, R)> {
        self.country_map@
    }
}

impl<R> GeoIpDatabase<R> {
    pub fn new() -> (r: Self)
        ensures
            r@ == Seq::<(IpRange, R)>::empty(),
    {
        GeoIpDatabase { country_map: Vec::new() }
    }

    /// Adds a range with its record; a text that is no CIDR block is ignored.
    pub fn add_range(&mut self, cidr: &str, record: R)
        ensures
            match range_of_cidr(cidr@) {
                Some(range) => final(self)@ == old(self)@.push((range, record)),
                None => final(self)@ == old(self)@,
            },
    {
        if let Some(range) = IpRange::from_cidr(cidr) {
            self.country_map.push((range, record));
        }
    }

    /// The record of the first range that holds `ip`.
    pub fn lookup(&self, ip: IpAddress) -> (r: Option<&R>)
        ensures
            match first_holding(self@, ip.spec_u128()) {
                Some(i) => r == Some(&self@[i].1),
                None => r is None,
            },
    {
        let x = ip.to_u128();
        let mut i: usize = 0;
        while i < self.country_map.len()
            invariant
                i <= self@.len(),
                x == ip.spec_u128(),
                first_holding(self@.take(i as int), x) is None,
            decreases self@.len() - i,
        {
            proof {
                lemma_first_holding_prefix(self@, x, (i + 1) as int);
                assert(self@.take(i + 1).drop_last() =~= self@.take(i as int));
            }
            let e: &(IpRange, R) = &self.country_map[i];
            assert(*e == self@[i as int]);
            if e.0.contains(x) {
                proof {
                    let t = self@.take(i + 1);
                    assert(t.last() == self@[i as int]);
                    assert(first_holding(t, x) == Some(i as int));
                    lemma_first_holding_extends(self@, x, (i + 1) as int);
                    assert(first_holding(self@, x) == Some(i as int));
                }
                return Some(&e.1);
            }
            i += 1;
        }
        assert(self@.take(self@.len() as int) =~= self@);
        None
    }
}

proof fn lemma_first_holding_prefix<R>(s: Seq<(IpRange, R)>, x: u128, n: int)
    requires
        0 <= n <= s.len(),
    ensures
        first_holding(s.take(n), x) matches Some(i) ==> 0 <= i < n && s[i].0.spec_contains(x),
    decreases n,
{
    if n > 0 {
        assert(s.take(n).drop_last() =~= s.take(n - 1));
        lemma_first_holding_prefix(s, x, n - 1);
    }
}

/// Once an entry holds `x`, later entries change nothing.
proof fn lemma_first_holding_extends<R>(s: Seq<(IpRange, R)>, x: u128, n: int)
    requires
        0 < n <= s.len(),
        first_holding(s.take(n), x) is Some,
    ensures
        first_holding(s, x) == first_holding(s.take(n), x),
    decreases s.len() - n,
{
    if n < s.len() {
        assert(s.take(n + 1).drop_last() =~= s.take(n));
        lemma_first_holding_extends(s, x, n + 1);
    } else {
        assert(s.take(n) =~= s);
    }
}

// ---------------------------------------------------------------------------
// The geo directive
// ---------------------------------------------------------------------------

/// Maps address blocks to values of a variable.
pub struct GeoDirective {
    pub source_var: String,
    pub target_var: String,
    pub default: Option<String>,
    pub ranges: Vec<(IpRange, String)>,
}

/// The number of addresses of a range, less one.
pub open spec fn range_size(r: IpRange) -> int {
    r.end - r.start
}

/// Entry `i` is the most specific block that holds `x`: it holds `x`, no
/// block that holds `x` is smaller, and every earlier one that holds `x`
/// is larger.
pub open spec fn most_specific(ranges: Seq<(IpRange, Seq<char>)>, x: u128, i: int) -> bool {
    &&& 0 <= i < ranges.len()
    &&& ranges[i].0.spec_contains(x)
    &&& forall|j: int|
        0 <= j < ranges.len() && (#[trigger] ranges[j]).0.spec_contains(x) ==> range_size(
            ranges[i].0,
        ) <= range_size(ranges[j].0)
    &&& forall|j: int|
        0 <= j < i && (#[trigger] ranges[j]).0.spec_contains(x) ==> range_size(ranges[i].0)
            < range_size(ranges[j].0)
}

pub open spec fn any_holds(ranges: Seq<(IpRange, Seq<char>)>, x: u128) -> bool {
    exists|j: int| 0 <= j < ranges.len() && (#[trigger] ranges[j]).0.spec_contains(x)
}

impl GeoDirective {
    pub open spec fn spec_ranges(&self) -> Seq<(IpRange, Seq<char>)> {
        self.ranges@.map_values(|e: (IpRange, String)| (e.0, e.1@))
    }

    pub fn new(source_var: &str, target_var: &str) -> (r: Self)
        ensures
            r.source_var@ == source_var@,
            r.target_var@ == target_var@,
            r.default is None,
            r.ranges@.len() == 0,
    {
        GeoDirective {
            source_var: crate::text::to_owned(source_var),
            target_var: crate::text::to_owned(target_var),
            default: None,
            ranges: Vec::new(),
        }
    }

    pub fn with_default(self, default: &str) -> (r: Self)
        ensures
            r.source_var == self.source_var,
            r.target_var == self.target_var,
            r.ranges == self.ranges,
            (r.default matches Some(d) && d@ == default@),
    {
        GeoDirective { default: Some(crate::text::to_owned(default)), ..self }
    }

    /// Adds a block with its value; a text that is no CIDR block is ignored.
    pub fn add_range(&mut self, cidr: &str, value: &str)
        ensures
            final(self).source_var == old(self).source_var,
            final(self).target_var == old(self).target_var,
            final(self).default == old(self).default,
            match range_of_cidr(cidr@) {
                Some(range) => final(self).spec_ranges() == old(self).spec_ranges().push(
                    (range, value@),
                ),
                None => final(self).ranges@ == old(self).ranges@,
            },
    {
        if let Some(range) = IpRange::from_cidr(cidr) {
            self.ranges.push((range, crate::text::to_owned(value)));
            proof {
                assert(self.spec_ranges() =~= old(self).spec_ranges().push((range, value@)));
            }
        }
    }

    /// The value of the most specific block that holds `ip` (the first of
    /// the smallest), else the default.
    pub fn resolve(&self, ip: IpAddress) -> (r: Option<String>)
        ensures
            match r {
                Some(v) => (exists|i: int|
                    most_specific(self.spec_ranges(), ip.spec_u128(), i) && v@
                        == self.spec_ranges()[i].1) || (!any_holds(
                    self.spec_ranges(),
                    ip.spec_u128(),
                ) && (self.default matches Some(d) && v@ == d@)),
                None => !any_holds(self.spec_ranges(), ip.spec_u128()) && self.default is None,
            },
    {
        let x = ip.to_u128();
        let ghost rs = self.spec_ranges();
        let mut best: Option<usize> = None;
        let mut i: usize = 0;
        while i < self.ranges.len()
            invariant
                i <= self.ranges@.len(),
                rs == self.spec_ranges(),
                rs.len() == self.ranges@.len(),
                match best {
                    Some(b) => b < i && most_specific(rs.take(i as int), x, b as int),
                    None => !any_holds(rs.take(i as int), x),
                },
            decreases self.ranges@.len() - i,
        {
            let ghost pre = rs.take(i as int);
            let ghost post = rs.take(i + 1);
            assert(post.take(i as int) =~= pre);
            assert(post[i as int] == rs[i as int]);
            assert(rs[i as int].0 == self.ranges@[i as int].0);
            let range = self.ranges[i].0;
            if range.contains(x) {
                let size = range.end - range.start;
                let better = match best {
                    None => true,
                    Some(b) => size < self.ranges[b].0.end - self.ranges[b].0.start,
                };
                if better {
                    proof {
                        assert forall|j: int|
                            0 <= j < post.len() && (#[trigger] post[j]).0.spec_contains(x) implies range_size(
                            post[i as int].0,
                        ) <= range_size(post[j].0) by {
                            if j < i {
                                assert(pre[j] == post[j]);
                                if let Some(b) = best {
                                    assert(rs[b as int].0 == self.ranges@[b as int].0);
                                    assert(pre[b as int] == rs[b as int]);
                                }
                            }
                        }
                        assert forall|j: int|
                            0 <= j < i && (#[trigger] post[j]).0.spec_contains(x) implies range_size(
                            post[i as int].0,
                        ) < range_size(post[j].0) by {
                            assert(pre[j] == post[j]);
                            if let Some(b) = best {
                                assert(rs[b as int].0 == self.ranges@[b as int].0);
                                assert(pre[b as int] == rs[b as int]);
                            } else {
                                assert(pre[j].0.spec_contains(x));
                            }
                        }
                    }
                    best = Some(i);
                } else {
                    proof {
                        let b = best->0;
                        assert(rs[b as int].0 == self.ranges@[b as int].0);
                        assert(pre[b as int] == post[b as int]);
                        assert forall|j: int|
                            0 <= j < post.len() && (#[trigger] post[j]).0.spec_contains(x) implies range_size(
                            post[b as int].0,
                        ) <= range_size(post[j].0) by {
                            if j < i {
                                assert(pre[j] == post[j]);
                            }
                        }
                        assert forall|j: int|
                            0 <= j < b && (#[trigger] post[j]).0.spec_contains(x) implies range_size(
                            post[b as int].0,
                        ) < range_size(post[j].0) by {
                            assert(pre[j] == post[j]);
                        }
                    }
                }
            } else {
                proof {
                    match best {
                        Some(b) => {
                            assert(pre[b as int] == post[b as int]);
                            assert forall|j: int|
                                0 <= j < post.len() && (#[trigger] post[j]).0.spec_contains(x) implies range_size(
                                post[b as int].0,
                            ) <= range_size(post[j].0) by {
                                if j < i {
                                    assert(pre[j] == post[j]);
                                }
                            }
                            assert forall|j: int|
                                0 <= j < b && (#[trigger] post[j]).0.spec_contains(x) implies range_size(
                                post[b as int].0,
                            ) < range_size(post[j].0) by {
                                assert(pre[j] == post[j]);
                            }
                        },
                        None => {
                            assert forall|j: int| 0 <= j < post.len() implies !(#[trigger] post[j]).0.spec_contains(x) by {
                                if j < i {
                                    assert(pre[j] == post[j]);
                                }
                            }
                        },
                    }
                }
            }
            i += 1;
        }
        assert(rs.take(rs.len() as int) =~= rs);
        match best {
            Some(b) => {
                assert(rs[b as int].1 == self.ranges@[b as int].1@);
                Some(crate::text::to_owned(self.ranges[b].1.as_str()))
            },
            None => match &self.default {
                Some(d) => Some(crate::text::to_owned(d.as_str())),
                None => None,
            },
        }
    }
}

// ---------------------------------------------------------------------------
// Country lists
// ---------------------------------------------------------------------------

/// Country-based access control: codes are compared upper-cased.
pub struct CountryAcl {
    pub denied_countries: Vec<String>,
    /// Empty allows every country that is not denied.
    pub allowed_countries: Vec<String>,
}

pub open spec fn views_of(v: Seq<String>) -> Seq<Seq<char>> {
    v.map_values(|s: String| s@)
}

fn contains_str(list: &Vec<String>, s: &str) -> (r: bool)
    ensures
        r == views_of(list@).contains(s@),
{
    let mut i: usize = 0;
    while i < list.len()
        invariant
            i <= list@.len(),
            forall|j: int| 0 <= j < i ==> list@[j]@ != s@,
        decreases list@.len() - i,
    {
        if str_eq(list[i].as_str(), s) {
            assert(views_of(list@)[i as int] == s@);
            return true;
        }
        i += 1;
    }
    proof {
        if views_of(list@).contains(s@) {
            let k = choose|k: int| 0 <= k < views_of(list@).len() && views_of(list@)[k] == s@;
            assert(list@[k]@ == s@);
        }
    }
    false
}

impl CountryAcl {
    pub fn deny_countries(countries: Vec<&str>) -> (r: Self)
        ensures
            views_of(r.denied_countries@) == countries@.map_values(|c: &str| unicode_upper(c@)),
            r.allowed_countries@.len() == 0,
    {
        let mut denied: Vec<String> = Vec::new();
        let mut i: usize = 0;
        while i < countries.len()
            invariant
                i <= countries@.len(),
                views_of(denied@) == countries@.take(i as int).map_values(
                    |c: &str| unicode_upper(c@),
                ),
            decreases countries@.len() - i,
        {
            let u = to_uppercase(countries[i]);
            let ghost before = denied@;
            denied.push(u);
            proof {
                assert(views_of(denied@) =~= views_of(before).push(u@));
                assert(countries@.take(i + 1).drop_last() =~= countries@.take(i as int));
                assert(views_of(denied@) =~= countries@.take(i + 1).map_values(
                    |c: &str| unicode_upper(c@),
                ));
            }
            i += 1;
        }
        assert(countries@.take(countries@.len() as int) =~= countries@);
        CountryAcl { denied_countries: denied, allowed_countries: Vec::new() }
    }

    /// A code (upper-cased) passes unless it is denied, or an allow list
    /// exists and does not name it.
    pub fn is_allowed(&self, country_code: &str) -> (r: bool)
        ensures
            r == (!views_of(self.denied_countries@).contains(unicode_upper(country_code@)) && (
            self.allowed_countries@.len() == 0 || views_of(self.allowed_countries@).contains(
                unicode_upper(country_code@),
            ))),
    {
        let code = to_uppercase(country_code);
        if self.denied_countries.len() > 0 && contains_str(&self.denied_countries, code.as_str()) {
            return false;
        }
        if self.allowed_countries.len() > 0 && !contains_str(&self.allowed_countries, code.as_str()) {
            return false;
        }
        true
    }
}

// ---------------------------------------------------------------------------
// Client address behind trusted proxies
// ---------------------------------------------------------------------------

pub open spec fn covered_by(nets: Seq<IpNetwork>, ip: IpAddress) -> bool {
    exists|i: int| 0 <= i < nets.len() && (#[trigger] nets[i]).spec_contains(ip)
}

/// The first entry of a forwarded-for list (trimmed) that is an address
/// outside every trusted network.
pub open spec fn first_untrusted(parts: Seq<Seq<char>>, nets: Seq<IpNetwork>) -> Option<IpAddress>
    decreases parts.len(),
{
    if parts.len() == 0 {
        None
    } else {
        match ip_from_text(trim(parts[0])) {
            Some(ip) => if !covered_by(nets, ip) {
                Some(ip)
            } else {
                first_untrusted(parts.drop_first(), nets)
            },
            None => first_untrusted(parts.drop_first(), nets),
        }
    }
}

/// The client address: the direct peer unless it is a trusted proxy; then
/// the leftmost forwarded-for entry outside the trusted networks, if any.
pub open spec fn client_ip(
    direct: IpAddress,
    forwarded: Option<Seq<char>>,
    nets: Seq<IpNetwork>,
) -> IpAddress {
    if !covered_by(nets, direct) {
        direct
    } else {
        match forwarded {
            Some(x) => match first_untrusted(split(x, ','), nets) {
                Some(ip) => ip,
                None => direct,
            },
            None => direct,
        }
    }
}

fn covered_exec(nets: &[IpNetwork], ip: IpAddress) -> (r: bool)
    requires
        forall|i: int| 0 <= i < nets@.len() ==> (#[trigger] nets@[i]).wf(),
    ensures
        r == covered_by(nets@, ip),
{
    let mut i: usize = 0;
    while i < nets.len()
        invariant
            i <= nets@.len(),
            forall|k: int| 0 <= k < nets@.len() ==> (#[trigger] nets@[k]).wf(),
            forall|k: int| 0 <= k < i ==> !(#[trigger] nets@[k]).spec_contains(ip),
        decreases nets@.len() - i,
    {
        let n = nets[i];
        assert(nets@[i as int].wf());
        if n.contains(ip) {
            return true;
        }
        i += 1;
    }
    false
}

/// Resolves the real client address, reading the forwarded-for list only
/// when the direct peer is a trusted proxy.
pub fn resolve_client_ip(
    direct_ip: IpAddress,
    forwarded_for: Option<&str>,
    trusted_proxies: &[IpNetwork],
) -> (r: IpAddress)
    requires
        forall|i: int| 0 <= i < trusted_proxies@.len() ==> (#[trigger] trusted_proxies@[i]).wf(),
    ensures
        r == client_ip(
            direct_ip,
            match forwarded_for {
                Some(x) => Some(x@),
                None => None,
            },
            trusted_proxies@,
        ),
{
    if !covered_exec(trusted_proxies, direct_ip) {
        return direct_ip;
    }
    if let Some(xff) = forwarded_for {
        let cs = chars_of(xff);
        let parts = chars_split(cs.as_slice(), ',');
        let ghost ps = split(xff@, ',');
        let mut i: usize = 0;
        assert(ps.skip(0) =~= ps);
        while i < parts.len()
            invariant
                i <= parts@.len() == ps.len(),
                ps == split(xff@, ','),
                forall|k: int| 0 <= k < parts@.len() ==> #[trigger] parts@[k]@ == ps[k],
                forall|k: int| 0 <= k < trusted_proxies@.len() ==> (#[trigger] trusted_proxies@[k]).wf(),
                first_untrusted(ps, trusted_proxies@) == first_untrusted(ps.skip(i as int), trusted_proxies@),
                covered_by(trusted_proxies@, direct_ip),
                forwarded_for == Some(xff),
            decreases parts@.len() - i,
        {
            proof {
                assert(ps.skip(i as int)[0] == ps[i as int]);
                assert(ps.skip(i as int).drop_first() =~= ps.skip(i + 1));
            }
            let t = chars_trim(parts[i].as_slice());
            let candidate = string_of(t.as_slice());
            assert(candidate@ == trim(ps[i as int]));
            if let Some(ip) = IpAddress::parse(candidate.as_str()) {
                if !covered_exec(trusted_proxies, ip) {
                    assert(ps.skip(i as int)[0] == ps[i as int]);
                    assert(ip_from_text(trim(ps.skip(i as int)[0])) == Some(ip));
                    assert(first_untrusted(ps.skip(i as int), trusted_proxies@) == Some(ip));
                    return ip;
                }
            }
            i += 1;
        }
        proof {
            assert(ps.skip(ps.len() as int) =~= Seq::<Seq<char>>::empty());
        }
    }
    direct_ip
}

} // verus!
