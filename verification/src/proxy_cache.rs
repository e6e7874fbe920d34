//! Proxy response cache: normalised cache keys, cached entries,
//! `Cache-Control` directives, time-to-live resolution, the
//! `X-Cache-Status` values and the bypass rules.

use std::collections::HashMap;
use std::time::Instant;
use vstd::prelude::*;
use crate::caching::{lru_after_put, lru_pos};
use crate::clock::{elapsed_since, instant_now};
use crate::text::{
    chars_eq, chars_of, chars_parse_u64, chars_slice, chars_split, chars_split_once,
    chars_starts_with, chars_trim, hex_str, join, lex_leq, parse_u64, push_joined, push_str,
    sort_strings, split, split_once, str_eq, str_eq_ignore_ascii_case, eq_ignore_ascii_case,
    string_of, to_lowercase, trim, u64_to_hex, unicode_lower,
};

verus! {

broadcast use vstd::std_specs::hash::group_hash_axioms;

// ---------------------------------------------------------------------------
// CacheKey
// ---------------------------------------------------------------------------

#[derive(Debug, Clone, PartialEq, Eq, Hash)]
pub struct CacheKey {
    pub key: String,
}

/// The text a request is keyed by: scheme, host and path, and the query
/// parameters (if any) sorted so that their order does not matter.
pub open spec fn normalized_request(scheme: Seq<char>, host: Seq<char>, uri: Seq<char>) -> Seq<
    char,
> {
    match split_once(uri, '?') {
        Some((path, query)) => scheme + "://"@ + host + path + "?"@ + join(
            split(query, '&').sort_by(lex_leq()),
            "&"@,
        ),
        None => scheme + "://"@ + host + uri,
    }
}

pub open spec fn fnv_offset() -> u64 {
    14695981039346656037
}

pub open spec fn fnv_prime() -> u64 {
    1099511628211
}

/// 64-bit FNV-1a over a byte string.
pub open spec fn fnv1a(bytes: Seq<u8>) -> u64
    decreases bytes.len(),
{
    if bytes.len() == 0 {
        fnv_offset()
    } else {
        vstd::wrapping::u64_specs::wrapping_mul(
            fnv1a(bytes.drop_last()) ^ (bytes.last() as u64),
            fnv_prime(),
        )
    }
}

/// The key of a request: the FNV-1a hash of its normalised text (as UTF-8),
/// in lower-case hexadecimal.
pub open spec fn cache_key_of(scheme: Seq<char>, host: Seq<char>, uri: Seq<char>) -> Seq<char> {
    hex_str(fnv1a(vstd::utf8::encode_utf8(normalized_request(scheme, host, uri))) as nat)
}

/// Simple deterministic hash (FNV-1a, not cryptographic, fine for cache keys)
pub fn md5_simple(s: &str) -> (h: u64)
    ensures
        h == fnv1a(vstd::utf8::encode_utf8(s@)),
{
    let bytes = s.as_bytes();
    let ghost bs = bytes@;
    assert(bs == vstd::utf8::encode_utf8(s@));
    let mut h: u64 = 14695981039346656037;
    let mut i: usize = 0;
    assert(bs.take(0) =~= Seq::<u8>::empty());
    while i < bytes.len()
        invariant
            i <= bs.len(),
            bs == bytes@,
            h == fnv1a(bs.take(i as int)),
        decreases bs.len() - i,
    {
        assert(bs.take(i + 1).drop_last() =~= bs.take(i as int));
        h = h ^ (bytes[i] as u64);
        h = h.wrapping_mul(1099511628211);
        i += 1;
    }
    assert(bs.take(bs.len() as int) =~= bs);
    h
}

impl CacheKey {
    /// Build a normalized cache key from scheme + host + URI.
    /// Query params are sorted for normalization.
    pub fn from_request(scheme: &str, host: &str, uri: &str) -> (r: Self)
        ensures
            r.key@ == cache_key_of(scheme@, host@, uri@),
    {
        let u = chars_of(uri);
        let mut normalized = String::new();
        push_str(&mut normalized, scheme);
        push_str(&mut normalized, "://");
        push_str(&mut normalized, host);
        match chars_split_once(u.as_slice(), '?') {
            Some((path, query)) => {
                let p = string_of(path.as_slice());
                push_str(&mut normalized, p.as_str());
                push_str(&mut normalized, "?");
                let parts = chars_split(query.as_slice(), '&');
                proof {
                    assert(parts@.map_values(|x: Vec<char>| x@) =~= split(query@, '&'));
                }
                let sorted = sort_strings(parts);
                push_joined(&mut normalized, &sorted, "&");
            },
            None => {
                push_str(&mut normalized, uri);
            },
        }
        assert(normalized@ =~= normalized_request(scheme@, host@, uri@));
        let h = md5_simple(normalized.as_str());
        CacheKey { key: u64_to_hex(h) }
    }
}

/// The order of the query parameters does not change the key: two URIs
/// with the same path whose parameters are the same up to their order get
/// the same key.
pub proof fn law_key_ignores_parameter_order(
    scheme: Seq<char>,
    host: Seq<char>,
    path: Seq<char>,
    q1: Seq<char>,
    q2: Seq<char>,
)
    requires
        !crate::text::has_char(path, '?'),
        split(q1, '&').to_multiset() == split(q2, '&').to_multiset(),
    ensures
        cache_key_of(scheme, host, path + "?"@ + q1) == cache_key_of(
            scheme,
            host,
            path + "?"@ + q2,
        ),
{
    crate::text::lemma_lex_total_ordering();
    lemma_split_once_at(path, q1);
    lemma_split_once_at(path, q2);
    let s1 = split(q1, '&');
    let s2 = split(q2, '&');
    s1.lemma_sort_by_ensures(lex_leq());
    s2.lemma_sort_by_ensures(lex_leq());
    vstd::seq_lib::lemma_sorted_unique(s1.sort_by(lex_leq()), s2.sort_by(lex_leq()), lex_leq());
}

proof fn lemma_split_once_at(path: Seq<char>, q: Seq<char>)
    requires
        !crate::text::has_char(path, '?'),
    ensures
        split_once(path + "?"@ + q, '?') == Some((path, q)),
{
    reveal_strlit("?");
    let u = path + "?"@ + q;
    assert(u[path.len() as int] == '?');
    assert(crate::text::has_char(u, '?'));
    let i = choose|i: int| 0 <= i < u.len() && u[i] == '?' && forall|j: int| 0 <= j < i ==> u[j] != '?';
    assert(i == path.len()) by {
        if i < path.len() {
            assert(u[i] == path[i]);
        }
        if i > path.len() {
            assert(u[path.len() as int] == '?');
        }
    }
    assert(u.take(i) =~= path);
    assert(u.skip(i + 1) =~= q);
}

// ---------------------------------------------------------------------------
// CacheEntry
// ---------------------------------------------------------------------------

#[derive(Debug)]
pub struct CacheEntry {
    pub key: CacheKey,
    pub status: u16,
    pub headers: Vec<(String, String)>,
    pub body: Vec<u8>,
    pub created_at: Instant,
    /// How long the entry stays fresh, in whole seconds.
    pub ttl: u64,
    pub etag: Option<String>,
    pub last_modified: Option<String>,
    /// Bytes size of the body
    pub size: usize,
}

/// The value of the first header whose lower-cased name is `name`.
pub open spec fn first_header(hs: Seq<(String, String)>, name: Seq<char>) -> Option<Seq<char>>
    decreases hs.len(),
{
    if hs.len() == 0 {
        None
    } else if unicode_lower(hs[0].0@) == name {
        Some(hs[0].1@)
    } else {
        first_header(hs.drop_first(), name)
    }
}

fn find_header(headers: &Vec<(String, String)>, name: &str) -> (r: Option<String>)
    ensures
        match (r, first_header(headers@, name@)) {
            (Some(v), Some(w)) => v@ == w,
            (None, None) => true,
            _ => false,
        },
{
    let mut i: usize = 0;
    assert(headers@.skip(0) =~= headers@);
    while i < headers.len()
        invariant
            i <= headers@.len(),
            first_header(headers@, name@) == first_header(headers@.skip(i as int), name@),
        decreases headers@.len() - i,
    {
        assert(headers@.skip(i as int)[0] == headers@[i as int]);
        assert(headers@.skip(i as int).drop_first() =~= headers@.skip(i + 1));
        let lower = to_lowercase(headers[i].0.as_str());
        if str_eq(lower.as_str(), name) {
            return Some(crate::text::to_owned(headers[i].1.as_str()));
        }
        i += 1;
    }
    None
}

impl Clone for CacheEntry {
    fn clone(&self) -> (r: Self)
        ensures
            r.status == self.status,
            r.body@ == self.body@,
            r.created_at == self.created_at,
            r.ttl == self.ttl,
            r.size == self.size,
    {
        CacheEntry {
            key: self.key.clone(),
            status: self.status,
            headers: self.headers.clone(),
            body: self.body.clone(),
            created_at: self.created_at,
            ttl: self.ttl,
            etag: self.etag.clone(),
            last_modified: self.last_modified.clone(),
            size: self.size,
        }
    }
}

impl CacheEntry {
    pub fn new(
        key: CacheKey,
        status: u16,
        headers: Vec<(String, String)>,
        body: Vec<u8>,
        ttl: u64,
    ) -> (r: Self)
        ensures
            r.key == key,
            r.status == status,
            r.headers@ == headers@,
            r.body@ == body@,
            r.ttl == ttl,
            r.size == body@.len(),
            match (r.etag, first_header(headers@, "etag"@)) {
                (Some(v), Some(w)) => v@ == w,
                (None, None) => true,
                _ => false,
            },
            match (r.last_modified, first_header(headers@, "last-modified"@)) {
                (Some(v), Some(w)) => v@ == w,
                (None, None) => true,
                _ => false,
            },
    {
        let etag = find_header(&headers, "etag");
        let last_modified = find_header(&headers, "last-modified");
        let size = body.len();
        Self {
            key,
            status,
            headers,
            body,
            created_at: instant_now(),
            ttl,
            etag,
            last_modified,
            size,
        }
    }

    /// Whether an entry of this age (whole seconds since it was made) has
    /// lived at least its time to live.
    pub fn expired_after(&self, age_secs: u64) -> (r: bool)
        ensures
            r == (age_secs >= self.ttl),
    {
        age_secs >= self.ttl
    }

    /// Whether the entry has lived at least its time to live, by the clock
    /// now: an entry with no time to live has always expired; otherwise the
    /// answer depends on the clock reading.
    pub fn is_expired(&self) -> (r: bool)
        ensures
            self.ttl == 0 ==> r,
    {
        let (secs, _nanos) = elapsed_since(&self.created_at);
        self.expired_after(secs)
    }

    /// The age of the entry in whole seconds. Nothing is stated of the
    /// number: it depends on the clock.
    pub fn age_secs(&self) -> u64 {
        elapsed_since(&self.created_at).0
    }
}

// ---------------------------------------------------------------------------
// Cache-Control parser
// ---------------------------------------------------------------------------

#[derive(Debug, Clone, Copy, PartialEq, Eq, Structural)]
pub struct CacheDirectives {
    pub max_age: Option<u64>,
    pub s_maxage: Option<u64>,
    pub no_cache: bool,
    pub no_store: bool,
    pub private: bool,
    pub public: bool,
}

pub open spec fn no_directives() -> CacheDirectives {
    CacheDirectives {
        max_age: None,
        s_maxage: None,
        no_cache: false,
        no_store: false,
        private: false,
        public: false,
    }
}

impl Default for CacheDirectives {
    fn default() -> (r: Self)
        ensures
            r == no_directives(),
    {
        CacheDirectives {
            max_age: None,
            s_maxage: None,
            no_cache: false,
            no_store: false,
            private: false,
            public: false,
        }
    }
}

pub open spec fn starts_with(s: Seq<char>, p: Seq<char>) -> bool {
    p.len() <= s.len() && s.take(p.len() as int) == p
}

/// How one trimmed directive changes what was read so far.
pub open spec fn apply_directive(d: CacheDirectives, p: Seq<char>) -> CacheDirectives {
    if starts_with(p, "max-age="@) {
        CacheDirectives { max_age: parse_u64(p.skip(8)), ..d }
    } else if starts_with(p, "s-maxage="@) {
        CacheDirectives { s_maxage: parse_u64(p.skip(9)), ..d }
    } else if p == "no-cache"@ {
        CacheDirectives { no_cache: true, ..d }
    } else if p == "no-store"@ {
        CacheDirectives { no_store: true, ..d }
    } else if p == "private"@ {
        CacheDirectives { private: true, ..d }
    } else if p == "public"@ {
        CacheDirectives { public: true, ..d }
    } else {
        d
    }
}

/// The directives of a list of comma-separated pieces, read left to right.
pub open spec fn read_directives(parts: Seq<Seq<char>>) -> CacheDirectives
    decreases parts.len(),
{
    if parts.len() == 0 {
        no_directives()
    } else {
        apply_directive(read_directives(parts.drop_last()), trim(parts.last()))
    }
}

pub open spec fn spec_parse_directives(header: Seq<char>) -> CacheDirectives {
    read_directives(split(header, ','))
}

impl CacheDirectives {
    pub fn parse(header: &str) -> (r: Self)
        ensures
            r == spec_parse_directives(header@),
    {
        let h = chars_of(header);
        let parts = chars_split(h.as_slice(), ',');
        let ghost sp = split(header@, ',');
        let max_age = chars_of("max-age=");
        let s_maxage = chars_of("s-maxage=");
        let no_cache = chars_of("no-cache");
        let no_store = chars_of("no-store");
        let private = chars_of("private");
        let public = chars_of("public");
        proof {
            reveal_strlit("max-age=");
            reveal_strlit("s-maxage=");
        }
        let mut d = CacheDirectives::default();
        let mut i: usize = 0;
        assert(sp.take(0) =~= Seq::<Seq<char>>::empty());
        while i < parts.len()
            invariant
                i <= parts@.len(),
                parts@.len() == sp.len(),
                forall|k: int| 0 <= k < parts@.len() ==> #[trigger] parts@[k]@ == sp[k],
                d == read_directives(sp.take(i as int)),
                max_age@ == "max-age="@,
                s_maxage@ == "s-maxage="@,
                no_cache@ == "no-cache"@,
                no_store@ == "no-store"@,
                private@ == "private"@,
                public@ == "public"@,
                max_age@.len() == 8,
                s_maxage@.len() == 9,
            decreases parts@.len() - i,
        {
            assert(sp.take(i + 1).drop_last() =~= sp.take(i as int));
            assert(sp.take(i + 1).last() == parts@[i as int]@);
            let p = chars_trim(parts[i].as_slice());
            if chars_starts_with(p.as_slice(), max_age.as_slice()) {
                let v = chars_slice(p.as_slice(), 8, p.len());
                assert(v@ =~= p@.skip(8));
                d.max_age = chars_parse_u64(v.as_slice());
            } else if chars_starts_with(p.as_slice(), s_maxage.as_slice()) {
                let v = chars_slice(p.as_slice(), 9, p.len());
                assert(v@ =~= p@.skip(9));
                d.s_maxage = chars_parse_u64(v.as_slice());
            } else if chars_eq(p.as_slice(), no_cache.as_slice()) {
                d.no_cache = true;
            } else if chars_eq(p.as_slice(), no_store.as_slice()) {
                d.no_store = true;
            } else if chars_eq(p.as_slice(), private.as_slice()) {
                d.private = true;
            } else if chars_eq(p.as_slice(), public.as_slice()) {
                d.public = true;
            }
            i += 1;
        }
        assert(sp.take(parts@.len() as int) =~= sp);
        d
    }

    /// Effective TTL in seconds, following: s-maxage > max-age
    pub fn effective_ttl_secs(&self) -> (r: Option<u64>)
        ensures
            r == (if self.s_maxage is Some {
                self.s_maxage
            } else {
                self.max_age
            }),
    {
        if let Some(s) = self.s_maxage {
            return Some(s);
        }
        self.max_age
    }

    pub fn is_cacheable(&self) -> (r: bool)
        ensures
            r == (!self.no_store && !self.private && !self.no_cache),
    {
        !self.no_store && !self.private && !self.no_cache
    }
}

// ---------------------------------------------------------------------------
// TTL Resolver — per-status override config
// ---------------------------------------------------------------------------

/// Time-to-live settings, in seconds: per response status, and a default.
pub struct TtlConfig {
    pub status_ttls: HashMap<u16, u64>,
    pub default_ttl: u64,
}

/// The time to live of a response: its `Cache-Control` lifetime
/// (`s-maxage` before `max-age`), else the one configured for its status,
/// else the default.
pub open spec fn spec_resolve_ttl(
    status_ttls: Map<u16, u64>,
    default_ttl: u64,
    status: u16,
    d: CacheDirectives,
) -> u64 {
    if d.s_maxage is Some {
        d.s_maxage->0
    } else if d.max_age is Some {
        d.max_age->0
    } else if status_ttls.contains_key(status) {
        status_ttls[status]
    } else {
        default_ttl
    }
}

impl TtlConfig {
    pub fn new(default_secs: u64) -> (r: Self)
        ensures
            r.status_ttls@ == Map::<u16, u64>::empty(),
            r.default_ttl == default_secs,
    {
        Self { status_ttls: HashMap::new(), default_ttl: default_secs }
    }

    pub fn with_status(self, status: u16, secs: u64) -> (r: Self)
        ensures
            r.status_ttls@ == self.status_ttls@.insert(status, secs),
            r.default_ttl == self.default_ttl,
    {
        let mut s = self;
        s.status_ttls.insert(status, secs);
        s
    }

    /// The time to live of a response, in seconds (always some).
    pub fn resolve(&self, status: u16, directives: &CacheDirectives) -> (r: Option<u64>)
        ensures
            r == Some(spec_resolve_ttl(self.status_ttls@, self.default_ttl, status, *directives)),
    {
        if let Some(secs) = directives.effective_ttl_secs() {
            return Some(secs);
        }
        if let Some(d) = self.status_ttls.get(&status) {
            return Some(*d);
        }
        Some(self.default_ttl)
    }
}

/// A lifetime that the response itself gives always wins over configured
/// ones, and `s-maxage` over `max-age`.
pub proof fn law_response_lifetime_wins(
    status_ttls: Map<u16, u64>,
    default_ttl: u64,
    status: u16,
    d: CacheDirectives,
)
    ensures
        d.s_maxage matches Some(s) ==> spec_resolve_ttl(status_ttls, default_ttl, status, d) == s,
        d.s_maxage is None && d.max_age is Some ==> spec_resolve_ttl(
            status_ttls,
            default_ttl,
            status,
            d,
        ) == d.max_age->0,
{
}

// ---------------------------------------------------------------------------
// X-Cache-Status
// ---------------------------------------------------------------------------

#[derive(Debug, Clone, Copy, PartialEq, Eq, Structural)]
pub enum CacheStatus {
    Hit,
    Miss,
    Bypass,
    Expired,
    Stale,
    Updating,
    Revalidated,
}

pub open spec fn status_text(s: CacheStatus) -> Seq<char> {
    match s {
        CacheStatus::Hit => "HIT"@,
        CacheStatus::Miss => "MISS"@,
        CacheStatus::Bypass => "BYPASS"@,
        CacheStatus::Expired => "EXPIRED"@,
        CacheStatus::Stale => "STALE"@,
        CacheStatus::Updating => "UPDATING"@,
        CacheStatus::Revalidated => "REVALIDATED"@,
    }
}

impl CacheStatus {
    pub fn as_str(&self) -> (r: &'static str)
        ensures
            r@ == status_text(*self),
    {
        match self {
            Self::Hit => "HIT",
            Self::Miss => "MISS",
            Self::Bypass => "BYPASS",
            Self::Expired => "EXPIRED",
            Self::Stale => "STALE",
            Self::Updating => "UPDATING",
            Self::Revalidated => "REVALIDATED",
        }
    }
}

// ---------------------------------------------------------------------------
// Stats
// ---------------------------------------------------------------------------

#[derive(Debug, Clone, Copy)]
pub struct CacheStats {
    pub entries: usize,
    pub size_bytes: usize,
}

// ---------------------------------------------------------------------------
// Bypass condition evaluator
// ---------------------------------------------------------------------------

pub struct BypassCheck {
    /// Header names that, if present with non-empty value, cause bypass
    pub bypass_headers: Vec<String>,
    /// Only these methods are cacheable
    pub cacheable_methods: Vec<String>,
}

impl Default for BypassCheck {
    fn default() -> (r: Self)
        ensures
            r.bypass_headers@.len() == 1,
            r.bypass_headers@[0]@ == "Authorization"@,
            r.cacheable_methods@.len() == 2,
            r.cacheable_methods@[0]@ == "GET"@,
            r.cacheable_methods@[1]@ == "HEAD"@,
    {
        let mut bypass_headers: Vec<String> = Vec::new();
        bypass_headers.push(crate::text::to_owned("Authorization"));
        let mut cacheable_methods: Vec<String> = Vec::new();
        cacheable_methods.push(crate::text::to_owned("GET"));
        cacheable_methods.push(crate::text::to_owned("HEAD"));
        Self { bypass_headers, cacheable_methods }
    }
}

/// Whether `name` is one of `names`, ignoring ASCII case.
pub open spec fn listed_ignoring_case(names: Seq<String>, name: Seq<char>) -> bool {
    exists|i: int| 0 <= i < names.len() && eq_ignore_ascii_case(#[trigger] names[i]@, name)
}

/// A request bypasses the cache when its method is not cacheable, or when
/// it carries one of the bypass headers with a non-empty value.
pub open spec fn spec_should_bypass(
    bypass_headers: Seq<String>,
    cacheable_methods: Seq<String>,
    method: Seq<char>,
    headers: Seq<(Seq<char>, Seq<char>)>,
) -> bool {
    ||| !listed_ignoring_case(cacheable_methods, method)
    ||| exists|j: int|
        0 <= j < headers.len() && listed_ignoring_case(bypass_headers, #[trigger] headers[j].0)
            && headers[j].1.len() > 0
}

pub open spec fn text_pairs_view(hs: Seq<(String, String)>) -> Seq<(Seq<char>, Seq<char>)> {
    hs.map_values(|h: (String, String)| (h.0@, h.1@))
}

fn any_ignoring_case(names: &Vec<String>, name: &str) -> (r: bool)
    ensures
        r == listed_ignoring_case(names@, name@),
{
    let mut i: usize = 0;
    while i < names.len()
        invariant
            i <= names@.len(),
            forall|k: int| 0 <= k < i ==> !eq_ignore_ascii_case(#[trigger] names@[k]@, name@),
        decreases names@.len() - i,
    {
        if str_eq_ignore_ascii_case(names[i].as_str(), name) {
            return true;
        }
        i += 1;
    }
    false
}

impl BypassCheck {
    pub fn should_bypass(&self, method: &str, headers: &[(String, String)]) -> (r: bool)
        ensures
            r == spec_should_bypass(
                self.bypass_headers@,
                self.cacheable_methods@,
                method@,
                text_pairs_view(headers@),
            ),
    {
        if !any_ignoring_case(&self.cacheable_methods, method) {
            return true;
        }
        let mut j: usize = 0;
        while j < headers.len()
            invariant
                j <= headers@.len(),
                forall|k: int|
                    0 <= k < j ==> !(listed_ignoring_case(
                        self.bypass_headers@,
                        #[trigger] headers@[k].0@,
                    ) && headers@[k].1@.len() > 0),
            decreases headers@.len() - j,
        {
            let (name, val) = &headers[j];
            if any_ignoring_case(&self.bypass_headers, name.as_str()) && !val.as_str().is_empty() {
                assert(text_pairs_view(headers@)[j as int] == (name@, val@));
                assert(listed_ignoring_case(self.bypass_headers@, text_pairs_view(headers@)[j as int].0));
                return true;
            }
            j += 1;
        }
        assert forall|k: int| 0 <= k < headers@.len() implies !(listed_ignoring_case(
            self.bypass_headers@,
            #[trigger] text_pairs_view(headers@)[k].0,
        ) && text_pairs_view(headers@)[k].1.len() > 0) by {
            assert(text_pairs_view(headers@)[k] == (headers@[k].0@, headers@[k].1@));
        }
        false
    }
}

// ---------------------------------------------------------------------------
// MemoryCache — LRU with size tracking
// ---------------------------------------------------------------------------

/// What the memory cache keeps track of for an entry.
pub struct EntryView {
    pub key: Seq<char>,
    pub status: u16,
    pub headers: Seq<(Seq<char>, Seq<char>)>,
    pub body: Seq<u8>,
    pub size: usize,
}

pub open spec fn entry_view(e: CacheEntry) -> EntryView {
    EntryView {
        key: e.key.key@,
        status: e.status,
        headers: e.headers@.map_values(|h: (String, String)| (h.0@, h.1@)),
        body: e.body@,
        size: e.size,
    }
}

pub type EntrySeq = Seq<(Seq<char>, EntryView)>;

/// The entries of an LRU cache of responses, most recently used first.
pub uninterp spec fn entry_lru_entries(c: lru::LruCache<String, CacheEntry>) -> EntrySeq;

/// The number of entries an LRU cache of responses was made for.
pub uninterp spec fn entry_lru_capacity(c: lru::LruCache<String, CacheEntry>) -> nat;

/// `LruCache::new`. Trusted: empty, with the given capacity.
#[verifier::external_body]
fn entry_lru_new(cap: usize) -> (r: lru::LruCache<String, CacheEntry>)
    requires
        cap > 0,
    ensures
        entry_lru_entries(r) == Seq::<(Seq<char>, EntryView)>::empty(),
        entry_lru_capacity(r) == cap,
{
    lru::LruCache::new(std::num::NonZeroUsize::new(cap).unwrap())
}

/// `LruCache::get`, the entry cloned. Trusted (the crate's `get`): a found
/// entry moves to the front and is returned; otherwise nothing changes. The
/// clone's time of creation and lifetime are not stated.
#[verifier::external_body]
fn entry_lru_get(c: &mut lru::LruCache<String, CacheEntry>, k: &str) -> (r: Option<CacheEntry>)
    ensures
        entry_lru_capacity(*final(c)) == entry_lru_capacity(*old(c)),
        match lru_pos(entry_lru_entries(*old(c)), k@) {
            Some(i) => (r matches Some(e) && entry_view(e) == entry_lru_entries(*old(c))[i].1)
                && entry_lru_entries(*final(c)) == seq![entry_lru_entries(*old(c))[i]]
                + entry_lru_entries(*old(c)).remove(i),
            None => r is None && entry_lru_entries(*final(c)) == entry_lru_entries(*old(c)),
        },
{
    c.get(k).cloned()
}

/// `LruCache::put`. Trusted (the crate's `capturing_put`): a known key gets
/// the new entry and moves to the front; a new key goes to the front, the
/// least recently used entry leaving first when the cache is full.
#[verifier::external_body]
fn entry_lru_put(c: &mut lru::LruCache<String, CacheEntry>, k: String, e: CacheEntry)
    ensures
        entry_lru_capacity(*final(c)) == entry_lru_capacity(*old(c)),
        entry_lru_entries(*final(c)) == lru_after_put(
            entry_lru_entries(*old(c)),
            entry_lru_capacity(*old(c)),
            k@,
            entry_view(e),
        ),
{
    c.put(k, e);
}

/// `LruCache::pop_lru`, the evicted entry's size. Trusted: the least
/// recently used entry (the last) leaves.
#[verifier::external_body]
fn entry_lru_pop_lru(c: &mut lru::LruCache<String, CacheEntry>) -> (r: Option<usize>)
    ensures
        entry_lru_capacity(*final(c)) == entry_lru_capacity(*old(c)),
        entry_lru_entries(*old(c)).len() == 0 ==> r is None && entry_lru_entries(*final(c))
            == entry_lru_entries(*old(c)),
        entry_lru_entries(*old(c)).len() > 0 ==> r == Some(entry_lru_entries(*old(c)).last().1.size)
            && entry_lru_entries(*final(c)) == entry_lru_entries(*old(c)).drop_last(),
{
    c.pop_lru().map(|(_, e)| e.size)
}

/// `LruCache::peek`, the entry's size. Trusted: nothing moves.
#[verifier::external_body]
fn entry_lru_peek_size(c: &lru::LruCache<String, CacheEntry>, k: &str) -> (r: Option<usize>)
    ensures
        match lru_pos(entry_lru_entries(*c), k@) {
            Some(i) => r == Some(entry_lru_entries(*c)[i].1.size),
            None => r is None,
        },
{
    c.peek(k).map(|e| e.size)
}

/// `LruCache::pop`, the removed entry's size. Trusted: the entry for the
/// key leaves.
#[verifier::external_body]
fn entry_lru_pop(c: &mut lru::LruCache<String, CacheEntry>, k: &str) -> (r: Option<usize>)
    ensures
        entry_lru_capacity(*final(c)) == entry_lru_capacity(*old(c)),
        match lru_pos(entry_lru_entries(*old(c)), k@) {
            Some(i) => r == Some(entry_lru_entries(*old(c))[i].1.size) && entry_lru_entries(*final(c))
                == entry_lru_entries(*old(c)).remove(i),
            None => r is None && entry_lru_entries(*final(c)) == entry_lru_entries(*old(c)),
        },
{
    c.pop(k).map(|e| e.size)
}

/// `LruCache::len`.
#[verifier::external_body]
fn entry_lru_len(c: &lru::LruCache<String, CacheEntry>) -> (r: usize)
    ensures
        r == entry_lru_entries(*c).len(),
{
    c.len()
}

/// `LruCache::cap`. Trusted: the capacity it was made with.
#[verifier::external_body]
fn entry_lru_cap(c: &lru::LruCache<String, CacheEntry>) -> (r: usize)
    ensures
        r == entry_lru_capacity(*c),
{
    c.cap().get()
}

/// The keys of `LruCache::iter`, most recently used first.
#[verifier::external_body]
fn entry_lru_keys(c: &lru::LruCache<String, CacheEntry>) -> (r: Vec<String>)
    ensures
        r@.map_values(|k: String| k@) == entry_lru_entries(*c).map_values(|e: (Seq<char>, EntryView)| e.0),
{
    c.iter().map(|(k, _)| k.clone()).collect()
}

pub open spec fn keys_distinct(es: EntrySeq) -> bool {
    forall|i: int, j: int| 0 <= i < j < es.len() ==> es[i].0 != es[j].0
}

/// The bytes the entries hold: the sum of their sizes.
pub open spec fn total_size(es: EntrySeq) -> nat
    decreases es.len(),
{
    if es.len() == 0 {
        0
    } else {
        total_size(es.drop_last()) + es.last().1.size as nat
    }
}

proof fn lemma_total_push(s: EntrySeq, x: (Seq<char>, EntryView))
    ensures
        total_size(s.push(x)) == total_size(s) + x.1.size,
{
    assert(s.push(x).drop_last() =~= s);
}

proof fn lemma_total_prepend(x: (Seq<char>, EntryView), s: EntrySeq)
    ensures
        total_size(seq![x] + s) == x.1.size + total_size(s),
    decreases s.len(),
{
    if s.len() == 0 {
        assert(seq![x] + s =~= seq![x]);
        assert(seq![x].drop_last() =~= Seq::<(Seq<char>, EntryView)>::empty());
        assert(seq![x].last() == x);
        assert(total_size(seq![x].drop_last()) == 0);
        assert(total_size(s) == 0);
    } else {
        lemma_total_prepend(x, s.drop_last());
        assert((seq![x] + s).drop_last() =~= seq![x] + s.drop_last());
        assert((seq![x] + s).last() == s.last());
        assert(total_size(seq![x] + s) == total_size(seq![x] + s.drop_last()) + s.last().1.size);
        assert(total_size(s) == total_size(s.drop_last()) + s.last().1.size);
    }
}

proof fn lemma_total_remove(es: EntrySeq, i: int)
    requires
        0 <= i < es.len(),
    ensures
        total_size(es.remove(i)) + es[i].1.size == total_size(es),
    decreases es.len(),
{
    if i == es.len() - 1 {
        assert(es.remove(i) =~= es.drop_last());
    } else {
        lemma_total_remove(es.drop_last(), i);
        assert(es.remove(i) =~= es.drop_last().remove(i).push(es.last()));
        lemma_total_push(es.drop_last().remove(i), es.last());
    }
}

pub open spec fn sat_sub(a: usize, b: usize) -> usize {
    if a >= b {
        (a - b) as usize
    } else {
        0
    }
}

/// Evicting least recently used entries while the new entry does not fit:
/// the entries and the byte count that remain.
pub open spec fn evict(es: EntrySeq, cur: usize, size: usize, max: usize) -> (EntrySeq, usize)
    decreases es.len(),
{
    if cur + size > max && es.len() > 0 {
        evict(es.drop_last(), sat_sub(cur, es.last().1.size), size, max)
    } else {
        (es, cur)
    }
}

/// The entries without a key prefix, and the count of the others.
pub open spec fn kept(es: EntrySeq, prefix: Seq<char>) -> EntrySeq
    decreases es.len(),
{
    if es.len() == 0 {
        es
    } else if crate::compression::starts_with(es.last().0, prefix) {
        kept(es.drop_last(), prefix)
    } else {
        kept(es.drop_last(), prefix).push(es.last())
    }
}

/// The byte count after taking out the entries with a key prefix, in order.
pub open spec fn purged_bytes(es: EntrySeq, cur: usize, prefix: Seq<char>) -> usize
    decreases es.len(),
{
    if es.len() == 0 {
        cur
    } else if crate::compression::starts_with(es.last().0, prefix) {
        sat_sub(purged_bytes(es.drop_last(), cur, prefix), es.last().1.size)
    } else {
        purged_bytes(es.drop_last(), cur, prefix)
    }
}

proof fn lemma_distinct_drop_last(es: EntrySeq)
    requires
        keys_distinct(es),
        es.len() > 0,
    ensures
        keys_distinct(es.drop_last()),
{
}

proof fn lemma_distinct_remove(es: EntrySeq, i: int)
    requires
        keys_distinct(es),
        0 <= i < es.len(),
    ensures
        keys_distinct(es.remove(i)),
        forall|j: int| 0 <= j < es.remove(i).len() ==> es.remove(i)[j].0 != es[i].0,
{
    let r = es.remove(i);
    assert forall|a: int| 0 <= a < r.len() implies r[a] == if a < i { es[a] } else { es[a + 1] } by {}
}

proof fn lemma_lru_pos_found(es: EntrySeq, k: Seq<char>)
    ensures
        lru_pos(es, k) matches Some(i) ==> 0 <= i < es.len() && es[i].0 == k,
        lru_pos(es, k) is None ==> forall|j: int| 0 <= j < es.len() ==> es[j].0 != k,
    decreases es.len(),
{
    if es.len() > 0 {
        lemma_lru_pos_found(es.drop_first(), k);
        assert forall|j: int| 1 <= j < es.len() implies es[j] == es.drop_first()[j - 1] by {}
    }
}

proof fn lemma_put_distinct(es: EntrySeq, cap: nat, k: Seq<char>, v: EntryView)
    requires
        keys_distinct(es),
        cap > 0,
    ensures
        keys_distinct(lru_after_put(es, cap, k, v)),
{
    lemma_lru_pos_found(es, k);
    match lru_pos(es, k) {
        Some(i) => {
            lemma_distinct_remove(es, i);
            let r = seq![(k, v)] + es.remove(i);
            assert forall|a: int, b: int| 0 <= a < b < r.len() implies r[a].0 != r[b].0 by {
                if a == 0 {
                    assert(r[b] == es.remove(i)[b - 1]);
                } else {
                    assert(r[a] == es.remove(i)[a - 1]);
                    assert(r[b] == es.remove(i)[b - 1]);
                }
            }
        },
        None => {
            let base = if es.len() == cap { es.drop_last() } else { es };
            assert(base.len() <= es.len());
            assert forall|j: int| 0 <= j < base.len() implies base[j] == es[j] by {}
            let r = seq![(k, v)] + base;
            assert forall|a: int, b: int| 0 <= a < b < r.len() implies r[a].0 != r[b].0 by {
                assert(r[b] == base[b - 1]);
                assert(base[b - 1] == es[b - 1]);
                if a == 0 {
                    assert(r[a].0 == k);
                } else {
                    assert(r[a] == base[a - 1]);
                    assert(base[a - 1] == es[a - 1]);
                }
            }
        },
    }
}

proof fn lemma_evict_shrinks(es: EntrySeq, cur: usize, size: usize, max: usize)
    requires
        keys_distinct(es),
    ensures
        keys_distinct(evict(es, cur, size, max).0),
        evict(es, cur, size, max).1 <= cur,
    decreases es.len(),
{
    if cur + size > max && es.len() > 0 {
        lemma_evict_shrinks(es.drop_last(), sat_sub(cur, es.last().1.size), size, max);
    }
}

/// The statistics of a memory cache.
pub open spec fn counts_insert(cs: Seq<(Seq<char>, usize)>, k: Seq<char>, v: usize) -> Seq<(Seq<char>, usize)> {
    crate::discovery::named_insert(cs, k, v)
}

/// What offering an entry does to a cache: the use of its key is counted;
/// below `min_uses` nothing else changes; otherwise least recently used
/// entries are evicted until it fits in the byte budget, one more leaves when
/// the key is new and the cache is full, and it is stored (`r` says whether).
/// The byte count is always the sum of the sizes held.
pub open spec fn put_effect(c0: MemoryCache, c1: MemoryCache, entry: CacheEntry, r: bool) -> bool {
    &&& c1.wf()
    &&& c1.spec_capacity() == c0.spec_capacity()
    &&& c1.spec_max_bytes() == c0.spec_max_bytes()
    &&& c1.spec_min_uses() == c0.spec_min_uses()
    &&& ({
        let k = entry.key.key@;
        let c = crate::discovery::counter_of(c0.spec_counts(), k) + 1;
        &&& c1.spec_counts() == counts_insert(c0.spec_counts(), k, c as usize)
        &&& if c < c0.spec_min_uses() {
            !r && c1.spec_entries() == c0.spec_entries()
                && c1.spec_current_bytes() == c0.spec_current_bytes()
        } else {
            let (es1, cur1) = evict(
                c0.spec_entries(),
                c0.spec_current_bytes(),
                entry.size,
                c0.spec_max_bytes(),
            );
            let es2 = match lru_pos(es1, k) {
                Some(_) => es1,
                None => if es1.len() == c0.spec_capacity() {
                    es1.drop_last()
                } else {
                    es1
                },
            };
            r && c1.spec_entries() == lru_after_put(es2, c0.spec_capacity(), k, entry_view(entry))
                && c1.spec_current_bytes() == total_size(c1.spec_entries())
        }
    })
}

/// A response cache held in memory: at most a number of entries and (as
/// far as its count of bytes goes) of bytes, least recently used first out.
/// A key is stored only once it has been offered `min_uses` times.
pub struct MemoryCache {
    lru: lru::LruCache<String, CacheEntry>,
    current_bytes: usize,
    max_bytes: usize,
    min_uses: usize,
    use_counts: Vec<(String, usize)>,
}

impl MemoryCache {
    pub closed spec fn spec_entries(&self) -> EntrySeq {
        entry_lru_entries(self.lru)
    }

    pub closed spec fn spec_capacity(&self) -> nat {
        entry_lru_capacity(self.lru)
    }

    pub closed spec fn spec_current_bytes(&self) -> usize {
        self.current_bytes
    }

    pub closed spec fn spec_max_bytes(&self) -> usize {
        self.max_bytes
    }

    pub closed spec fn spec_min_uses(&self) -> usize {
        self.min_uses
    }

    pub closed spec fn spec_counts(&self) -> Seq<(Seq<char>, usize)> {
        self.use_counts@.map_values(|c: (String, usize)| (c.0@, c.1))
    }

    /// No key is stored twice, no more entries are held than the capacity,
    /// and the byte count is the sum of the sizes held.
    pub closed spec fn wf(&self) -> bool {
        &&& keys_distinct(self.spec_entries())
        &&& self.spec_capacity() > 0
        &&& self.spec_entries().len() <= self.spec_capacity()
        &&& self.spec_current_bytes() == total_size(self.spec_entries())
    }

    /// The byte count is the sum of the sizes held.
    pub proof fn lemma_bytes_are_sizes(&self)
        requires
            self.wf(),
        ensures
            self.spec_current_bytes() == total_size(self.spec_entries()),
            self.spec_entries().len() <= self.spec_capacity(),
    {
    }

    pub fn new(max_entries: usize, max_bytes: usize) -> (r: Self)
        requires
            max_entries > 0,
        ensures
            r.wf(),
            r.spec_entries().len() == 0,
            r.spec_capacity() == max_entries,
            r.spec_current_bytes() == 0,
            r.spec_max_bytes() == max_bytes,
            r.spec_min_uses() == 1,
            r.spec_counts().len() == 0,
    {
        let r = MemoryCache {
            lru: entry_lru_new(max_entries),
            current_bytes: 0,
            max_bytes,
            min_uses: 1,
            use_counts: Vec::new(),
        };
        assert(r.spec_counts() =~= Seq::<(Seq<char>, usize)>::empty());
        r
    }

    pub fn with_min_uses(self, n: usize) -> (r: Self)
        ensures
            r.spec_min_uses() == n,
            r.spec_entries() == self.spec_entries(),
            r.spec_capacity() == self.spec_capacity(),
            r.spec_current_bytes() == self.spec_current_bytes(),
            r.spec_max_bytes() == self.spec_max_bytes(),
            r.spec_counts() == self.spec_counts(),
            self.wf() ==> r.wf(),
    {
        MemoryCache { min_uses: n, ..self }
    }

    /// The entry for a key, which becomes the most recently used.
    pub fn get(&mut self, key: &CacheKey) -> (r: Option<CacheEntry>)
        requires
            old(self).wf(),
        ensures
            final(self).wf(),
            final(self).spec_capacity() == old(self).spec_capacity(),
            final(self).spec_current_bytes() == old(self).spec_current_bytes(),
            final(self).spec_max_bytes() == old(self).spec_max_bytes(),
            final(self).spec_min_uses() == old(self).spec_min_uses(),
            final(self).spec_counts() == old(self).spec_counts(),
            match lru_pos(old(self).spec_entries(), key.key@) {
                Some(i) => (r matches Some(e) && entry_view(e) == old(self).spec_entries()[i].1)
                    && final(self).spec_entries() == seq![old(self).spec_entries()[i]]
                    + old(self).spec_entries().remove(i),
                None => r is None && final(self).spec_entries() == old(self).spec_entries(),
            },
    {
        let r = entry_lru_get(&mut self.lru, key.key.as_str());
        proof {
            let es = old(self).spec_entries();
            lemma_lru_pos_found(es, key.key@);
            if let Some(i) = lru_pos(es, key.key@) {
                lemma_distinct_remove(es, i);
                lemma_total_remove(es, i);
                lemma_total_prepend(es[i], es.remove(i));
                let n = seq![es[i]] + es.remove(i);
                assert forall|a: int, b: int| 0 <= a < b < n.len() implies n[a].0 != n[b].0 by {
                    if a == 0 {
                        assert(n[b] == es.remove(i)[b - 1]);
                    } else {
                        assert(n[a] == es.remove(i)[a - 1]);
                        assert(n[b] == es.remove(i)[b - 1]);
                    }
                }
            }
        }
        r
    }

    fn count_use(&mut self, k: &str) -> (c: usize)
        requires
            crate::discovery::counter_of(old(self).spec_counts(), k@) < usize::MAX,
        ensures
            c == crate::discovery::counter_of(old(self).spec_counts(), k@) + 1,
            final(self).spec_counts() == counts_insert(old(self).spec_counts(), k@, c),
            final(self).lru == old(self).lru,
            final(self).current_bytes == old(self).current_bytes,
            final(self).max_bytes == old(self).max_bytes,
            final(self).min_uses == old(self).min_uses,
    {
        let ghost cs = self.spec_counts();
        proof {
            crate::discovery::lemma_name_pos(cs, k@);
        }
        let mut i: usize = 0;
        while i < self.use_counts.len()
            invariant
                i <= self.use_counts@.len(),
                cs == self.spec_counts(),
                cs.len() == self.use_counts@.len(),
                self.use_counts == old(self).use_counts,
                self.lru == old(self).lru,
                self.current_bytes == old(self).current_bytes,
                self.max_bytes == old(self).max_bytes,
                self.min_uses == old(self).min_uses,
                crate::discovery::counter_of(cs, k@) < usize::MAX,
                forall|j: int| 0 <= j < i ==> cs[j].0 != k@,
                crate::discovery::name_pos(cs, k@) matches Some(p) ==> 0 <= p < cs.len() && cs[p].0 == k@
                    && forall|j: int| 0 <= j < p ==> cs[j].0 != k@,
                crate::discovery::name_pos(cs, k@) is None ==> forall|j: int| 0 <= j < cs.len() ==> cs[j].0 != k@,
            decreases self.use_counts@.len() - i,
        {
            assert(cs[i as int] == (self.use_counts@[i as int].0@, self.use_counts@[i as int].1));
            if crate::text::str_eq(self.use_counts[i].0.as_str(), k) {
                let c = self.use_counts[i].1 + 1;
                self.use_counts.set(i, (crate::text::to_owned(k), c));
                assert(self.spec_counts() =~= cs.update(i as int, (k@, c)));
                return c;
            }
            i += 1;
        }
        self.use_counts.push((crate::text::to_owned(k), 1));
        assert(self.spec_counts() =~= cs.push((k@, 1)));
        1
    }

    /// Offers an entry: counts the use of its key; once the key has been
    /// offered `min_uses` times, evicts least recently used entries while
    /// the entry does not fit in the byte budget, and stores it (replacing
    /// an entry for the same key). Answers whether it was stored.
    pub fn put(&mut self, entry: CacheEntry) -> (r: bool)
        requires
            old(self).wf(),
            crate::discovery::counter_of(old(self).spec_counts(), entry.key.key@) < usize::MAX,
            old(self).spec_current_bytes() + entry.size <= usize::MAX,
        ensures
            put_effect(*old(self), *final(self), entry, r),
            r && entry.size <= old(self).spec_max_bytes() ==> final(self).spec_current_bytes()
                <= final(self).spec_max_bytes(),
            old(self).spec_current_bytes() <= old(self).spec_max_bytes() && entry.size
                <= old(self).spec_max_bytes() ==> final(self).spec_current_bytes() <= final(self).spec_max_bytes(),
    {
        let k = crate::text::to_owned(entry.key.key.as_str());
        let size = entry.size;
        let count = self.count_use(k.as_str());
        if count < self.min_uses {
            return false;
        }
        let ghost es0 = self.spec_entries();
        let ghost cur0 = self.current_bytes;
        let ghost cap = entry_lru_capacity(self.lru);
        proof {
            lemma_evict_shrinks(es0, cur0, size, self.max_bytes);
        }
        while self.current_bytes + size > self.max_bytes && entry_lru_len(&self.lru) > 0
            invariant
                evict(es0, cur0, size, self.max_bytes) == evict(self.spec_entries(), self.current_bytes, size, self.max_bytes),
                keys_distinct(self.spec_entries()),
                self.current_bytes <= cur0,
                cur0 + size <= usize::MAX,
                self.current_bytes == total_size(self.spec_entries()),
                self.spec_entries().len() <= cap,
                self.max_bytes == old(self).max_bytes,
                self.min_uses == old(self).min_uses,
                entry_lru_capacity(self.lru) == cap,
                cap == entry_lru_capacity(old(self).lru),
                cap > 0,
                self.spec_counts() == counts_insert(old(self).spec_counts(), entry.key.key@, count),
            decreases self.spec_entries().len(),
        {
            let ghost before = self.spec_entries();
            let evicted = entry_lru_pop_lru(&mut self.lru);
            if let Some(sz) = evicted {
                self.current_bytes = if self.current_bytes >= sz { self.current_bytes - sz } else { 0 };
            }
            proof {
                lemma_distinct_drop_last(before);
            }
        }
        let ghost es1 = self.spec_entries();
        let ghost cur1 = self.current_bytes;
        assert(evict(es1, cur1, size, self.max_bytes) == (es1, cur1));
        assert(cur1 + size <= self.max_bytes || es1.len() == 0);
        proof {
            lemma_lru_pos_found(es1, entry.key.key@);
        }
        match entry_lru_peek_size(&self.lru, k.as_str()) {
            Some(old_size) => {
                proof {
                    let i = lru_pos(es1, entry.key.key@).unwrap();
                    lemma_total_remove(es1, i);
                }
                self.current_bytes = self.current_bytes - old_size;
            },
            None => {
                if entry_lru_len(&self.lru) == entry_lru_cap(&self.lru) {
                    let evicted = entry_lru_pop_lru(&mut self.lru);
                    if let Some(sz) = evicted {
                        self.current_bytes = self.current_bytes - sz;
                    }
                    proof {
                        lemma_distinct_drop_last(es1);
                        assert(forall|j: int| 0 <= j < es1.drop_last().len() ==> es1.drop_last()[j] == es1[j]);
                    }
                }
            },
        }
        let ghost es2 = self.spec_entries();
        proof {
            lemma_lru_pos_found(es2, entry.key.key@);
            assert(lru_pos(es1, entry.key.key@) is None ==> lru_pos(es2, entry.key.key@) is None);
        }
        self.current_bytes = self.current_bytes + size;
        let ghost ev = entry_view(entry);
        entry_lru_put(&mut self.lru, k, entry);
        proof {
            lemma_put_distinct(es2, cap, entry.key.key@, ev);
            match lru_pos(es2, entry.key.key@) {
                Some(i) => {
                    lemma_total_prepend((entry.key.key@, ev), es2.remove(i));
                },
                None => {
                    lemma_total_prepend((entry.key.key@, ev), es2);
                },
            }
        }
        true
    }

    /// Removes the entry for a key, if any.
    pub fn remove(&mut self, key: &CacheKey)
        requires
            old(self).wf(),
        ensures
            final(self).wf(),
            final(self).spec_capacity() == old(self).spec_capacity(),
            final(self).spec_max_bytes() == old(self).spec_max_bytes(),
            final(self).spec_min_uses() == old(self).spec_min_uses(),
            final(self).spec_counts() == old(self).spec_counts(),
            match lru_pos(old(self).spec_entries(), key.key@) {
                Some(i) => final(self).spec_entries() == old(self).spec_entries().remove(i)
                    && final(self).spec_current_bytes() == sat_sub(
                    old(self).spec_current_bytes(),
                    old(self).spec_entries()[i].1.size,
                ),
                None => final(self).spec_entries() == old(self).spec_entries()
                    && final(self).spec_current_bytes() == old(self).spec_current_bytes(),
            },
    {
        let ghost es = self.spec_entries();
        if let Some(sz) = entry_lru_pop(&mut self.lru, key.key.as_str()) {
            self.current_bytes = if self.current_bytes >= sz { self.current_bytes - sz } else { 0 };
        }
        proof {
            lemma_lru_pos_found(es, key.key@);
            if let Some(i) = lru_pos(es, key.key@) {
                lemma_distinct_remove(es, i);
                lemma_total_remove(es, i);
            }
        }
    }

    /// Removes every entry whose key starts with `prefix`; answers how many.
    pub fn purge_prefix(&mut self, prefix: &str) -> (r: usize)
        requires
            old(self).wf(),
        ensures
            final(self).wf(),
            final(self).spec_capacity() == old(self).spec_capacity(),
            final(self).spec_max_bytes() == old(self).spec_max_bytes(),
            final(self).spec_min_uses() == old(self).spec_min_uses(),
            final(self).spec_counts() == old(self).spec_counts(),
            final(self).spec_entries() == kept(old(self).spec_entries(), prefix@),
            final(self).spec_current_bytes() == purged_bytes(old(self).spec_entries(), old(self).spec_current_bytes(), prefix@),
            r == old(self).spec_entries().len() - kept(old(self).spec_entries(), prefix@).len(),
    {
        let ghost es = self.spec_entries();
        let ghost cur0 = self.current_bytes;
        let keys = entry_lru_keys(&self.lru);
        let ghost ks = keys@.map_values(|k: String| k@);
        assert(ks.len() == es.len());
        let mut count: usize = 0;
        let mut i: usize = 0;
        assert(es.take(0) =~= Seq::<(Seq<char>, EntryView)>::empty());
        assert(kept(es.take(0), prefix@) + es.skip(0) =~= es);
        while i < keys.len()
            invariant
                i <= keys@.len() == es.len(),
                ks == keys@.map_values(|k: String| k@),
                ks == es.map_values(|e: (Seq<char>, EntryView)| e.0),
                keys_distinct(es),
                self.spec_entries() == kept(es.take(i as int), prefix@) + es.skip(i as int),
                self.current_bytes == purged_bytes(es.take(i as int), cur0, prefix@),
                self.current_bytes == total_size(self.spec_entries()),
                self.spec_entries().len() <= es.len(),
                es.len() <= entry_lru_capacity(self.lru),
                count == i - kept(es.take(i as int), prefix@).len(),
                kept(es.take(i as int), prefix@).len() <= i,
                self.max_bytes == old(self).max_bytes,
                self.min_uses == old(self).min_uses,
                self.use_counts == old(self).use_counts,
                entry_lru_capacity(self.lru) == entry_lru_capacity(old(self).lru),
            decreases keys@.len() - i,
        {
            let ghost a = kept(es.take(i as int), prefix@);
            let ghost b = es.skip(i as int);
            proof {
                assert(es.take(i + 1).drop_last() =~= es.take(i as int));
                assert(es.take(i + 1).last() == es[i as int]);
                assert(ks[i as int] == es[i as int].0);
                assert(b[0] == es[i as int]);
                assert(b.drop_first() =~= es.skip(i + 1));
                lemma_kept_subset(es.take(i as int), prefix@);
            }
            let is_prefixed = crate::text::str_starts_with(keys[i].as_str(), prefix);
            if is_prefixed {
                proof {
                    lemma_pos_after_kept(es, i as int, prefix@);
                }
                let ghost cur_es = self.spec_entries();
                let popped = entry_lru_pop(&mut self.lru, keys[i].as_str());
                proof {
                    assert((a + b).remove(a.len() as int) =~= a + es.skip(i + 1));
                    lemma_total_remove(cur_es, a.len() as int);
                }
                if let Some(sz) = popped {
                    self.current_bytes = if self.current_bytes >= sz { self.current_bytes - sz } else { 0 };
                }
                count = count + 1;
            } else {
                proof {
                    assert(a + b =~= a.push(es[i as int]) + es.skip(i + 1));
                }
            }
            i += 1;
        }
        proof {
            assert(es.take(es.len() as int) =~= es);
            assert(es.skip(es.len() as int) =~= Seq::<(Seq<char>, EntryView)>::empty());
            assert(self.spec_entries() =~= kept(es, prefix@));
            lemma_kept_distinct(es, prefix@);
        }
        count
    }

    pub fn current_entries(&self) -> (r: usize)
        ensures
            r == self.spec_entries().len(),
    {
        entry_lru_len(&self.lru)
    }

    /// How many times a key has been offered.
    pub fn uses_of(&self, key: &str) -> (r: usize)
        ensures
            r == crate::discovery::counter_of(self.spec_counts(), key@),
    {
        let ghost cs = self.spec_counts();
        proof {
            crate::discovery::lemma_name_pos(cs, key@);
        }
        let mut i: usize = 0;
        while i < self.use_counts.len()
            invariant
                i <= self.use_counts@.len(),
                cs == self.spec_counts(),
                cs.len() == self.use_counts@.len(),
                forall|j: int| 0 <= j < i ==> cs[j].0 != key@,
                crate::discovery::name_pos(cs, key@) matches Some(p) ==> 0 <= p < cs.len() && cs[p].0
                    == key@ && forall|j: int| 0 <= j < p ==> cs[j].0 != key@,
                crate::discovery::name_pos(cs, key@) is None ==> forall|j: int|
                    0 <= j < cs.len() ==> cs[j].0 != key@,
            decreases self.use_counts@.len() - i,
        {
            assert(cs[i as int] == (self.use_counts@[i as int].0@, self.use_counts@[i as int].1));
            if crate::text::str_eq(self.use_counts[i].0.as_str(), key) {
                return self.use_counts[i].1;
            }
            i += 1;
        }
        0
    }

    pub fn current_bytes(&self) -> (r: usize)
        ensures
            r == self.spec_current_bytes(),
    {
        self.current_bytes
    }

    pub fn stats(&self) -> (r: CacheStats)
        ensures
            r.entries == self.spec_entries().len(),
            r.size_bytes == self.spec_current_bytes(),
    {
        CacheStats { entries: entry_lru_len(&self.lru), size_bytes: self.current_bytes }
    }
}

/// The kept entries are some of the entries, in order.
proof fn lemma_kept_subset(es: EntrySeq, prefix: Seq<char>)
    ensures
        kept(es, prefix).len() <= es.len(),
        forall|j: int| 0 <= j < kept(es, prefix).len() ==> exists|m: int| 0 <= m < es.len() && #[trigger] kept(es, prefix)[j] == es[m],
    decreases es.len(),
{
    if es.len() > 0 {
        let d = es.drop_last();
        lemma_kept_subset(d, prefix);
        assert forall|j: int| 0 <= j < kept(es, prefix).len() implies exists|m: int| 0 <= m < es.len() && #[trigger] kept(es, prefix)[j] == es[m] by {
            if j < kept(d, prefix).len() {
                let m = choose|m: int| 0 <= m < d.len() && kept(d, prefix)[j] == d[m];
                assert(es[m] == d[m]);
                assert(kept(es, prefix)[j] == kept(d, prefix)[j]);
            } else {
                assert(kept(es, prefix)[j] == es.last());
                assert(es[es.len() - 1] == es.last());
            }
        }
    }
}

/// In `kept(es[..i]) + es[i..]`, the key of `es[i]` is first found right
/// after the kept part.
proof fn lemma_pos_after_kept(es: EntrySeq, i: int, prefix: Seq<char>)
    requires
        keys_distinct(es),
        0 <= i < es.len(),
    ensures
        lru_pos(kept(es.take(i), prefix) + es.skip(i), es[i].0) == Some(kept(es.take(i), prefix).len() as int),
{
    let a = kept(es.take(i), prefix);
    lemma_kept_subset(es.take(i), prefix);
    assert forall|j: int| 0 <= j < a.len() implies a[j].0 != es[i].0 by {
        let m = choose|m: int| 0 <= m < es.take(i).len() && a[j] == es.take(i)[m];
        assert(es.take(i)[m] == es[m]);
    }
    lemma_pos_skips(a, es.skip(i), es[i].0);
}

proof fn lemma_pos_skips(a: EntrySeq, b: EntrySeq, k: Seq<char>)
    requires
        forall|j: int| 0 <= j < a.len() ==> a[j].0 != k,
        b.len() > 0,
        b[0].0 == k,
    ensures
        lru_pos(a + b, k) == Some(a.len() as int),
    decreases a.len(),
{
    if a.len() == 0 {
        assert(a + b =~= b);
    } else {
        let rest = a.drop_first();
        assert forall|j: int| 0 <= j < rest.len() implies rest[j].0 != k by {
            assert(rest[j] == a[j + 1]);
        }
        lemma_pos_skips(rest, b, k);
        assert((a + b).drop_first() =~= rest + b);
        assert((a + b)[0] == a[0]);
    }
}

proof fn lemma_kept_distinct(es: EntrySeq, prefix: Seq<char>)
    requires
        keys_distinct(es),
    ensures
        keys_distinct(kept(es, prefix)),
    decreases es.len(),
{
    if es.len() > 0 {
        let d = es.drop_last();
        lemma_kept_distinct(d, prefix);
        lemma_kept_subset(d, prefix);
        let k = kept(es, prefix);
        if !crate::compression::starts_with(es.last().0, prefix) {
            assert forall|a: int, b: int| 0 <= a < b < k.len() implies k[a].0 != k[b].0 by {
                if b == k.len() - 1 {
                    let m = choose|m: int| 0 <= m < d.len() && kept(d, prefix)[a] == d[m];
                    assert(d[m] == es[m]);
                    assert(k[b] == es[es.len() - 1]);
                }
            }
        }
    }
}

/// Eviction makes room: afterwards the new entry fits in the byte budget,
/// or nothing is left to evict.
pub proof fn law_eviction_makes_room(es: EntrySeq, cur: usize, size: usize, max: usize)
    ensures
        evict(es, cur, size, max).1 + size <= max || evict(es, cur, size, max).0.len() == 0,
    decreases es.len(),
{
    if cur + size > max && es.len() > 0 {
        law_eviction_makes_room(es.drop_last(), sat_sub(cur, es.last().1.size), size, max);
    }
}

} // verus!
