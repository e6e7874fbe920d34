//! Browser caching: ETags (weak from size and time, strong from a SHA-256
//! of the content, remembered in an LRU cache), conditional requests,
//! `Cache-Control` rules by extension and `Expires` headers.

use sha2::Digest;
use vstd::prelude::*;
use crate::access_log::{LOG_TIME_MAX, LOG_TIME_MIN};
use crate::cgi::{chars_of_bytes, header_value_text, visible_ascii};
use crate::compression::{contains_text, str_contains};
use crate::config::{extension_of, path_extension};
use crate::net::{be_bytes, push_be};
use crate::text::{digit_char, push_str, str_eq, str_starts_with};

verus! {

#[derive(Debug, Clone, Copy, PartialEq, Eq, Structural)]
pub enum EtagMode {
    Weak,
    Strong,
    Disabled,
}

impl Default for EtagMode {
    fn default() -> (r: Self)
        ensures
            r == EtagMode::Weak,
    {
        EtagMode::Weak
    }
}

#[derive(Debug, Clone)]
pub struct CacheConfig {
    pub etag_mode: EtagMode,
    /// (extension pattern, header value), e.g. ("*.js", "max-age=31536000")
    pub cache_control_rules: Vec<(String, String)>,
    /// Add an `Expires` header 30 days ahead.
    pub add_expires_header: bool,
}

impl Default for CacheConfig {
    fn default() -> (r: Self)
        ensures
            r.etag_mode == EtagMode::Weak,
            r.cache_control_rules@.len() == 0,
            !r.add_expires_header,
    {
        CacheConfig { etag_mode: EtagMode::Weak, cache_control_rules: Vec::new(), add_expires_header: false }
    }
}

// ---------------------------------------------------------------------------
// Outside calls
// ---------------------------------------------------------------------------

/// `chrono` formatting of a second as an HTTP date,
/// `Tue, 14 Nov 2023 22:13:20 GMT`.
pub uninterp spec fn http_date_text(secs: int) -> Seq<char>;

/// The second of `DateTime::parse_from_rfc2822` of a text, or `None` where
/// chrono refuses it.
pub uninterp spec fn rfc2822_seconds(text: Seq<char>) -> Option<int>;

/// SHA-256 of a byte string.
pub uninterp spec fn sha256_of(data: Seq<u8>) -> Seq<u8>;

/// `DateTime::from_timestamp` then `format("%a, %d %b %Y %H:%M:%S GMT")`.
/// Trusted: the text is named `http_date_text` of the second; the calendar
/// is not stated.
#[verifier::external_body]
fn http_date(secs: i64) -> (r: String)
    requires
        LOG_TIME_MIN <= secs <= LOG_TIME_MAX,
    ensures
        r@ == http_date_text(secs as int),
{
    match chrono::DateTime::from_timestamp(secs, 0) {
        Some(dt) => dt.format("%a, %d %b %Y %H:%M:%S GMT").to_string(),
        None => String::new(),
    }
}

/// `DateTime::parse_from_rfc2822(text)` then `timestamp()`. Trusted: the
/// result is named `rfc2822_seconds` of the text, and a parsed date lies in
/// chrono's calendar; the grammar is not stated.
#[verifier::external_body]
fn rfc2822_parse(text: &str) -> (r: Option<i64>)
    ensures
        r matches Some(s) ==> rfc2822_seconds(text@) == Some(s as int) && LOG_TIME_MIN <= s
            <= LOG_TIME_MAX,
        r is None ==> rfc2822_seconds(text@) is None,
{
    chrono::DateTime::parse_from_rfc2822(text).map(|d| d.timestamp()).ok()
}

/// `chrono::Utc::now().timestamp()`. Trusted: only that the second lies in
/// chrono's calendar; the reading depends on the clock.
#[verifier::external_body]
fn utc_now_seconds() -> (r: i64)
    ensures
        LOG_TIME_MIN <= r <= LOG_TIME_MAX,
{
    chrono::Utc::now().timestamp()
}

/// `sha2::Sha256::digest`. Trusted: the digest is named `sha256_of` of the
/// data and has 32 bytes; the hash function is not stated.
#[verifier::external_body]
pub(crate) fn sha256(data: &[u8]) -> (r: Vec<u8>)
    ensures
        r@ == sha256_of(data@),
        r@.len() == 32,
{
    sha2::Sha256::digest(data).to_vec()
}

/// Two lower-case hexadecimal digits per byte, in order.
pub open spec fn hex_text(b: Seq<u8>) -> Seq<char>
    decreases b.len(),
{
    if b.len() == 0 {
        Seq::empty()
    } else {
        hex_text(b.drop_last()) + seq![digit_char((b.last() / 16) as int), digit_char((b.last() % 16) as int)]
    }
}

/// `hex::encode`. Trusted: two lower-case hexadecimal digits per byte, in
/// order (the crate's `BytesToHexChars` over `HEX_CHARS_LOWER`).
#[verifier::external_body]
fn hex_encode(data: &[u8]) -> (r: String)
    ensures
        r@ == hex_text(data@),
{
    hex::encode(data)
}

#[verifier::external_type_specification]
#[verifier::external_body]
#[verifier::reject_recursive_types(K)]
#[verifier::reject_recursive_types(V)]
#[verifier::reject_recursive_types(S)]
pub struct ExLruCache<K, V, S>(lru::LruCache<K, V, S>);

#[verifier::external_type_specification]
#[verifier::external_body]
pub struct ExLruHasher(lru::DefaultHasher);

/// The entries of an LRU cache of strings, most recently used first.
pub uninterp spec fn lru_entries(c: lru::LruCache<String, String>) -> Seq<(Seq<char>, Seq<char>)>;

/// The capacity an LRU cache of strings was made with.
pub uninterp spec fn lru_capacity(c: lru::LruCache<String, String>) -> nat;

/// The position of the first entry for `k`.
pub open spec fn lru_pos<V>(es: Seq<(Seq<char>, V)>, k: Seq<char>) -> Option<int>
    decreases es.len(),
{
    if es.len() == 0 {
        None
    } else if es[0].0 == k {
        Some(0)
    } else {
        match lru_pos(es.drop_first(), k) {
            Some(i) => Some(i + 1),
            None => None,
        }
    }
}

/// `LruCache::new`. Trusted: the cache starts empty with the given
/// capacity.
#[verifier::external_body]
fn lru_new(cap: usize) -> (r: lru::LruCache<String, String>)
    requires
        cap > 0,
    ensures
        lru_entries(r) == Seq::<(Seq<char>, Seq<char>)>::empty(),
        lru_capacity(r) == cap,
{
    lru::LruCache::new(std::num::NonZeroUsize::new(cap).unwrap())
}

/// `LruCache::get`, the value cloned. Trusted (the crate's `get`): a found
/// entry moves to the front and its value is returned; otherwise nothing
/// changes.
#[verifier::external_body]
fn lru_get(c: &mut lru::LruCache<String, String>, k: &str) -> (r: Option<String>)
    ensures
        lru_capacity(*final(c)) == lru_capacity(*old(c)),
        match lru_pos(lru_entries(*old(c)), k@) {
            Some(i) => (r matches Some(v) && v@ == lru_entries(*old(c))[i].1) && lru_entries(*final(c))
                == seq![lru_entries(*old(c))[i]] + lru_entries(*old(c)).remove(i),
            None => r is None && lru_entries(*final(c)) == lru_entries(*old(c)),
        },
{
    c.get(k).cloned()
}

/// `LruCache::put`. Trusted (the crate's `capturing_put` and
/// `replace_or_create_node`): a known key gets the new value and moves to
/// the front; a new key goes to the front, the least recently used entry
/// leaving first when the cache is full.
#[verifier::external_body]
fn lru_put(c: &mut lru::LruCache<String, String>, k: String, v: String)
    ensures
        lru_capacity(*final(c)) == lru_capacity(*old(c)),
        lru_entries(*final(c)) == lru_after_put(lru_entries(*old(c)), lru_capacity(*old(c)), k@, v@),
{
    c.put(k, v);
}

pub open spec fn lru_after_put<V>(
    es: Seq<(Seq<char>, V)>,
    cap: nat,
    k: Seq<char>,
    v: V,
) -> Seq<(Seq<char>, V)> {
    match lru_pos(es, k) {
        Some(i) => seq![(k, v)] + es.remove(i),
        None => seq![(k, v)] + if es.len() == cap {
            es.drop_last()
        } else {
            es
        },
    }
}

// ---------------------------------------------------------------------------
// Dates
// ---------------------------------------------------------------------------

/// An HTTP date (`Tue, 14 Nov 2023 22:13:20 GMT`) of a second since the
/// Unix epoch.
pub fn format_http_date(secs: i64) -> (r: String)
    requires
        LOG_TIME_MIN <= secs <= LOG_TIME_MAX,
    ensures
        r@ == http_date_text(secs as int),
{
    http_date(secs)
}

/// The second of an RFC 2822 date, if the text is one.
pub fn parse_http_date(date_str: &str) -> (r: Option<i64>)
    ensures
        match r {
            Some(s) => rfc2822_seconds(date_str@) == Some(s as int),
            None => rfc2822_seconds(date_str@) is None,
        },
{
    rfc2822_parse(date_str)
}

// ---------------------------------------------------------------------------
// The manager
// ---------------------------------------------------------------------------

/// The weak ETag of a file: `W/"<size>-<mtime>"`, both as the hexadecimal
/// of their eight big-endian bytes.
pub open spec fn weak_etag_text(size: u64, mtime: u64) -> Seq<char> {
    "W/\""@ + hex_text(be_bytes(size as nat, 8)) + "-"@ + hex_text(be_bytes(mtime as nat, 8)) + "\""@
}

/// The key under which a strong ETag is remembered: `<path>-<mtime>`.
pub open spec fn strong_key_text(path: Seq<char>, mtime: u64) -> Seq<char> {
    path + "-"@ + crate::text::dec_str(mtime as nat)
}

/// The strong ETag of content: its SHA-256 in hexadecimal, quoted.
pub open spec fn strong_etag_text(content: Seq<u8>) -> Seq<char> {
    "\""@ + hex_text(sha256_of(content)) + "\""@
}

/// What `generate_etag` needs next.
#[derive(Debug, PartialEq, Eq)]
pub enum EtagStep {
    /// The answer (`None`: no ETag).
    Done(Option<String>),
    /// A strong ETag that is not remembered: hash the file's content and
    /// pass it to `finish_strong_etag` with this key.
    NeedsContent { cache_key: String },
}

pub struct CachingManager {
    config: CacheConfig,
    strong_etag_cache: lru::LruCache<String, String>,
}

fn be8(v: u64) -> (r: Vec<u8>)
    ensures
        r@ == be_bytes(v as nat, 8),
{
    let mut r: Vec<u8> = Vec::new();
    push_be(&mut r, v as u128, 8);
    assert(r@ =~= be_bytes(v as nat, 8));
    r
}

impl CachingManager {
    pub closed spec fn spec_config(&self) -> CacheConfig {
        self.config
    }

    pub closed spec fn spec_etags(&self) -> Seq<(Seq<char>, Seq<char>)> {
        lru_entries(self.strong_etag_cache)
    }

    pub closed spec fn spec_etag_capacity(&self) -> nat {
        lru_capacity(self.strong_etag_cache)
    }

    /// A manager that remembers up to 1024 strong ETags.
    pub fn new(config: CacheConfig) -> (r: Self)
        ensures
            r.spec_config() == config,
            r.spec_etags().len() == 0,
            r.spec_etag_capacity() == 1024,
    {
        CachingManager { config, strong_etag_cache: lru_new(1024) }
    }

    /// The weak ETag of a size and modification second.
    pub fn weak_etag(size: u64, mtime_secs: u64) -> (r: String)
        ensures
            r@ == weak_etag_text(size, mtime_secs),
    {
        let mut s = crate::text::to_owned("W/\"");
        let a = hex_encode(be8(size).as_slice());
        push_str(&mut s, a.as_str());
        push_str(&mut s, "-");
        let b = hex_encode(be8(mtime_secs).as_slice());
        push_str(&mut s, b.as_str());
        push_str(&mut s, "\"");
        assert(s@ =~= weak_etag_text(size, mtime_secs));
        s
    }

    /// The ETag of a file from its path, size and modification second
    /// (`None` when the time is unknown): none when disabled; the weak tag;
    /// or the remembered strong tag, else a request for the content.
    pub fn generate_etag(&mut self, path: &str, size: u64, mtime_secs: Option<u64>) -> (r: EtagStep)
        ensures
            final(self).spec_config() == old(self).spec_config(),
            final(self).spec_etag_capacity() == old(self).spec_etag_capacity(),
            match (old(self).spec_config().etag_mode, mtime_secs) {
                (EtagMode::Disabled, _) => r == EtagStep::Done(None) && final(self).spec_etags() == old(self).spec_etags(),
                (_, None) => r == EtagStep::Done(None) && final(self).spec_etags() == old(self).spec_etags(),
                (EtagMode::Weak, Some(m)) => (r matches EtagStep::Done(Some(t)) && t@ == weak_etag_text(size, m))
                    && final(self).spec_etags() == old(self).spec_etags(),
                (EtagMode::Strong, Some(m)) => {
                    let key = strong_key_text(path@, m);
                    match lru_pos(old(self).spec_etags(), key) {
                        Some(i) => (r matches EtagStep::Done(Some(t)) && t@ == old(self).spec_etags()[i].1)
                            && final(self).spec_etags() == seq![old(self).spec_etags()[i]] + old(self).spec_etags().remove(i),
                        None => (r matches EtagStep::NeedsContent { cache_key: k } && k@ == key)
                            && final(self).spec_etags() == old(self).spec_etags(),
                    }
                },
            },
    {
        match self.config.etag_mode {
            EtagMode::Disabled => EtagStep::Done(None),
            EtagMode::Weak => match mtime_secs {
                Some(m) => EtagStep::Done(Some(Self::weak_etag(size, m))),
                None => EtagStep::Done(None),
            },
            EtagMode::Strong => match mtime_secs {
                Some(m) => {
                    let mut key = crate::text::to_owned(path);
                    push_str(&mut key, "-");
                    crate::text::push_dec(&mut key, m);
                    assert(key@ =~= strong_key_text(path@, m));
                    match lru_get(&mut self.strong_etag_cache, key.as_str()) {
                        Some(tag) => EtagStep::Done(Some(tag)),
                        None => EtagStep::NeedsContent { cache_key: key },
                    }
                },
                None => EtagStep::Done(None),
            },
        }
    }

    /// The strong ETag of the content, remembered under `cache_key`.
    pub fn finish_strong_etag(&mut self, cache_key: String, content: &[u8]) -> (r: String)
        ensures
            r@ == strong_etag_text(content@),
            final(self).spec_config() == old(self).spec_config(),
            final(self).spec_etag_capacity() == old(self).spec_etag_capacity(),
            final(self).spec_etags() == lru_after_put(
                old(self).spec_etags(),
                old(self).spec_etag_capacity(),
                cache_key@,
                r@,
            ),
    {
        let digest = sha256(content);
        let mut tag = crate::text::to_owned("\"");
        let h = hex_encode(digest.as_slice());
        push_str(&mut tag, h.as_str());
        push_str(&mut tag, "\"");
        assert(tag@ =~= strong_etag_text(content@));
        let stored = crate::text::to_owned(tag.as_str());
        lru_put(&mut self.strong_etag_cache, cache_key, stored);
        tag
    }

    /// Whether a conditional request may be answered 304 Not Modified.
    pub fn check_conditional(
        &self,
        if_none_match: Option<&[u8]>,
        if_modified_since: Option<&[u8]>,
        etag: Option<&str>,
        mtime_secs: Option<i64>,
    ) -> (r: bool)
        ensures
            r == not_modified(
                match if_none_match {
                    Some(b) => Some(b@),
                    None => None,
                },
                match if_modified_since {
                    Some(b) => Some(b@),
                    None => None,
                },
                match etag {
                    Some(t) => Some(t@),
                    None => None,
                },
                mtime_secs,
            ),
    {
        if let Some(inm) = if_none_match {
            if let Some(inm_str) = header_value_text(inm) {
                if let Some(tag) = etag {
                    if str_contains(inm_str.as_str(), tag) || str_eq(inm_str.as_str(), "*") {
                        return true;
                    }
                }
            }
            return false;
        }
        if let Some(ims) = if_modified_since {
            if let Some(ims_str) = header_value_text(ims) {
                if let Some(ims_secs) = parse_http_date(ims_str.as_str()) {
                    if let Some(mt) = mtime_secs {
                        if mt <= ims_secs {
                            return true;
                        }
                    }
                }
            }
        }
        false
    }

    /// The `Cache-Control` value of the first rule for the path's extension:
    /// a rule `*.ext` or `ext` names the extension (a path without one has
    /// the empty extension).
    pub fn get_cache_control(&self, path: &str) -> (r: Option<String>)
        ensures
            match rule_for(
                self.spec_config().cache_control_rules@.map_values(|p: (String, String)| (p.0@, p.1@)),
                ext_or_empty(path_extension(path@)),
            ) {
                Some(h) => r matches Some(s) && s@ == h,
                None => r is None,
            },
    {
        let ext = match extension_of(path) {
            Some(e) => e,
            None => String::new(),
        };
        assert(ext@ == ext_or_empty(path_extension(path@)));
        let ghost rules = self.config.cache_control_rules@.map_values(|p: (String, String)| (p.0@, p.1@));
        let mut i: usize = 0;
        assert(rules.skip(0) =~= rules);
        while i < self.config.cache_control_rules.len()
            invariant
                i <= self.config.cache_control_rules@.len(),
                rules == self.config.cache_control_rules@.map_values(|p: (String, String)| (p.0@, p.1@)),
                rule_for(rules, ext@) == rule_for(rules.skip(i as int), ext@),
                ext@ == ext_or_empty(path_extension(path@)),
            decreases self.config.cache_control_rules@.len() - i,
        {
            assert(rules.skip(i as int)[0] == (self.config.cache_control_rules@[i as int].0@, self.config.cache_control_rules@[i as int].1@));
            assert(rules.skip(i as int).drop_first() =~= rules.skip(i + 1));
            let pattern = self.config.cache_control_rules[i].0.as_str();
            proof {
                reveal_strlit("*.");
            }
            let hit = if str_starts_with(pattern, "*.") {
                let cs = crate::text::chars_of(pattern);
                let rest = crate::text::string_of(crate::text::chars_slice(cs.as_slice(), 2, cs.len()).as_slice());
                assert(rest@ =~= pattern@.skip(2));
                str_eq(rest.as_str(), ext.as_str())
            } else {
                str_eq(pattern, ext.as_str())
            };
            if hit {
                return Some(crate::text::to_owned(self.config.cache_control_rules[i].1.as_str()));
            }
            i += 1;
        }
        assert(rules.skip(self.config.cache_control_rules@.len() as int) =~= Seq::<(Seq<char>, Seq<char>)>::empty());
        None
    }

    /// The `Expires` value 30 days after `now_secs`, when enabled.
    pub fn expires_header_at(&self, now_secs: i64) -> (r: Option<String>)
        requires
            LOG_TIME_MIN <= now_secs <= LOG_TIME_MAX - EXPIRES_AFTER_SECS,
        ensures
            self.spec_config().add_expires_header ==> (r matches Some(s) && s@ == http_date_text(
                now_secs + EXPIRES_AFTER_SECS,
            )),
            !self.spec_config().add_expires_header ==> r is None,
    {
        if self.config.add_expires_header {
            Some(http_date(now_secs + EXPIRES_AFTER_SECS))
        } else {
            None
        }
    }

    /// The `Expires` value 30 days from now, when enabled and the date
    /// stays in the calendar: the date of some clock reading (in chrono's
    /// calendar, at least 30 days before its end) plus 30 days. Which
    /// reading, and whether the clock has run past that end (then there is
    /// none), depends on the clock.
    pub fn get_expires_header(&self) -> (r: Option<String>)
        ensures
            !self.spec_config().add_expires_header ==> r is None,
            r matches Some(s) ==> self.spec_config().add_expires_header && exists|t: i64|
                LOG_TIME_MIN <= t <= LOG_TIME_MAX - EXPIRES_AFTER_SECS && s@ == #[trigger] http_date_text(
                    t + EXPIRES_AFTER_SECS,
                ),
    {
        let now = utc_now_seconds();
        if now > LOG_TIME_MAX - EXPIRES_AFTER_SECS {
            return None;
        }
        let r = self.expires_header_at(now);
        assert(r matches Some(s) ==> s@ == http_date_text(now + EXPIRES_AFTER_SECS));
        r
    }
}

/// Thirty days in seconds.
pub const EXPIRES_AFTER_SECS: i64 = 2592000;

pub open spec fn ext_or_empty(e: Option<Seq<char>>) -> Seq<char> {
    match e {
        Some(x) => x,
        None => Seq::empty(),
    }
}

/// The header of the first rule that names the extension.
pub open spec fn rule_for(rules: Seq<(Seq<char>, Seq<char>)>, ext: Seq<char>) -> Option<Seq<char>>
    decreases rules.len(),
{
    if rules.len() == 0 {
        None
    } else {
        let p = rules[0].0;
        let hit = if p.len() >= 2 && p.take(2) == "*."@ {
            p.skip(2) == ext
        } else {
            p == ext
        };
        if hit {
            Some(rules[0].1)
        } else {
            rule_for(rules.drop_first(), ext)
        }
    }
}

/// Whether a response may be answered 304: when `If-None-Match` is there,
/// exactly when it is visible ASCII, there is an ETag, and it holds the tag
/// or is `*`; otherwise when `If-Modified-Since` is a visible RFC 2822 date
/// no earlier than the modification second.
pub open spec fn not_modified(
    inm: Option<Seq<u8>>,
    ims: Option<Seq<u8>>,
    etag: Option<Seq<char>>,
    mtime: Option<i64>,
) -> bool {
    match inm {
        Some(b) => visible_ascii(b) && (etag matches Some(t) && (contains_text(chars_of_bytes(b), t)
            || chars_of_bytes(b) == "*"@)),
        None => match ims {
            Some(b) => visible_ascii(b) && (rfc2822_seconds(chars_of_bytes(b)) matches Some(s) && (
            mtime matches Some(m) && m <= s)),
            None => false,
        },
    }
}

/// What was just stored under a key in an LRU cache is the first thing
/// found for that key (for the ETag cache and the response cache alike).
pub proof fn law_stored_is_found<V>(
    es: Seq<(Seq<char>, V)>,
    cap: nat,
    k: Seq<char>,
    v: V,
)
    ensures
        lru_pos(lru_after_put(es, cap, k, v), k) == Some(0int),
        lru_after_put(es, cap, k, v)[0] == (k, v),
{
}

/// Conditional requests: when `If-None-Match` is present it alone decides
/// and `If-Modified-Since` is not consulted; the answer is 304 only when the
/// header is readable text holding the current ETag (or is `*`), so a stale
/// or foreign tag always gets the full response. Without `If-None-Match`,
/// a 304 needs a readable date no earlier than the resource's modification
/// time.
pub proof fn law_if_none_match_decides(
    inm: Option<Seq<u8>>,
    ims: Option<Seq<u8>>,
    etag: Option<Seq<char>>,
    mtime: Option<i64>,
)
    ensures
        inm is Some ==> not_modified(inm, ims, etag, mtime) == not_modified(inm, None, etag, mtime),
        inm matches Some(b) ==> (not_modified(inm, ims, etag, mtime) ==> visible_ascii(b) && (
        chars_of_bytes(b) == "*"@ || (etag matches Some(t) && contains_text(chars_of_bytes(b), t)))),
        inm matches Some(b) ==> (visible_ascii(b) && (etag matches Some(t) && contains_text(
            chars_of_bytes(b),
            t,
        )) ==> not_modified(inm, ims, etag, mtime)),
        inm is None ==> (not_modified(inm, ims, etag, mtime) ==> (ims matches Some(b) && (
        rfc2822_seconds(chars_of_bytes(b)) matches Some(s) && (mtime matches Some(m) && m <= s)))),
        inm is None && ims is None ==> !not_modified(inm, ims, etag, mtime),
        etag is None && inm is Some ==> !not_modified(inm, ims, etag, mtime),
        inm matches Some(b) ==> (visible_ascii(b) && chars_of_bytes(b) == "*"@ && etag is Some
            ==> not_modified(inm, ims, etag, mtime)),
        inm is None ==> (ims matches Some(b) ==> (not_modified(inm, ims, etag, mtime) <==> visible_ascii(b)
            && (rfc2822_seconds(chars_of_bytes(b)) matches Some(s) && (mtime matches Some(m) && m <= s)))),
{
}

} // verus!
