//! `auth_request`: a subrequest to an authentication server decides whether
//! a request may pass. Decisions that allowed a request are cached for a
//! minute by (auth URI, `Authorization`, `Cookie`).
//!
//! The check runs in two steps around the subrequest: `begin_check`
//! answers from the cache or asks for a subrequest; `finish_check` turns
//! the subrequest's outcome into the answer and caches it.

use vstd::prelude::*;
use crate::cgi::{chars_of_bytes, header_value_text, visible_ascii};
use crate::text::{ascii_lower_str, eq_ignore_ascii_case, push_str, str_eq, str_eq_ignore_ascii_case};

verus! {

/// Satisfy mode: controls if BOTH auth_request AND ACL must pass, or just one
#[derive(Debug, Clone, Copy, PartialEq, Eq, Structural)]
pub enum SatisfyMode {
    All,
    Any,
}

impl Default for SatisfyMode {
    fn default() -> (r: Self)
        ensures
            r == SatisfyMode::All,
    {
        SatisfyMode::All
    }
}

/// How long an allowing decision stays cached, in milliseconds.
pub const AUTH_CACHE_TTL_MS: u64 = 60_000;

/// More entries than this make an insertion drop the expired ones first.
pub const AUTH_CACHE_SOFT_LIMIT: usize = 4096;

pub type Pairs = Seq<(Seq<char>, Seq<char>)>;

pub open spec fn pairs_of(v: Seq<(String, String)>) -> Pairs {
    v.map_values(|p: (String, String)| (p.0@, p.1@))
}

fn copy_pairs(v: &Vec<(String, String)>) -> (r: Vec<(String, String)>)
    ensures
        pairs_of(r@) == pairs_of(v@),
{
    let mut r: Vec<(String, String)> = Vec::new();
    let mut i: usize = 0;
    while i < v.len()
        invariant
            i <= v@.len(),
            pairs_of(r@) == pairs_of(v@).take(i as int),
        decreases v@.len() - i,
    {
        let ghost before = r@;
        let a = crate::text::to_owned(v[i].0.as_str());
        let b = crate::text::to_owned(v[i].1.as_str());
        r.push((a, b));
        assert(pairs_of(r@) =~= pairs_of(before).push((v@[i as int].0@, v@[i as int].1@)));
        assert(pairs_of(v@).take(i + 1) =~= pairs_of(v@).take(i as int).push((v@[i as int].0@, v@[i as int].1@)));
        i += 1;
    }
    assert(pairs_of(v@).take(v@.len() as int) =~= pairs_of(v@));
    r
}

/// Cached auth decision with expiry
pub struct CachedAuthDecision {
    pub allowed: bool,
    pub injected_headers: Vec<(String, String)>,
    pub expires_at_ms: u64,
}

pub struct CachedView {
    pub allowed: bool,
    pub headers: Pairs,
    pub expires_at_ms: u64,
}

impl CachedAuthDecision {
    pub open spec fn spec_view(&self) -> CachedView {
        CachedView {
            allowed: self.allowed,
            headers: pairs_of(self.injected_headers@),
            expires_at_ms: self.expires_at_ms,
        }
    }

    fn copy(&self) -> (r: Self)
        ensures
            r.spec_view() == self.spec_view(),
    {
        CachedAuthDecision {
            allowed: self.allowed,
            injected_headers: copy_pairs(&self.injected_headers),
            expires_at_ms: self.expires_at_ms,
        }
    }
}

pub open spec fn or_dash(s: Option<Seq<char>>) -> Seq<char> {
    match s {
        Some(v) => v,
        None => "-"@,
    }
}

/// The cache key: `uri|authorization|cookie`, `-` for an absent header.
pub open spec fn cache_key_text(uri: Seq<char>, auth: Option<Seq<char>>, cookie: Option<Seq<char>>) -> Seq<char> {
    uri + "|"@ + or_dash(auth) + "|"@ + or_dash(cookie)
}

pub open spec fn opt_view(s: Option<&str>) -> Option<Seq<char>> {
    match s {
        Some(v) => Some(v@),
        None => None,
    }
}

/// Build a cache key from auth URI + relevant request headers
pub fn build_cache_key(auth_uri: &str, auth_header: Option<&str>, cookie: Option<&str>) -> (r: String)
    ensures
        r@ == cache_key_text(auth_uri@, opt_view(auth_header), opt_view(cookie)),
{
    let mut s = crate::text::to_owned(auth_uri);
    push_str(&mut s, "|");
    match auth_header {
        Some(a) => push_str(&mut s, a),
        None => push_str(&mut s, "-"),
    }
    push_str(&mut s, "|");
    match cookie {
        Some(c) => push_str(&mut s, c),
        None => push_str(&mut s, "-"),
    }
    assert(s@ =~= cache_key_text(auth_uri@, opt_view(auth_header), opt_view(cookie)));
    s
}

pub type CacheSeq = Seq<(Seq<char>, CachedView)>;

/// The position of the first entry for `key`.
pub open spec fn key_pos(es: CacheSeq, key: Seq<char>) -> Option<int>
    decreases es.len(),
{
    if es.len() == 0 {
        None
    } else if es[0].0 == key {
        Some(0)
    } else {
        match key_pos(es.drop_first(), key) {
            Some(i) => Some(i + 1),
            None => None,
        }
    }
}

pub proof fn lemma_key_pos(es: CacheSeq, key: Seq<char>)
    ensures
        key_pos(es, key) matches Some(i) ==> 0 <= i < es.len() && es[i].0 == key && forall|j: int|
            0 <= j < i ==> es[j].0 != key,
        key_pos(es, key) is None ==> forall|j: int| 0 <= j < es.len() ==> es[j].0 != key,
    decreases es.len(),
{
    if es.len() > 0 {
        lemma_key_pos(es.drop_first(), key);
        let t = es.drop_first();
        assert forall|j: int| 1 <= j < es.len() implies es[j] == t[j - 1] by {}
    }
}

/// The in-process cache of decisions.
pub struct AuthCache {
    entries: Vec<(String, CachedAuthDecision)>,
}

impl AuthCache {
    pub closed spec fn spec_view(&self) -> CacheSeq {
        self.entries@.map_values(|e: (String, CachedAuthDecision)| (e.0@, e.1.spec_view()))
    }

    pub fn new() -> (r: Self)
        ensures
            r.spec_view().len() == 0,
    {
        let r = AuthCache { entries: Vec::new() };
        assert(r.spec_view() =~= Seq::<(Seq<char>, CachedView)>::empty());
        r
    }

    fn find(&self, key: &str) -> (r: Option<usize>)
        ensures
            match r {
                Some(i) => key_pos(self.spec_view(), key@) == Some(i as int) && i < self.entries@.len(),
                None => key_pos(self.spec_view(), key@) is None,
            },
    {
        let ghost es = self.spec_view();
        proof {
            lemma_key_pos(es, key@);
        }
        let mut i: usize = 0;
        while i < self.entries.len()
            invariant
                i <= self.entries@.len(),
                es == self.spec_view(),
                es.len() == self.entries@.len(),
                forall|j: int| 0 <= j < i ==> es[j].0 != key@,
                key_pos(es, key@) matches Some(p) ==> 0 <= p < es.len() && es[p].0 == key@
                    && forall|j: int| 0 <= j < p ==> es[j].0 != key@,
                key_pos(es, key@) is None ==> forall|j: int| 0 <= j < es.len() ==> es[j].0 != key@,
            decreases self.entries@.len() - i,
        {
            assert(es[i as int].0 == self.entries@[i as int].0@);
            if str_eq(self.entries[i].0.as_str(), key) {
                return Some(i);
            }
            i += 1;
        }
        None
    }

    /// The live decision for `key`: an entry that has expired by `now_ms`
    /// is dropped and gives nothing.
    pub fn get(&mut self, key: &str, now_ms: u64) -> (r: Option<CachedAuthDecision>)
        ensures
            match key_pos(old(self).spec_view(), key@) {
                Some(i) => if old(self).spec_view()[i].1.expires_at_ms > now_ms {
                    r matches Some(d) && d.spec_view() == old(self).spec_view()[i].1
                        && final(self).spec_view() == old(self).spec_view()
                } else {
                    r is None && final(self).spec_view() == old(self).spec_view().remove(i)
                },
                None => r is None && final(self).spec_view() == old(self).spec_view(),
            },
    {
        match self.find(key) {
            Some(i) => {
                if self.entries[i].1.expires_at_ms > now_ms {
                    Some(self.entries[i].1.copy())
                } else {
                    let _ = self.entries.remove(i);
                    assert(self.spec_view() =~= old(self).spec_view().remove(i as int));
                    None
                }
            },
            None => None,
        }
    }

    /// Stores a decision for `key` (replacing the first entry for it); when
    /// more than the soft limit of entries are held, the ones expired by
    /// `now_ms` are dropped first.
    pub fn insert(&mut self, key: String, decision: CachedAuthDecision, now_ms: u64)
        ensures
            final(self).spec_view() == cache_after_insert(old(self).spec_view(), key@, decision.spec_view(), now_ms),
    {
        let ghost kv = key@;
        let ghost dv = decision.spec_view();
        if self.entries.len() > AUTH_CACHE_SOFT_LIMIT {
            self.retain_live(now_ms);
        }
        let ghost mid = self.spec_view();
        match self.find(key.as_str()) {
            Some(i) => {
                self.entries.set(i, (key, decision));
                assert(self.spec_view() =~= mid.update(i as int, (kv, dv)));
            },
            None => {
                self.entries.push((key, decision));
                assert(self.spec_view() =~= mid.push((kv, dv)));
            },
        }
    }

    fn retain_live(&mut self, now_ms: u64)
        ensures
            final(self).spec_view() == old(self).spec_view().filter(|e: (Seq<char>, CachedView)| e.1.expires_at_ms > now_ms),
    {
        let ghost es = old(self).spec_view();
        let ghost pred = |e: (Seq<char>, CachedView)| e.1.expires_at_ms > now_ms;
        let mut old_entries: Vec<(String, CachedAuthDecision)> = Vec::new();
        std::mem::swap(&mut old_entries, &mut self.entries);
        assert(old_entries@.map_values(|e: (String, CachedAuthDecision)| (e.0@, e.1.spec_view())) == es);
        assert(forall|k: int| 0 <= k < es.len() ==> (#[trigger] old_entries@[k]).0@ == es[k].0 && old_entries@[k].1.spec_view() == es[k].1);
        let mut kept: Vec<(String, CachedAuthDecision)> = Vec::new();
        let mut rest = old_entries;
        let ghost n = es.len();
        assert(es.take(0).filter(pred) =~= Seq::<(Seq<char>, CachedView)>::empty()) by {
            reveal(Seq::filter);
        }
        let ghost mut i: int = 0;
        while rest.len() > 0
            invariant
                pred == (|e: (Seq<char>, CachedView)| e.1.expires_at_ms > now_ms),
                n == es.len(),
                0 <= i <= n,
                rest@.len() == n - i,
                forall|k: int| 0 <= k < n - i ==> (#[trigger] rest@[k]).0@ == es[i + k].0
                    && rest@[k].1.spec_view() == es[i + k].1,
                kept@.map_values(|e: (String, CachedAuthDecision)| (e.0@, e.1.spec_view())) == es.take(i).filter(pred),
            decreases rest@.len(),
        {
            let ghost rest_before = rest@;
            let e = rest.remove(0);
            let ghost ev = (e.0@, e.1.spec_view());
            proof {
                reveal(Seq::filter);
                assert(rest_before[0] == e);
                assert(ev == es[i]);
                assert(es.take(i + 1).drop_last() =~= es.take(i));
                assert(es.take(i + 1).last() == es[i]);
                assert forall|k: int| 0 <= k < n - (i + 1) implies (#[trigger] rest@[k]).0@ == es[(i + 1) + k].0
                    && rest@[k].1.spec_view() == es[(i + 1) + k].1 by {
                    assert(rest@[k] == rest_before[k + 1]);
                }
            }
            let ghost before = kept@.map_values(|e: (String, CachedAuthDecision)| (e.0@, e.1.spec_view()));
            if e.1.expires_at_ms > now_ms {
                let ghost kb = kept@;
                kept.push(e);
                assert(kept@.map_values(|e: (String, CachedAuthDecision)| (e.0@, e.1.spec_view())) =~= before.push(ev));
                assert(pred(ev));
                assert(es.take(i + 1).filter(pred) == es.take(i).filter(pred).push(ev));
            } else {
                assert(!pred(ev));
                assert(es.take(i + 1).filter(pred) == es.take(i).filter(pred));
            }
            proof {
                i = i + 1;
            }
        }
        assert(es.take(n as int) =~= es);
        self.entries = kept;
    }
}

/// The cache after storing `d` for `key` at time `now`.
pub open spec fn cache_after_insert(es: CacheSeq, key: Seq<char>, d: CachedView, now: u64) -> CacheSeq {
    let kept = if es.len() > AUTH_CACHE_SOFT_LIMIT {
        es.filter(|e: (Seq<char>, CachedView)| e.1.expires_at_ms > now)
    } else {
        es
    };
    match key_pos(kept, key) {
        Some(i) => kept.update(i, (key, d)),
        None => kept.push((key, d)),
    }
}

/// A response that the proxy sends in place of the request.
#[derive(Debug, Clone, PartialEq, Eq)]
pub struct AuthResponse {
    pub status: u16,
    pub www_authenticate: Option<Vec<u8>>,
    pub body: Vec<u8>,
}

/// Result of an auth request subrequest
#[derive(Debug, PartialEq, Eq)]
pub enum AuthResult {
    /// Authentication succeeded, proxy should continue. Includes the variables to set.
    Allowed(Vec<(String, String)>),
    /// Authentication failed; the proxy answers with this response.
    Denied(AuthResponse),
    /// The subrequest could not be made; the proxy answers with this response.
    Error(AuthResponse),
}

/// The first step of a check.
#[derive(Debug, PartialEq, Eq)]
pub enum AuthStep {
    /// The cache answered.
    Done(AuthResult),
    /// A subrequest is needed; its decision will be cached under `key`.
    Fetch { key: String },
}

/// What came of the subrequest.
pub enum SubrequestReply {
    /// The auth URI is not a URL.
    InvalidUri,
    /// The subrequest could not be sent or answered.
    Failed,
    /// The auth server answered: status, header fields (lower-case names,
    /// raw values, in order) and body.
    Response { status: u16, headers: Vec<(String, Vec<u8>)>, body: Vec<u8> },
}

fn text_bytes(s: &str) -> (r: Vec<u8>)
    ensures
        r@ == vstd::utf8::encode_utf8(s@),
{
    let b = s.as_bytes();
    let mut r: Vec<u8> = Vec::new();
    let mut i: usize = 0;
    while i < b.len()
        invariant
            i <= b@.len(),
            r@ == b@.take(i as int),
        decreases b@.len() - i,
    {
        r.push(b[i]);
        assert(b@.take(i + 1) =~= b@.take(i as int).push(b@[i as int]));
        i += 1;
    }
    assert(b@.take(b@.len() as int) =~= b@);
    r
}

/// The response of a cached refusal: 403 "Forbidden (cached)".
pub open spec fn cached_denial() -> (u16, Seq<u8>) {
    (403, vstd::utf8::encode_utf8("Forbidden (cached)"@))
}

/// Answers from the cache, or asks for a subrequest.
pub fn begin_check(
    cache: &mut AuthCache,
    now_ms: u64,
    auth_uri: &str,
    auth_header: Option<&str>,
    cookie: Option<&str>,
) -> (r: AuthStep)
    ensures
        ({
            let key = cache_key_text(auth_uri@, opt_view(auth_header), opt_view(cookie));
            match key_pos(old(cache).spec_view(), key) {
                Some(i) if old(cache).spec_view()[i].1.expires_at_ms > now_ms => {
                    let d = old(cache).spec_view()[i].1;
                    final(cache).spec_view() == old(cache).spec_view() && if d.allowed {
                        r matches AuthStep::Done(AuthResult::Allowed(h)) && pairs_of(h@) == d.headers
                    } else {
                        r matches AuthStep::Done(AuthResult::Denied(resp)) && resp.status == 403
                            && resp.www_authenticate is None && resp.body@ == cached_denial().1
                    }
                },
                Some(i) => final(cache).spec_view() == old(cache).spec_view().remove(i) && (
                r matches AuthStep::Fetch { key: k } && k@ == key),
                None => final(cache).spec_view() == old(cache).spec_view() && (r matches AuthStep::Fetch {
                    key: k,
                } && k@ == key),
            }
        }),
{
    let key = build_cache_key(auth_uri, auth_header, cookie);
    match cache.get(key.as_str(), now_ms) {
        Some(cached) => {
            if cached.allowed {
                AuthStep::Done(AuthResult::Allowed(cached.injected_headers))
            } else {
                AuthStep::Done(
                    AuthResult::Denied(
                        AuthResponse {
                            status: 403,
                            www_authenticate: None,
                            body: text_bytes("Forbidden (cached)"),
                        },
                    ),
                )
            }
        },
        None => AuthStep::Fetch { key },
    }
}

/// The first value of a header of the response, looked up by name ignoring
/// ASCII case.
pub open spec fn header_get(hs: Seq<(Seq<char>, Seq<u8>)>, name: Seq<char>) -> Option<Seq<u8>>
    decreases hs.len(),
{
    if hs.len() == 0 {
        None
    } else if eq_ignore_ascii_case(hs[0].0, name) {
        Some(hs[0].1)
    } else {
        header_get(hs.drop_first(), name)
    }
}

pub open spec fn headers_of(v: Seq<(String, Vec<u8>)>) -> Seq<(Seq<char>, Seq<u8>)> {
    v.map_values(|h: (String, Vec<u8>)| (h.0@, h.1@))
}

fn find_header<'a>(hs: &'a Vec<(String, Vec<u8>)>, name: &str) -> (r: Option<&'a Vec<u8>>)
    ensures
        match r {
            Some(v) => header_get(headers_of(hs@), name@) == Some(v@),
            None => header_get(headers_of(hs@), name@) is None,
        },
{
    let ghost all = headers_of(hs@);
    let mut i: usize = 0;
    assert(all.skip(0) =~= all);
    while i < hs.len()
        invariant
            i <= hs@.len(),
            all == headers_of(hs@),
            header_get(all, name@) == header_get(all.skip(i as int), name@),
        decreases hs@.len() - i,
    {
        assert(all.skip(i as int)[0] == (hs@[i as int].0@, hs@[i as int].1@));
        assert(all.skip(i as int).drop_first() =~= all.skip(i + 1));
        if str_eq_ignore_ascii_case(hs[i].0.as_str(), name) {
            return Some(&hs[i].1);
        }
        i += 1;
    }
    assert(all.skip(hs@.len() as int) =~= Seq::<(Seq<char>, Seq<u8>)>::empty());
    None
}

/// The variables to set from an allowing response: for each (variable,
/// header) pair, the header's first value when it is visible ASCII.
pub open spec fn injected(extract: Pairs, hs: Seq<(Seq<char>, Seq<u8>)>) -> Pairs
    decreases extract.len(),
{
    if extract.len() == 0 {
        Seq::empty()
    } else {
        let rest = injected(extract.drop_last(), hs);
        match header_get(hs, extract.last().1) {
            Some(v) => if visible_ascii(v) {
                rest.push((extract.last().0, chars_of_bytes(v)))
            } else {
                rest
            },
            None => rest,
        }
    }
}

pub open spec fn is_success(status: u16) -> bool {
    200 <= status <= 299
}

/// Turns the subrequest's outcome into the answer. A 2xx response allows
/// the request, with the extracted variables, and is cached under `key`
/// until a minute after `now_ms`; another status refuses it with that
/// status, the server's `WWW-Authenticate` and its body; a bad URI or a
/// failed subrequest is a 500.
pub fn finish_check(
    cache: &mut AuthCache,
    now_ms: u64,
    key: String,
    reply: SubrequestReply,
    extract_headers: &Vec<(String, String)>,
) -> (r: AuthResult)
    requires
        now_ms <= u64::MAX - AUTH_CACHE_TTL_MS,
    ensures
        match reply {
            SubrequestReply::InvalidUri => final(cache).spec_view() == old(cache).spec_view()
                && (r matches AuthResult::Error(resp) && resp.status == 500 && resp.body@
                == vstd::utf8::encode_utf8(
                "Internal Server Error (Auth Request Configuration Invalid)"@,
            ) && resp.www_authenticate is None),
            SubrequestReply::Failed => final(cache).spec_view() == old(cache).spec_view()
                && (r matches AuthResult::Error(resp) && resp.status == 500 && resp.body@
                == vstd::utf8::encode_utf8("Internal Server Error (Auth Request Failed)"@)
                && resp.www_authenticate is None),
            SubrequestReply::Response { status, headers, body } => if is_success(status) {
                r matches AuthResult::Allowed(h) && pairs_of(h@) == injected(
                    pairs_of(extract_headers@),
                    headers_of(headers@),
                ) && final(cache).spec_view() == cache_after_insert(
                    old(cache).spec_view(),
                    key@,
                    CachedView {
                        allowed: true,
                        headers: pairs_of(h@),
                        expires_at_ms: (now_ms + AUTH_CACHE_TTL_MS) as u64,
                    },
                    now_ms,
                )
            } else {
                final(cache).spec_view() == old(cache).spec_view() && (r matches AuthResult::Denied(
                    resp,
                ) && resp.status == status && resp.body@ == body@ && match (
                    resp.www_authenticate,
                    header_get(headers_of(headers@), "www-authenticate"@),
                ) {
                    (Some(a), Some(b)) => a@ == b,
                    (None, None) => true,
                    _ => false,
                })
            },
        },
{
    match reply {
        SubrequestReply::InvalidUri => AuthResult::Error(
            AuthResponse {
                status: 500,
                www_authenticate: None,
                body: text_bytes("Internal Server Error (Auth Request Configuration Invalid)"),
            },
        ),
        SubrequestReply::Failed => AuthResult::Error(
            AuthResponse {
                status: 500,
                www_authenticate: None,
                body: text_bytes("Internal Server Error (Auth Request Failed)"),
            },
        ),
        SubrequestReply::Response { status, headers, body } => {
            if 200 <= status && status <= 299 {
                let ghost ex = pairs_of(extract_headers@);
                let ghost hv = headers_of(headers@);
                let mut vars: Vec<(String, String)> = Vec::new();
                let mut i: usize = 0;
                assert(ex.take(0) =~= Seq::<(Seq<char>, Seq<char>)>::empty());
                while i < extract_headers.len()
                    invariant
                        i <= extract_headers@.len(),
                        ex == pairs_of(extract_headers@),
                        hv == headers_of(headers@),
                        pairs_of(vars@) == injected(ex.take(i as int), hv),
                    decreases extract_headers@.len() - i,
                {
                    assert(ex.take(i + 1).drop_last() =~= ex.take(i as int));
                    assert(ex.take(i + 1).last() == (extract_headers@[i as int].0@, extract_headers@[i as int].1@));
                    match find_header(&headers, extract_headers[i].1.as_str()) {
                        Some(v) => match header_value_text(v.as_slice()) {
                            Some(t) => {
                                let ghost before = vars@;
                                vars.push((crate::text::to_owned(extract_headers[i].0.as_str()), t));
                                assert(pairs_of(vars@) =~= pairs_of(before).push((extract_headers@[i as int].0@, chars_of_bytes(v@))));
                            },
                            None => {},
                        },
                        None => {},
                    }
                    i += 1;
                }
                assert(ex.take(extract_headers@.len() as int) =~= ex);
                let decision = CachedAuthDecision {
                    allowed: true,
                    injected_headers: copy_pairs(&vars),
                    expires_at_ms: now_ms + AUTH_CACHE_TTL_MS,
                };
                cache.insert(key, decision, now_ms);
                AuthResult::Allowed(vars)
            } else {
                let www = match find_header(&headers, "www-authenticate") {
                    Some(v) => Some(v.clone()),
                    None => None,
                };
                AuthResult::Denied(AuthResponse { status, www_authenticate: www, body })
            }
        },
    }
}

/// A decision stored for a key is what the cache finds first for that key
/// afterwards.
pub proof fn law_stored_decision_is_found(es: CacheSeq, key: Seq<char>, d: CachedView, now: u64)
    ensures
        ({
            let after = cache_after_insert(es, key, d, now);
            key_pos(after, key) matches Some(i) && after[i].1 == d
        }),
{
    let kept = if es.len() > AUTH_CACHE_SOFT_LIMIT {
        es.filter(|e: (Seq<char>, CachedView)| e.1.expires_at_ms > now)
    } else {
        es
    };
    lemma_key_pos(kept, key);
    match key_pos(kept, key) {
        Some(i) => {
            let after = kept.update(i, (key, d));
            lemma_key_pos_same_prefix(kept, after, key, i);
        },
        None => {
            let after = kept.push((key, d));
            lemma_key_pos_same_prefix(kept, after, key, kept.len() as int);
        },
    }
}

/// When the first `i` keys agree and none is `key`, and `after[i]` has
/// `key`, then `key` is first found at `i`.
proof fn lemma_key_pos_same_prefix(before: CacheSeq, after: CacheSeq, key: Seq<char>, i: int)
    requires
        0 <= i < after.len(),
        i <= before.len(),
        forall|j: int| 0 <= j < i ==> before[j].0 != key && after[j] == before[j],
        after[i].0 == key,
    ensures
        key_pos(after, key) == Some(i),
    decreases i,
{
    if i > 0 {
        let a = after.drop_first();
        let b = before.drop_first();
        assert forall|j: int| 0 <= j < i - 1 implies b[j].0 != key && a[j] == b[j] by {
            assert(b[j] == before[j + 1]);
            assert(a[j] == after[j + 1]);
        }
        assert(after[0] == before[0]);
        lemma_key_pos_same_prefix(b, a, key, i - 1);
    }
}

/// An allowing decision cached by `finish_check` at `now` is served by
/// `begin_check` until a minute later.
pub proof fn law_allow_served_from_cache(es: CacheSeq, key: Seq<char>, headers: Pairs, now: u64, later: u64)
    requires
        now <= u64::MAX - AUTH_CACHE_TTL_MS,
        later < now + AUTH_CACHE_TTL_MS,
    ensures
        ({
            let d = CachedView { allowed: true, headers, expires_at_ms: (now + AUTH_CACHE_TTL_MS) as u64 };
            let after = cache_after_insert(es, key, d, now);
            key_pos(after, key) matches Some(i) && after[i].1.allowed && after[i].1.headers == headers
                && after[i].1.expires_at_ms > later
        }),
{
    let d = CachedView { allowed: true, headers, expires_at_ms: (now + AUTH_CACHE_TTL_MS) as u64 };
    law_stored_decision_is_found(es, key, d, now);
}

} // verus!
