//! The reverse proxy's request handling. A request passes through fixed
//! stages (status pages, ACME challenges, WebSocket upgrades, the location's
//! method and auth checks, static files, built-in endpoints, the response
//! cache, the upstream); the decisions of each stage are made here, and the
//! server performs the waiting and the I/O in between and reports back.

use vstd::prelude::*;
use vstd::string::StringSliceAdditionalSpecFns;
use crate::auth_request::{AuthResponse, AuthResult};
use crate::caching::lru_pos;
use crate::cgi::{chars_of_bytes, visible_ascii, CgiRequest};
use crate::compression::{contains_text, str_contains};
use crate::fastcgi::{fastcgi_request, FastCgiClient};
use crate::limit_except::{check_method, refusal_text};
use crate::location::{is_prefix_of, location_for, match_location, views, LocationBlock, ParsedLocationBlock};
use crate::net::{IpAddress, SocketAddress};
use crate::proxy_cache::{
    cache_key_of, spec_parse_directives, spec_should_bypass, BypassCheck, CacheDirectives, CacheEntry,
    CacheKey, CacheStatus, MemoryCache, TtlConfig,
};
use crate::scgi::{scgi_request, ScgiClient};
use crate::text::{
    chars_of, chars_slice, chars_starts_with, eq_ignore_ascii_case, push_str, str_eq,
    str_eq_ignore_ascii_case, str_starts_with, to_lowercase, to_owned, unicode_lower,
};

verus! {

// ---------------------------------------------------------------------------
// Responses built here
// ---------------------------------------------------------------------------

/// A response: status, header fields in order, body.
#[derive(Debug, Clone)]
pub struct ProxyResponse {
    pub status: u16,
    pub headers: Vec<(String, Vec<u8>)>,
    pub body: Vec<u8>,
}

pub open spec fn text_of(s: Seq<char>) -> Seq<u8> {
    vstd::utf8::encode_utf8(s)
}

pub open spec fn field_view(h: (String, Vec<u8>)) -> (Seq<char>, Seq<u8>) {
    (h.0@, h.1@)
}

pub open spec fn fields_view(hs: Seq<(String, Vec<u8>)>) -> Seq<(Seq<char>, Seq<u8>)> {
    hs.map_values(|h: (String, Vec<u8>)| field_view(h))
}

pub(crate) fn bytes_of(s: &str) -> (r: Vec<u8>)
    ensures
        r@ == text_of(s@),
{
    vstd::slice::slice_to_vec(s.as_bytes())
}

pub(crate) fn field(name: &str, value: &str) -> (r: (String, Vec<u8>))
    ensures
        field_view(r) == (name@, text_of(value@)),
{
    (to_owned(name), bytes_of(value))
}

pub open spec fn error_body(message: Seq<char>) -> Seq<char> {
    "{\"error\":\"proxy_error\",\"message\":\""@ + message + "\"}"@
}

/// A JSON error: `{"error":"proxy_error","message":"<message>"}` with the
/// given status.
pub fn build_error_response(status: u16, message: &str) -> (r: ProxyResponse)
    ensures
        r.status == status,
        fields_view(r.headers@) == seq![
            ("content-type"@, text_of("application/json"@)),
            ("Access-Control-Allow-Origin"@, text_of("*"@)),
        ],
        r.body@ == text_of(error_body(message@)),
{
    let mut text = to_owned("{\"error\":\"proxy_error\",\"message\":\"");
    push_str(&mut text, message);
    push_str(&mut text, "\"}");
    let mut headers: Vec<(String, Vec<u8>)> = Vec::new();
    headers.push(field("content-type", "application/json"));
    headers.push(field("Access-Control-Allow-Origin", "*"));
    assert(fields_view(headers@) =~= seq![
        ("content-type"@, text_of("application/json"@)),
        ("Access-Control-Allow-Origin"@, text_of("*"@)),
    ]);
    ProxyResponse { status, headers, body: bytes_of(text.as_str()) }
}

/// The answer to a CORS preflight (`OPTIONS`): any origin, the usual methods,
/// and the `Content-Type` and `Authorization` headers.
pub fn build_cors_preflight() -> (r: ProxyResponse)
    ensures
        r.status == 200,
        fields_view(r.headers@) == seq![
            ("Access-Control-Allow-Origin"@, text_of("*"@)),
            ("Access-Control-Allow-Methods"@, text_of("GET, POST, PUT, DELETE, OPTIONS"@)),
            ("Access-Control-Allow-Headers"@, text_of("Content-Type, Authorization"@)),
        ],
        r.body@.len() == 0,
{
    let mut headers: Vec<(String, Vec<u8>)> = Vec::new();
    headers.push(field("Access-Control-Allow-Origin", "*"));
    headers.push(field("Access-Control-Allow-Methods", "GET, POST, PUT, DELETE, OPTIONS"));
    headers.push(field("Access-Control-Allow-Headers", "Content-Type, Authorization"));
    assert(fields_view(headers@) =~= seq![
        ("Access-Control-Allow-Origin"@, text_of("*"@)),
        ("Access-Control-Allow-Methods"@, text_of("GET, POST, PUT, DELETE, OPTIONS"@)),
        ("Access-Control-Allow-Headers"@, text_of("Content-Type, Authorization"@)),
    ]);
    ProxyResponse { status: 200, headers, body: Vec::new() }
}

// ---------------------------------------------------------------------------
// The upstream
// ---------------------------------------------------------------------------

/// `s` without every leading repetition of `p` (`str::trim_start_matches`).
pub open spec fn strip_all(s: Seq<char>, p: Seq<char>) -> Seq<char>
    decreases s.len(),
{
    if p.len() > 0 && is_prefix_of(p, s) {
        strip_all(s.skip(p.len() as int), p)
    } else {
        s
    }
}

pub(crate) fn strip_all_exec(s: &str, p: &str) -> (r: String)
    requires
        p@.len() > 0,
    ensures
        r@ == strip_all(s@, p@),
{
    let cs = chars_of(s);
    let ps = chars_of(p);
    let mut cur = cs;
    assert(cur@ == s@);
    while chars_starts_with(cur.as_slice(), ps.as_slice())
        invariant
            ps@ == p@,
            ps@.len() > 0,
            strip_all(cur@, p@) == strip_all(s@, p@),
        decreases cur@.len(),
    {
        let n = cur.len();
        cur = chars_slice(cur.as_slice(), ps.len(), n);
    }
    crate::text::string_of(cur.as_slice())
}

/// Where a request goes: a FastCGI or SCGI backend (by address), or a URL
/// over HTTP (gRPC speaks HTTP/2 to `http://`).
pub enum UpstreamTarget {
    FastCgi { addr: String },
    Scgi { addr: String },
    Http { url: String, grpc: bool },
}

pub open spec fn upstream_host(u: Seq<char>) -> Seq<char> {
    strip_all(strip_all(strip_all(u, "http://"@), "https://"@), "grpc://"@)
}

pub open spec fn upstream_url(u: Seq<char>, path_and_query: Seq<char>) -> Seq<char> {
    let scheme = if is_prefix_of("grpc://"@, u) {
        "http://"@
    } else if is_prefix_of("https://"@, u) {
        "https://"@
    } else {
        "http://"@
    };
    scheme + upstream_host(u) + path_and_query
}

pub open spec fn target_matches(r: UpstreamTarget, u: Seq<char>, path_and_query: Seq<char>) -> bool {
    match r {
        UpstreamTarget::FastCgi { addr } => is_prefix_of("fastcgi://"@, u) && addr@ == strip_all(
            u,
            "fastcgi://"@,
        ),
        UpstreamTarget::Scgi { addr } => !is_prefix_of("fastcgi://"@, u) && is_prefix_of("scgi://"@, u)
            && addr@ == strip_all(u, "scgi://"@),
        UpstreamTarget::Http { url, grpc } => !is_prefix_of("fastcgi://"@, u) && !is_prefix_of(
            "scgi://"@,
            u,
        ) && grpc == is_prefix_of("grpc://"@, u) && url@ == upstream_url(u, path_and_query),
    }
}

fn non_empty(s: &str) -> (r: bool)
    ensures
        r == (s@.len() > 0),
{
    s.unicode_len() > 0
}

/// The backend of `upstream` (`fastcgi://`, `scgi://`, `grpc://`, `https://`
/// or plain HTTP) and, for HTTP, the URL of the request there.
pub fn upstream_target(upstream: &str, path_and_query: &str) -> (r: UpstreamTarget)
    ensures
        target_matches(r, upstream@, path_and_query@),
{
    proof {
        reveal_strlit("fastcgi://");
        reveal_strlit("scgi://");
        reveal_strlit("grpc://");
        reveal_strlit("https://");
        reveal_strlit("http://");
    }
    if str_starts_with(upstream, "fastcgi://") {
        return UpstreamTarget::FastCgi { addr: strip_all_exec(upstream, "fastcgi://") };
    }
    if str_starts_with(upstream, "scgi://") {
        return UpstreamTarget::Scgi { addr: strip_all_exec(upstream, "scgi://") };
    }
    let grpc = str_starts_with(upstream, "grpc://");
    let mut url = if grpc {
        to_owned("http://")
    } else if str_starts_with(upstream, "https://") {
        to_owned("https://")
    } else {
        to_owned("http://")
    };
    let h1 = strip_all_exec(upstream, "http://");
    let h2 = strip_all_exec(h1.as_str(), "https://");
    let h3 = strip_all_exec(h2.as_str(), "grpc://");
    push_str(&mut url, h3.as_str());
    push_str(&mut url, path_and_query);
    UpstreamTarget::Http { url, grpc }
}

/// The text of a field value: its bytes where all are visible ASCII, else
/// nothing (`HeaderValue::to_str().unwrap_or("")`).
pub open spec fn value_text(v: Seq<u8>) -> Seq<char> {
    if visible_ascii(v) {
        chars_of_bytes(v)
    } else {
        Seq::empty()
    }
}

pub(crate) fn value_text_exec(v: &[u8]) -> (r: String)
    ensures
        r@ == value_text(v@),
{
    match crate::cgi::header_value_text(v) {
        Some(s) => s,
        None => String::new(),
    }
}

/// The fields passed on to an HTTP upstream: all but `Host`, and only those
/// whose value is visible ASCII.
pub open spec fn forwarded_fields(hs: Seq<(String, Vec<u8>)>) -> Seq<(Seq<char>, Seq<char>)>
    decreases hs.len(),
{
    if hs.len() == 0 {
        Seq::empty()
    } else {
        let rest = forwarded_fields(hs.drop_last());
        let (n, v) = (hs.last().0@, hs.last().1@);
        if unicode_lower(n) != "host"@ && visible_ascii(v) {
            rest.push((n, chars_of_bytes(v)))
        } else {
            rest
        }
    }
}

pub open spec fn pairs_view(hs: Seq<(String, String)>) -> Seq<(Seq<char>, Seq<char>)> {
    hs.map_values(|h: (String, String)| (h.0@, h.1@))
}

/// A request to an HTTP upstream.
pub struct ForwardPlan {
    pub method: String,
    pub url: String,
    pub grpc: bool,
    pub headers: Vec<(String, String)>,
    pub body: Option<Vec<u8>>,
}

pub open spec fn plan_fields(hs: Seq<(String, Vec<u8>)>, grpc: bool) -> Seq<(Seq<char>, Seq<char>)> {
    if grpc {
        forwarded_fields(hs).push(("TE"@, "trailers"@))
    } else {
        forwarded_fields(hs)
    }
}

/// The upstream request: the method, the URL, the passed-on fields (and
/// `TE: trailers` for gRPC) and the body where there is one.
pub fn forward_plan(
    method: &str,
    url: String,
    grpc: bool,
    headers: &Vec<(String, Vec<u8>)>,
    body: Vec<u8>,
) -> (r: ForwardPlan)
    ensures
        r.method@ == method@,
        r.url@ == url@,
        r.grpc == grpc,
        pairs_view(r.headers@) == plan_fields(headers@, grpc),
        match r.body {
            Some(b) => body@.len() > 0 && b@ == body@,
            None => body@.len() == 0,
        },
{
    let mut out: Vec<(String, String)> = Vec::new();
    let mut i: usize = 0;
    proof {
        reveal_strlit("host");
    }
    while i < headers.len()
        invariant
            i <= headers@.len(),
            pairs_view(out@) == forwarded_fields(headers@.take(i as int)),
        decreases headers@.len() - i,
    {
        assert(headers@.take(i + 1).drop_last() =~= headers@.take(i as int));
        let lower = to_lowercase(headers[i].0.as_str());
        if !str_eq(lower.as_str(), "host") {
            match crate::cgi::header_value_text(headers[i].1.as_slice()) {
                Some(v) => {
                    out.push((to_owned(headers[i].0.as_str()), v));
                },
                None => {},
            }
        }
        assert(pairs_view(out@) =~= forwarded_fields(headers@.take(i + 1)));
        i += 1;
    }
    assert(headers@.take(headers@.len() as int) =~= headers@);
    if grpc {
        proof {
            reveal_strlit("TE");
            reveal_strlit("trailers");
        }
        let ghost before = out@;
        out.push((to_owned("TE"), to_owned("trailers")));
        assert(pairs_view(out@) =~= pairs_view(before).push(("TE"@, "trailers"@)));
    }
    let body = if body.len() > 0 {
        Some(body)
    } else {
        None
    };
    ForwardPlan { method: to_owned(method), url, grpc, headers: out, body }
}

/// The value of the first field named `name` (names compared lower-cased).
pub open spec fn first_field(fs: Seq<(Seq<char>, Seq<u8>)>, name: Seq<char>) -> Option<Seq<u8>>
    decreases fs.len(),
{
    if fs.len() == 0 {
        None
    } else if unicode_lower(fs[0].0) == name {
        Some(fs[0].1)
    } else {
        first_field(fs.drop_first(), name)
    }
}

pub(crate) fn first_field_exec<'a>(hs: &'a Vec<(String, Vec<u8>)>, name: &str) -> (r: Option<&'a Vec<u8>>)
    ensures
        match (r, first_field(fields_view(hs@), name@)) {
            (Some(v), Some(w)) => v@ == w,
            (None, None) => true,
            _ => false,
        },
{
    let ghost fs = fields_view(hs@);
    let mut i: usize = 0;
    assert(fs.skip(0) =~= fs);
    while i < hs.len()
        invariant
            i <= hs@.len(),
            fs == fields_view(hs@),
            first_field(fs, name@) == first_field(fs.skip(i as int), name@),
        decreases hs@.len() - i,
    {
        assert(fs.skip(i as int)[0] == field_view(hs@[i as int]));
        assert(fs.skip(i as int).drop_first() =~= fs.skip(i + 1));
        let lower = to_lowercase(hs[i].0.as_str());
        if str_eq(lower.as_str(), name) {
            return Some(&hs[i].1);
        }
        i += 1;
    }
    None
}

/// The text of the first field named `name`, or nothing.
pub open spec fn field_text(fs: Seq<(Seq<char>, Seq<u8>)>, name: Seq<char>) -> Seq<char> {
    match first_field(fs, name) {
        Some(v) => value_text(v),
        None => Seq::empty(),
    }
}

fn field_text_exec(hs: &Vec<(String, Vec<u8>)>, name: &str) -> (r: String)
    ensures
        r@ == field_text(fields_view(hs@), name@),
{
    match first_field_exec(hs, name) {
        Some(v) => value_text_exec(v.as_slice()),
        None => String::new(),
    }
}

/// A response passed on without buffering: an event stream, or one whose
/// `X-Accel-Buffering` is `no`.
pub open spec fn unbuffered(hs: Seq<(Seq<char>, Seq<u8>)>) -> bool {
    (first_field(hs, "content-type"@) is Some && contains_text(
        field_text(hs, "content-type"@),
        "text/event-stream"@,
    )) || (first_field(hs, "x-accel-buffering"@) is Some && eq_ignore_ascii_case(
        field_text(hs, "x-accel-buffering"@),
        "no"@,
    ))
}

pub fn is_unbuffered(hs: &Vec<(String, Vec<u8>)>) -> (r: bool)
    ensures
        r == unbuffered(fields_view(hs@)),
{
    let sse = match first_field_exec(hs, "content-type") {
        Some(v) => {
            let t = value_text_exec(v.as_slice());
            str_contains(t.as_str(), "text/event-stream")
        },
        None => false,
    };
    let no_buffer = match first_field_exec(hs, "x-accel-buffering") {
        Some(v) => {
            let t = value_text_exec(v.as_slice());
            str_eq_ignore_ascii_case(t.as_str(), "no")
        },
        None => false,
    };
    sse || no_buffer
}

// ---------------------------------------------------------------------------
// Configuration
// ---------------------------------------------------------------------------

/// The proxy's settings.
#[derive(Debug, Clone)]
pub struct HttpProxyConfig {
    pub listen_addr: SocketAddress,
    pub upstream_addr: String,
    pub max_concurrent_streams: u32,
    pub initial_window_size: u32,
    pub force_https: bool,
    pub cache_enabled: bool,
    pub cache_memory_size: usize,
    pub cache_min_uses: usize,
    pub cache_ttl_default: u64,
    pub locations: Vec<LocationBlock>,
}

impl Default for HttpProxyConfig {
    fn default() -> (r: Self)
        ensures
            r.listen_addr == (SocketAddress { ip: IpAddress::V4(0), port: 8080 }),
            r.upstream_addr@ == "127.0.0.1:9000"@,
            r.max_concurrent_streams == 100,
            r.initial_window_size == 65535,
            !r.force_https,
            !r.cache_enabled,
            r.cache_memory_size == 134217728,
            r.cache_min_uses == 1,
            r.cache_ttl_default == 60,
            r.locations@.len() == 0,
    {
        HttpProxyConfig {
            listen_addr: SocketAddress { ip: IpAddress::V4(0), port: 8080 },
            upstream_addr: to_owned("127.0.0.1:9000"),
            max_concurrent_streams: 100,
            initial_window_size: 65535,
            force_https: false,
            cache_enabled: false,
            cache_memory_size: 134217728,
            cache_min_uses: 1,
            cache_ttl_default: 60,
            locations: Vec::new(),
        }
    }
}

/// The locations whose patterns compile, in order.
pub open spec fn usable_locations(bs: Seq<LocationBlock>) -> Seq<LocationBlock>
    decreases bs.len(),
{
    if bs.len() == 0 {
        Seq::empty()
    } else {
        let rest = usable_locations(bs.drop_last());
        let ok = match crate::location::block_pattern(&bs.last()) {
            Some(p) => crate::pattern::regex_valid(p),
            None => true,
        };
        if ok {
            rest.push(bs.last())
        } else {
            rest
        }
    }
}

pub open spec fn location_configs(ls: Seq<ParsedLocationBlock>) -> Seq<LocationBlock> {
    ls.map_values(|l: ParsedLocationBlock| l.config)
}

/// The proxy: its settings, the response cache (where enabled), the
/// cache's lifetime and bypass rules, and the parsed locations.
pub struct HttpProxy {
    pub config: HttpProxyConfig,
    memory_cache: Option<MemoryCache>,
    ttl_config: TtlConfig,
    bypass_check: BypassCheck,
    locations: Vec<ParsedLocationBlock>,
}

/// Entries a proxy's cache is made for.
pub const CACHE_MAX_ENTRIES: usize = 50000;

impl HttpProxy {
    pub closed spec fn cache_ok(&self) -> bool {
        match self.memory_cache {
            Some(c) => c.wf(),
            None => true,
        }
    }

    pub closed spec fn spec_config(&self) -> HttpProxyConfig {
        self.config
    }

    pub closed spec fn has_cache(&self) -> bool {
        self.memory_cache is Some
    }

    pub closed spec fn spec_locations(&self) -> Seq<ParsedLocationBlock> {
        self.locations@
    }

    pub closed spec fn spec_bypass(&self) -> BypassCheck {
        self.bypass_check
    }

    pub closed spec fn spec_ttl(&self) -> TtlConfig {
        self.ttl_config
    }

    pub closed spec fn spec_cache(&self) -> MemoryCache {
        self.memory_cache->0
    }

    /// Builds the proxy: a cache of `CACHE_MAX_ENTRIES` entries and
    /// `cache_memory_size` bytes where caching is enabled, and the locations
    /// of the configuration parsed (those whose pattern does not compile are
    /// left out). The locations move out of the configuration kept.
    pub fn new(config: HttpProxyConfig) -> (r: Self)
        ensures
            r.cache_ok(),
            r.has_cache() == config.cache_enabled,
            r.has_cache() ==> r.spec_cache().spec_entries().len() == 0 && r.spec_cache().spec_capacity()
                == CACHE_MAX_ENTRIES && r.spec_cache().spec_max_bytes() == config.cache_memory_size
                && r.spec_cache().spec_min_uses() == config.cache_min_uses,
            r.spec_ttl().default_ttl == config.cache_ttl_default,
            r.spec_ttl().status_ttls@.len() == 0,
            r.spec_bypass().bypass_headers@.len() == 1,
            r.spec_bypass().bypass_headers@[0]@ == "Authorization"@,
            r.spec_bypass().cacheable_methods@.len() == 2,
            r.spec_bypass().cacheable_methods@[0]@ == "GET"@,
            r.spec_bypass().cacheable_methods@[1]@ == "HEAD"@,
            location_configs(r.spec_locations()) == usable_locations(config.locations@),
            forall|i: int| 0 <= i < r.spec_locations().len() ==> (#[trigger] r.spec_locations()[i]).wf(),
            r.spec_config().listen_addr == config.listen_addr,
            r.spec_config().upstream_addr == config.upstream_addr,
            r.spec_config().max_concurrent_streams == config.max_concurrent_streams,
            r.spec_config().initial_window_size == config.initial_window_size,
            r.spec_config().force_https == config.force_https,
            r.spec_config().cache_enabled == config.cache_enabled,
            r.spec_config().cache_memory_size == config.cache_memory_size,
            r.spec_config().cache_min_uses == config.cache_min_uses,
            r.spec_config().cache_ttl_default == config.cache_ttl_default,
            r.spec_config().locations@.len() == 0,
    {
        let mut config = config;
        let memory_cache = if config.cache_enabled {
            Some(MemoryCache::new(CACHE_MAX_ENTRIES, config.cache_memory_size).with_min_uses(config.cache_min_uses))
        } else {
            None
        };
        let ttl_config = TtlConfig::new(config.cache_ttl_default);
        let bypass_check = BypassCheck::default();
        let mut blocks: Vec<LocationBlock> = Vec::new();
        std::mem::swap(&mut blocks, &mut config.locations);
        let ghost all = blocks@;
        let mut parsed: Vec<ParsedLocationBlock> = Vec::new();
        let mut pending = blocks;
        let mut n: usize = 0;
        assert(pending@ =~= all.skip(0));
        let total = pending.len();
        assert(all.len() == total);
        while pending.len() > 0
            invariant
                n <= all.len() <= usize::MAX,
                pending@ == all.skip(n as int),
                location_configs(parsed@) == usable_locations(all.take(n as int)),
                forall|i: int| 0 <= i < parsed@.len() ==> (#[trigger] parsed@[i]).wf(),
            decreases pending@.len(),
        {
            let b = pending.remove(0);
            proof {
                assert(b == all[n as int]);
                assert(pending@ =~= all.skip(n + 1));
                assert(all.take(n + 1).drop_last() =~= all.take(n as int));
            }
            match ParsedLocationBlock::parse(b) {
                Ok(p) => {
                    parsed.push(p);
                    assert(location_configs(parsed@) =~= usable_locations(all.take(n + 1)));
                },
                Err(_) => {
                    assert(location_configs(parsed@) =~= usable_locations(all.take(n + 1)));
                },
            }
            n += 1;
        }
        assert(all.take(all.len() as int) =~= all);
        HttpProxy { config, memory_cache, ttl_config, bypass_check, locations: parsed }
    }
}

// ---------------------------------------------------------------------------
// A request's way through the proxy
// ---------------------------------------------------------------------------

/// What the server read of a request: method, path, query, the path with
/// the query, the target as written, the scheme if the target has one, and
/// the header fields (lower-case names, raw values, in order).
pub struct RequestHead {
    pub method: String,
    pub path: String,
    pub query: Option<String>,
    pub path_and_query: String,
    pub uri: String,
    pub scheme: Option<String>,
    pub headers: Vec<(String, Vec<u8>)>,
}

/// What the static file server made of a request.
pub enum StaticOutcome {
    /// No file answers the request (or static files are not served).
    Skipped,
    /// The file was sent.
    Served,
    PathTraversal(String),
    Forbidden(String),
    Io(String),
}

/// The head of an upstream response: status and header fields.
pub struct UpstreamHead {
    pub status: u16,
    pub headers: Vec<(String, Vec<u8>)>,
}

/// What became of the upstream request.
pub enum UpstreamReply {
    Answered(UpstreamHead),
    /// The request failed; the text says why.
    Failed(String),
}

/// Where a request stands: which report the flow waits for.
#[derive(PartialEq, Eq, Structural)]
pub enum Stage {
    Challenge,
    WebSocket,
    Auth,
    Body,
    Static,
    Metrics,
    Dispatched,
    Upstream,
    UpstreamBody,
    Finished,
}

/// A response to send, with what the server records about it: the request
/// (status and duration), its energy estimate, a cache hit of so many bytes,
/// and the entry to offer to the cache.
pub struct ProxyReply {
    pub response: ProxyResponse,
    pub record_request: bool,
    pub record_energy: bool,
    pub cache_hit_bytes: Option<u64>,
    pub store: Option<CacheEntry>,
}

/// What the server does next.
pub enum ProxyAction {
    /// Send this response; the request is done.
    Respond(ProxyReply),
    /// Answer with the status page (text or JSON); the request is done.
    ServeStubStatus { json: bool },
    /// Ask the ACME manager for the key authorization of the path.
    CheckChallenge,
    /// Tell whether the request asks for a WebSocket upgrade.
    CheckWebSocket,
    /// Hand the request to the WebSocket proxy; the request is done.
    UpgradeWebSocket,
    /// Run the auth subrequest.
    CheckAuth { auth_uri: String, extract: Vec<(String, String)> },
    /// Read the request body.
    ReadBody,
    /// Ask the static file server.
    TryStatic,
    /// Render the metrics.
    RenderMetrics,
    /// Connect to a FastCGI or SCGI backend and send these bytes (a failed
    /// connection is ignored), then report.
    Dispatch { addr: String, request: Vec<u8>, cache_miss: bool },
    /// Send this request upstream.
    Forward { plan: ForwardPlan, cache_miss: bool },
    /// Pass the upstream response on as it streams, with these fields; the
    /// request is done.
    StreamThrough { status: u16, headers: Vec<(String, Vec<u8>)> },
    /// Read the upstream body.
    ReadUpstreamBody,
    /// The response already sent stands; the request is done.
    Finished,
}

/// A request in flight.
pub struct RequestFlow {
    pub stage: Stage,
    pub head: RequestHead,
    pub body: Vec<u8>,
    pub can_cache: bool,
    pub cache_status: CacheStatus,
    pub cache_key: CacheKey,
    pub upstream_status: u16,
    pub upstream_headers: Vec<(String, Vec<u8>)>,
    pub upstream_body: Vec<u8>,
}

pub open spec fn status_path() -> Seq<char> {
    "/.well-known/aegis_status"@
}

pub open spec fn status_json_path() -> Seq<char> {
    "/.well-known/aegis_status/json"@
}

/// The host a request is cached under: its `Host` field, else `localhost`.
pub open spec fn key_host(hs: Seq<(String, Vec<u8>)>) -> Seq<char> {
    match first_field(fields_view(hs), "host"@) {
        Some(v) => if visible_ascii(v) {
            chars_of_bytes(v)
        } else {
            "localhost"@
        },
        None => "localhost"@,
    }
}

pub open spec fn key_scheme(s: Option<String>) -> Seq<char> {
    match s {
        Some(t) => t@,
        None => "http"@,
    }
}

pub open spec fn response_view(r: ProxyResponse) -> (u16, Seq<(Seq<char>, Seq<u8>)>, Seq<u8>) {
    (r.status, fields_view(r.headers@), r.body@)
}

/// A reply that records nothing.
pub open spec fn plain_reply(r: ProxyReply) -> bool {
    !r.record_request && !r.record_energy && r.cache_hit_bytes is None && r.store is None
}

/// A reply that records the request only.
pub open spec fn counted_reply(r: ProxyReply) -> bool {
    r.record_request && !r.record_energy && r.cache_hit_bytes is None && r.store is None
}

fn plain(response: ProxyResponse) -> (r: ProxyReply)
    ensures
        plain_reply(r),
        r.response == response,
{
    ProxyReply { response, record_request: false, record_energy: false, cache_hit_bytes: None, store: None }
}

fn counted(response: ProxyResponse) -> (r: ProxyReply)
    ensures
        counted_reply(r),
        r.response == response,
{
    ProxyReply { response, record_request: true, record_energy: false, cache_hit_bytes: None, store: None }
}

fn copy_fields(hs: &Vec<(String, Vec<u8>)>) -> (r: Vec<(String, Vec<u8>)>)
    ensures
        fields_view(r@) == fields_view(hs@),
{
    let mut out: Vec<(String, Vec<u8>)> = Vec::new();
    let mut i: usize = 0;
    while i < hs.len()
        invariant
            i <= hs@.len(),
            fields_view(out@) == fields_view(hs@.take(i as int)),
        decreases hs@.len() - i,
    {
        let ghost before = out@;
        let item = (to_owned(hs[i].0.as_str()), vstd::slice::slice_to_vec(hs[i].1.as_slice()));
        assert(field_view(item) == field_view(hs@[i as int]));
        out.push(item);
        assert(fields_view(out@) =~= fields_view(before).push(field_view(hs@[i as int])));
        assert(hs@.take(i + 1) =~= hs@.take(i as int).push(hs@[i as int]));
        assert(fields_view(hs@.take(i + 1)) =~= fields_view(hs@.take(i as int)).push(
            field_view(hs@[i as int]),
        ));
        i += 1;
    }
    assert(hs@.take(hs@.len() as int) =~= hs@);
    out
}

fn copy_pairs(ps: &Vec<(String, String)>) -> (r: Vec<(String, String)>)
    ensures
        pairs_view(r@) == pairs_view(ps@),
{
    let mut out: Vec<(String, String)> = Vec::new();
    let mut i: usize = 0;
    while i < ps.len()
        invariant
            i <= ps@.len(),
            pairs_view(out@) == pairs_view(ps@.take(i as int)),
        decreases ps@.len() - i,
    {
        let ghost before = out@;
        let item = (to_owned(ps[i].0.as_str()), to_owned(ps[i].1.as_str()));
        out.push(item);
        assert(pairs_view(out@) =~= pairs_view(before).push((ps@[i as int].0@, ps@[i as int].1@)));
        assert(ps@.take(i + 1) =~= ps@.take(i as int).push(ps@[i as int]));
        assert(pairs_view(ps@.take(i + 1)) =~= pairs_view(ps@.take(i as int)).push(
            (ps@[i as int].0@, ps@[i as int].1@),
        ));
        i += 1;
    }
    assert(ps@.take(ps@.len() as int) =~= ps@);
    out
}

impl RequestFlow {
    /// A new request: the status pages are answered at once; everything
    /// else starts by asking for an ACME challenge.
    pub fn start(head: RequestHead) -> (r: (RequestFlow, ProxyAction))
        ensures
            r.0.head == head,
            r.0.cache_key.key@ == cache_key_of(key_scheme(head.scheme), key_host(head.headers@), head.uri@),
            head.path@ == status_path() ==> r.0.stage == Stage::Finished && r.1 == (ProxyAction::ServeStubStatus { json: false }),
            head.path@ == status_json_path() ==> r.0.stage == Stage::Finished && r.1 == (ProxyAction::ServeStubStatus { json: true }),
            head.path@ != status_path() && head.path@ != status_json_path() ==> r.0.stage == Stage::Challenge && r.1 is CheckChallenge,
    {
        proof {
            reveal_strlit("localhost");
            reveal_strlit("http");
            reveal_strlit("/.well-known/aegis_status");
            reveal_strlit("/.well-known/aegis_status/json");
            assert(status_path().len() != status_json_path().len());
        }
        let host = match first_field_exec(&head.headers, "host") {
            Some(v) => match crate::cgi::header_value_text(v.as_slice()) {
                Some(t) => t,
                None => to_owned("localhost"),
            },
            None => to_owned("localhost"),
        };
        let scheme = match &head.scheme {
            Some(t) => to_owned(t.as_str()),
            None => to_owned("http"),
        };
        let cache_key = CacheKey::from_request(scheme.as_str(), host.as_str(), head.uri.as_str());
        let (stage, action) = if str_eq(head.path.as_str(), "/.well-known/aegis_status") {
            (Stage::Finished, ProxyAction::ServeStubStatus { json: false })
        } else if str_eq(head.path.as_str(), "/.well-known/aegis_status/json") {
            (Stage::Finished, ProxyAction::ServeStubStatus { json: true })
        } else {
            (Stage::Challenge, ProxyAction::CheckChallenge)
        };
        let flow = RequestFlow {
            stage,
            head,
            body: Vec::new(),
            can_cache: false,
            cache_status: CacheStatus::Miss,
            cache_key,
            upstream_status: 0,
            upstream_headers: Vec::new(),
            upstream_body: Vec::new(),
        };
        (flow, action)
    }

    /// The ACME manager's answer: a key authorization is sent as is;
    /// otherwise the WebSocket check comes next.
    pub fn on_challenge(&mut self, answer: Option<String>) -> (r: ProxyAction)
        requires
            old(self).stage == Stage::Challenge,
        ensures
            final(self).head == old(self).head,
            final(self).cache_key == old(self).cache_key,
            match answer {
                Some(k) => final(self).stage == Stage::Finished && (r matches ProxyAction::Respond(rep)
                    && plain_reply(rep) && response_view(rep.response) == (
                    200u16,
                    seq![("Content-Type"@, text_of("application/octet-stream"@))],
                    text_of(k@),
                )),
                None => final(self).stage == Stage::WebSocket && r is CheckWebSocket,
            },
    {
        match answer {
            Some(k) => {
                self.stage = Stage::Finished;
                let mut headers: Vec<(String, Vec<u8>)> = Vec::new();
                headers.push(field("Content-Type", "application/octet-stream"));
                assert(fields_view(headers@) =~= seq![("Content-Type"@, text_of("application/octet-stream"@))]);
                ProxyAction::Respond(plain(ProxyResponse { status: 200, headers, body: bytes_of(k.as_str()) }))
            },
            None => {
                self.stage = Stage::WebSocket;
                ProxyAction::CheckWebSocket
            },
        }
    }
}

// ---------------------------------------------------------------------------
// The steps after the challenge
// ---------------------------------------------------------------------------

pub open spec fn auth_fields(a: AuthResponse) -> Seq<(Seq<char>, Seq<u8>)> {
    match a.www_authenticate {
        Some(w) => seq![("www-authenticate"@, w@)],
        None => Seq::empty(),
    }
}

fn auth_response(a: AuthResponse) -> (r: ProxyResponse)
    ensures
        response_view(r) == (a.status, auth_fields(a), a.body@),
{
    let mut headers: Vec<(String, Vec<u8>)> = Vec::new();
    match a.www_authenticate {
        Some(w) => {
            headers.push((to_owned("www-authenticate"), w));
        },
        None => {},
    }
    assert(fields_view(headers@) =~= auth_fields(a));
    ProxyResponse { status: a.status, headers, body: a.body }
}

/// Field pairs with their values as text (`to_str().unwrap_or("")`).
pub open spec fn text_pairs(hs: Seq<(String, Vec<u8>)>) -> Seq<(Seq<char>, Seq<char>)> {
    hs.map_values(|h: (String, Vec<u8>)| (h.0@, value_text(h.1@)))
}

fn text_pairs_exec(hs: &Vec<(String, Vec<u8>)>) -> (r: Vec<(String, String)>)
    ensures
        pairs_view(r@) == text_pairs(hs@),
{
    let mut out: Vec<(String, String)> = Vec::new();
    let mut i: usize = 0;
    while i < hs.len()
        invariant
            i <= hs@.len(),
            pairs_view(out@) == text_pairs(hs@.take(i as int)),
        decreases hs@.len() - i,
    {
        let ghost before = out@;
        let item = (to_owned(hs[i].0.as_str()), value_text_exec(hs[i].1.as_slice()));
        out.push(item);
        assert(pairs_view(out@) =~= pairs_view(before).push((hs@[i as int].0@, value_text(hs@[i as int].1@))));
        assert(hs@.take(i + 1) =~= hs@.take(i as int).push(hs@[i as int]));
        assert(text_pairs(hs@.take(i + 1)) =~= text_pairs(hs@.take(i as int)).push(
            (hs@[i as int].0@, value_text(hs@[i as int].1@)),
        ));
        i += 1;
    }
    assert(hs@.take(hs@.len() as int) =~= hs@);
    out
}

/// The fields without those named `name`.
pub open spec fn without_field(fs: Seq<(Seq<char>, Seq<u8>)>, name: Seq<char>) -> Seq<(Seq<char>, Seq<u8>)>
    decreases fs.len(),
{
    if fs.len() == 0 {
        Seq::empty()
    } else {
        let rest = without_field(fs.drop_last(), name);
        if unicode_lower(fs.last().0) == name {
            rest
        } else {
            rest.push(fs.last())
        }
    }
}

/// The fields with `X-Cache-Status` set (any earlier one replaced).
pub open spec fn with_cache_status(fs: Seq<(Seq<char>, Seq<u8>)>, status: Seq<char>) -> Seq<(Seq<char>, Seq<u8>)> {
    without_field(fs, "x-cache-status"@).push(("x-cache-status"@, text_of(status)))
}

fn set_cache_status(hs: Vec<(String, Vec<u8>)>, status: &str) -> (r: Vec<(String, Vec<u8>)>)
    ensures
        fields_view(r@) == with_cache_status(fields_view(hs@), status@),
{
    let ghost fs = fields_view(hs@);
    let mut out: Vec<(String, Vec<u8>)> = Vec::new();
    let mut rest = hs;
    let mut i: usize = 0;
    let total = rest.len();
    assert(rest@ =~= hs@.skip(0));
    while rest.len() > 0
        invariant
            i <= total == hs@.len(),
            rest@ == hs@.skip(i as int),
            fs == fields_view(hs@),
            fields_view(out@) == without_field(fs.take(i as int), "x-cache-status"@),
        decreases rest@.len(),
    {
        let h = rest.remove(0);
        assert(h == hs@[i as int]);
        assert(rest@ =~= hs@.skip(i + 1));
        assert(fs.take(i + 1).drop_last() =~= fs.take(i as int));
        assert(fs.take(i + 1).last() == field_view(h));
        let lower = to_lowercase(h.0.as_str());
        if !str_eq(lower.as_str(), "x-cache-status") {
            let ghost before = out@;
            out.push(h);
            assert(fields_view(out@) =~= fields_view(before).push(field_view(h)));
        }
        i += 1;
    }
    assert(fs.take(total as int) =~= fs);
    let ghost before = out@;
    out.push(field("x-cache-status", status));
    assert(fields_view(out@) =~= fields_view(before).push(("x-cache-status"@, text_of(status@))));
    out
}

/// The request a CGI backend gets of a flow: method, path, query, fields and
/// the body as one chunk (none if empty).
pub open spec fn cgi_of(req: CgiRequest, f: RequestFlow) -> bool {
    &&& req.method@ == f.head.method@
    &&& req.path@ == f.head.path@
    &&& req.spec_query() == match f.head.query {
        Some(q) => Some(q@),
        None => None::<Seq<char>>,
    }
    &&& req.spec_headers() == fields_view(f.head.headers@)
    &&& req.spec_body() == if f.body@.len() == 0 {
        Seq::<Seq<u8>>::empty()
    } else {
        seq![f.body@]
    }
}

/// The step to the upstream: a FastCGI or SCGI backend gets the request's
/// bytes and the flow waits for the dispatch; an HTTP upstream gets the
/// request and the flow waits for its answer.
pub open spec fn forward_step(f0: RequestFlow, f1: RequestFlow, p: HttpProxy, r: ProxyAction, miss: bool) -> bool {
    let u = p.spec_config().upstream_addr@;
    let pq = f0.head.path_and_query@;
    &&& f1.cache_key == f0.cache_key
    &&& if is_prefix_of("fastcgi://"@, u) {
        &&& f1.stage == Stage::Dispatched
        &&& f1.upstream_status == 200
        &&& fields_view(f1.upstream_headers@) == seq![("X-FastCGI-Status"@, text_of("Dispatched"@))]
        &&& f1.upstream_body@ == text_of("FCGI Response Stubs"@)
        &&& r matches ProxyAction::Dispatch { addr, request, cache_miss } && addr@ == strip_all(u, "fastcgi://"@)
            && cache_miss == miss && exists|req: CgiRequest| cgi_of(req, f0) && request@ == #[trigger] fastcgi_request(&req, 1, "/var/www/index.php"@)
    } else if is_prefix_of("scgi://"@, u) {
        &&& f1.stage == Stage::Dispatched
        &&& f1.upstream_status == 200
        &&& fields_view(f1.upstream_headers@) == seq![("X-SCGI-Status"@, text_of("Dispatched"@))]
        &&& f1.upstream_body@ == text_of("SCGI Response Stubs"@)
        &&& r matches ProxyAction::Dispatch { addr, request, cache_miss } && addr@ == strip_all(u, "scgi://"@)
            && cache_miss == miss && exists|req: CgiRequest| cgi_of(req, f0) && request@ == #[trigger] scgi_request(&req)
    } else {
        &&& f1.stage == Stage::Upstream
        &&& r matches ProxyAction::Forward { plan, cache_miss } && cache_miss == miss && plan.method@
            == f0.head.method@ && plan.url@ == upstream_url(u, pq) && plan.grpc == is_prefix_of("grpc://"@, u)
            && pairs_view(plan.headers@) == plan_fields(f0.head.headers@, plan.grpc) && match plan.body {
            Some(b) => f0.body@.len() > 0 && b@ == f0.body@,
            None => f0.body@.len() == 0,
        }
    }
}

impl RequestFlow {
    fn cgi_request(&self) -> (r: CgiRequest)
        ensures
            cgi_of(r, *self),
    {
        let body: Vec<Vec<u8>> = if self.body.len() == 0 {
            Vec::new()
        } else {
            let mut v: Vec<Vec<u8>> = Vec::new();
            v.push(vstd::slice::slice_to_vec(self.body.as_slice()));
            v
        };
        let query = match &self.head.query {
            Some(q) => Some(to_owned(q.as_str())),
            None => None,
        };
        let r = CgiRequest {
            method: to_owned(self.head.method.as_str()),
            path: to_owned(self.head.path.as_str()),
            query,
            headers: copy_fields(&self.head.headers),
            body,
        };
        assert(r.spec_headers() =~= fields_view(self.head.headers@));
        assert(r.spec_body() =~= (if self.body@.len() == 0 {
            Seq::<Seq<u8>>::empty()
        } else {
            seq![self.body@]
        }));
        r
    }

    /// Hands the request to the upstream.
    fn forward(&mut self, proxy: &HttpProxy, miss: bool) -> (r: ProxyAction)
        ensures
            forward_step(*old(self), *final(self), *proxy, r, miss),
            final(self).head == old(self).head,
            final(self).can_cache == old(self).can_cache,
            final(self).cache_status == old(self).cache_status,
    {
        let target = upstream_target(proxy.config.upstream_addr.as_str(), self.head.path_and_query.as_str());
        proof {
            reveal_strlit("fastcgi://");
            reveal_strlit("scgi://");
        }
        match target {
            UpstreamTarget::FastCgi { addr } => {
                let req = self.cgi_request();
                let request = FastCgiClient::encode_request(&req, 1, "/var/www/index.php");
                let ghost g = req;
                assert(cgi_of(g, *old(self)) && request@ == fastcgi_request(&g, 1, "/var/www/index.php"@));
                self.stage = Stage::Dispatched;
                self.upstream_status = 200;
                let mut hs: Vec<(String, Vec<u8>)> = Vec::new();
                hs.push(field("X-FastCGI-Status", "Dispatched"));
                assert(fields_view(hs@) =~= seq![("X-FastCGI-Status"@, text_of("Dispatched"@))]);
                self.upstream_headers = hs;
                self.upstream_body = bytes_of("FCGI Response Stubs");
                ProxyAction::Dispatch { addr, request, cache_miss: miss }
            },
            UpstreamTarget::Scgi { addr } => {
                let req = self.cgi_request();
                let request = ScgiClient::encode_request(&req);
                let ghost g = req;
                assert(cgi_of(g, *old(self)) && request@ == scgi_request(&g));
                self.stage = Stage::Dispatched;
                self.upstream_status = 200;
                let mut hs: Vec<(String, Vec<u8>)> = Vec::new();
                hs.push(field("X-SCGI-Status", "Dispatched"));
                assert(fields_view(hs@) =~= seq![("X-SCGI-Status"@, text_of("Dispatched"@))]);
                self.upstream_headers = hs;
                self.upstream_body = bytes_of("SCGI Response Stubs");
                ProxyAction::Dispatch { addr, request, cache_miss: miss }
            },
            UpstreamTarget::Http { url, grpc } => {
                let mut body: Vec<u8> = Vec::new();
                std::mem::swap(&mut body, &mut self.body);
                let plan = forward_plan(self.head.method.as_str(), url, grpc, &self.head.headers, body);
                self.stage = Stage::Upstream;
                ProxyAction::Forward { plan, cache_miss: miss }
            },
        }
    }
}

// ---------------------------------------------------------------------------
// Built-in endpoints and the cache
// ---------------------------------------------------------------------------

impl HttpProxy {
    /// The settings, bypass and lifetime rules and locations of two proxies
    /// agree; only the cache's contents may differ.
    pub open spec fn same_settings(self, other: HttpProxy) -> bool {
        &&& other.spec_config() == self.spec_config()
        &&& other.spec_ttl() == self.spec_ttl()
        &&& other.spec_bypass() == self.spec_bypass()
        &&& other.spec_locations() == self.spec_locations()
        &&& other.has_cache() == self.has_cache()
        &&& other.cache_ok()
    }

    /// Whether a request may be answered from (and stored into) the cache:
    /// there is a cache and the request is not to bypass it.
    pub open spec fn cache_allowed(self, f: RequestFlow) -> bool {
        self.has_cache() && !spec_should_bypass(
            self.spec_bypass().bypass_headers@,
            self.spec_bypass().cacheable_methods@,
            f.head.method@,
            text_pairs(f.head.headers@),
        )
    }
}

/// A lookup in the cache: a found entry becomes the most recent; nothing
/// else changes.
pub open spec fn after_lookup(c0: MemoryCache, c1: MemoryCache, k: Seq<char>) -> bool {
    &&& c1.wf()
    &&& c1.spec_capacity() == c0.spec_capacity()
    &&& c1.spec_current_bytes() == c0.spec_current_bytes()
    &&& c1.spec_max_bytes() == c0.spec_max_bytes()
    &&& c1.spec_min_uses() == c0.spec_min_uses()
    &&& c1.spec_counts() == c0.spec_counts()
    &&& match lru_pos(c0.spec_entries(), k) {
        Some(i) => c1.spec_entries() == seq![c0.spec_entries()[i]] + c0.spec_entries().remove(i),
        None => c1.spec_entries() == c0.spec_entries(),
    }
}

/// A response served from the cache: the entry's status and body, its
/// fields and then `X-Cache-Status: HIT`; the request and the hit are
/// recorded.
pub open spec fn hit_reply(r: ProxyAction, e: crate::proxy_cache::EntryView) -> bool {
    r matches ProxyAction::Respond(rep) && rep.record_request && !rep.record_energy && rep.store is None
        && rep.cache_hit_bytes == Some(e.body.len() as u64) && rep.response.status == e.status
        && rep.response.body@ == e.body && fields_view(rep.response.headers@).len() > 0
        && fields_view(rep.response.headers@).drop_last() == stored_fields(e.headers)
        && fields_view(rep.response.headers@).last() == ("x-cache-status"@, text_of("HIT"@))
}

/// A cached entry's header fields as sent: names as they are, values
/// encoded as UTF-8, in the order they were stored.
pub open spec fn stored_fields(hs: Seq<(Seq<char>, Seq<char>)>) -> Seq<(Seq<char>, Seq<u8>)> {
    hs.map_values(|h: (Seq<char>, Seq<char>)| (h.0, text_of(h.1)))
}

/// The cache phase: a request the cache may answer is looked up; a fresh
/// entry answers it; otherwise (or when the entry has expired, which the
/// clock decides) the request goes upstream, counted as a miss where the
/// cache was asked.
pub open spec fn cache_step(f0: RequestFlow, f1: RequestFlow, p0: HttpProxy, p1: HttpProxy, r: ProxyAction) -> bool {
    let can = p0.cache_allowed(f0);
    &&& f1.can_cache == can
    &&& f1.head == f0.head
    &&& p0.same_settings(p1)
    &&& if can {
        let es = p0.spec_cache().spec_entries();
        &&& after_lookup(p0.spec_cache(), p1.spec_cache(), f0.cache_key.key@)
        &&& match lru_pos(es, f0.cache_key.key@) {
            Some(i) => (f1.stage == Stage::Finished && hit_reply(r, es[i].1)) || (f1.cache_status
                == CacheStatus::Expired && forward_step(f0, f1, p0, r, true)),
            None => f1.cache_status == CacheStatus::Miss && forward_step(f0, f1, p0, r, true),
        }
    } else {
        &&& p1 == p0
        &&& f1.cache_status == CacheStatus::Miss
        &&& forward_step(f0, f1, p0, r, false)
    }
}

fn hit_response(e: CacheEntry) -> (r: ProxyAction)
    ensures
        hit_reply(r, crate::proxy_cache::entry_view(e)),
{
    let mut hs: Vec<(String, Vec<u8>)> = Vec::new();
    let mut i: usize = 0;
    let ghost stored = crate::proxy_cache::entry_view(e).headers;
    while i < e.headers.len()
        invariant
            i <= e.headers@.len(),
            stored == e.headers@.map_values(|h: (String, String)| (h.0@, h.1@)),
            fields_view(hs@) =~= stored_fields(stored.take(i as int)),
        decreases e.headers@.len() - i,
    {
        let name = to_owned(e.headers[i].0.as_str());
        let value = bytes_of(e.headers[i].1.as_str());
        let ghost prev = hs@;
        hs.push((name, value));
        proof {
            assert(stored.take(i + 1) =~= stored.take(i as int).push(stored[i as int]));
            assert(fields_view(hs@) =~= fields_view(prev).push(field_view((name, value))));
        }
        i += 1;
    }
    assert(stored.take(e.headers@.len() as int) =~= stored);
    let ghost before = hs@;
    hs.push(field("x-cache-status", "HIT"));
    assert(fields_view(hs@) =~= fields_view(before).push(("x-cache-status"@, text_of("HIT"@))));
    assert(fields_view(hs@).drop_last() =~= fields_view(before));
    let n = e.body.len() as u64;
    ProxyAction::Respond(
        ProxyReply {
            response: ProxyResponse { status: e.status, headers: hs, body: e.body },
            record_request: true,
            record_energy: false,
            cache_hit_bytes: Some(n),
            store: None,
        },
    )
}

impl RequestFlow {
    fn cache_or_forward(&mut self, proxy: &mut HttpProxy) -> (r: ProxyAction)
        requires
            old(proxy).cache_ok(),
        ensures
            cache_step(*old(self), *final(self), *old(proxy), *final(proxy), r),
            final(self).cache_key == old(self).cache_key,
    {
        let pairs = text_pairs_exec(&self.head.headers);
        let can = proxy.memory_cache.is_some() && !proxy.bypass_check.should_bypass(
            self.head.method.as_str(),
            pairs.as_slice(),
        );
        self.can_cache = can;
        self.cache_status = CacheStatus::Miss;
        if !can {
            return self.forward(proxy, false);
        }
        let ghost c0 = proxy.memory_cache->0;
        let mut slot: Option<MemoryCache> = None;
        std::mem::swap(&mut slot, &mut proxy.memory_cache);
        let found = match slot {
            Some(mut c) => {
                let found = c.get(&self.cache_key);
                proxy.memory_cache = Some(c);
                found
            },
            None => None,
        };
        match found {
            Some(e) => {
                if !e.is_expired() {
                    self.stage = Stage::Finished;
                    return hit_response(e);
                }
                self.cache_status = CacheStatus::Expired;
            },
            None => {},
        }
        self.forward(proxy, true)
    }
}

pub open spec fn cors_fields() -> Seq<(Seq<char>, Seq<u8>)> {
    seq![
        ("Access-Control-Allow-Origin"@, text_of("*"@)),
        ("Access-Control-Allow-Methods"@, text_of("GET, POST, PUT, DELETE, OPTIONS"@)),
        ("Access-Control-Allow-Headers"@, text_of("Content-Type, Authorization"@)),
    ]
}

/// A reply that records the request and its energy estimate.
pub open spec fn full_reply(r: ProxyReply) -> bool {
    r.record_request && r.record_energy && r.cache_hit_bytes is None && r.store is None
}

pub open spec fn builtin_reply(r: ProxyAction, body: Seq<char>) -> bool {
    r matches ProxyAction::Respond(rep) && full_reply(rep) && response_view(rep.response) == (
        200u16,
        seq![("Access-Control-Allow-Origin"@, text_of("*"@))],
        text_of(body),
    )
}

/// What follows the static files: a preflight is answered; `GET /health`,
/// `/ready` and `/metrics` are the proxy's own; everything else goes to the
/// cache phase.
pub open spec fn local_step(f0: RequestFlow, f1: RequestFlow, p0: HttpProxy, p1: HttpProxy, r: ProxyAction) -> bool {
    let m = f0.head.method@;
    let path = f0.head.path@;
    if m == "OPTIONS"@ {
        &&& f1.stage == Stage::Finished
        &&& p1 == p0
        &&& r matches ProxyAction::Respond(rep) && plain_reply(rep) && response_view(rep.response) == (
            200u16,
            cors_fields(),
            Seq::<u8>::empty(),
        )
    } else if m == "GET"@ && path == "/health"@ {
        f1.stage == Stage::Finished && p1 == p0 && builtin_reply(r, "OK"@)
    } else if m == "GET"@ && path == "/ready"@ {
        f1.stage == Stage::Finished && p1 == p0 && builtin_reply(r, "{\"status\":\"ready\"}"@)
    } else if m == "GET"@ && path == "/metrics"@ {
        f1.stage == Stage::Metrics && f1.head == f0.head && p1 == p0 && r is RenderMetrics
    } else {
        cache_step(f0, f1, p0, p1, r)
    }
}

fn builtin(body: &str) -> (r: ProxyAction)
    ensures
        builtin_reply(r, body@),
{
    let mut headers: Vec<(String, Vec<u8>)> = Vec::new();
    headers.push(field("Access-Control-Allow-Origin", "*"));
    assert(fields_view(headers@) =~= seq![("Access-Control-Allow-Origin"@, text_of("*"@))]);
    ProxyAction::Respond(
        ProxyReply {
            response: ProxyResponse { status: 200, headers, body: bytes_of(body) },
            record_request: true,
            record_energy: true,
            cache_hit_bytes: None,
            store: None,
        },
    )
}

impl RequestFlow {
    fn local(&mut self, proxy: &mut HttpProxy) -> (r: ProxyAction)
        requires
            old(proxy).cache_ok(),
        ensures
            local_step(*old(self), *final(self), *old(proxy), *final(proxy), r),
            final(self).cache_key == old(self).cache_key,
    {
        let m = self.head.method.as_str();
        let get = str_eq(m, "GET");
        if str_eq(m, "OPTIONS") {
            self.stage = Stage::Finished;
            let resp = build_cors_preflight();
            assert(resp.body@ =~= Seq::<u8>::empty());
            return ProxyAction::Respond(plain(resp));
        }
        if get && str_eq(self.head.path.as_str(), "/health") {
            self.stage = Stage::Finished;
            return builtin("OK");
        }
        if get && str_eq(self.head.path.as_str(), "/ready") {
            self.stage = Stage::Finished;
            return builtin("{\"status\":\"ready\"}");
        }
        if get && str_eq(self.head.path.as_str(), "/metrics") {
            self.stage = Stage::Metrics;
            return ProxyAction::RenderMetrics;
        }
        self.cache_or_forward(proxy)
    }
}

// ---------------------------------------------------------------------------
// Finishing with the upstream's response
// ---------------------------------------------------------------------------

/// Fields with their values as text.
pub open spec fn text_fields(fs: Seq<(Seq<char>, Seq<u8>)>) -> Seq<(Seq<char>, Seq<char>)> {
    fs.map_values(|f: (Seq<char>, Seq<u8>)| (f.0, value_text(f.1)))
}

/// The last step: the upstream's response (`status`, `fs`, `body`) goes to
/// the client with `X-Cache-Status` set to the flow's cache status; where
/// the cache may hold it and its `Cache-Control` allows, it is offered to
/// the cache too.
pub open spec fn finish_result(
    f0: RequestFlow,
    f1: RequestFlow,
    r: ProxyAction,
    tc: TtlConfig,
    status: u16,
    fs: Seq<(Seq<char>, Seq<u8>)>,
    body: Seq<u8>,
) -> bool {
    let d = spec_parse_directives(field_text(fs, "cache-control"@));
    &&& f1.stage == Stage::Finished
    &&& r matches ProxyAction::Respond(rep) && rep.record_request && rep.record_energy
        && rep.cache_hit_bytes is None && response_view(rep.response) == (
        status,
        with_cache_status(fs, crate::proxy_cache::status_text(f0.cache_status)),
        body,
    ) && (rep.store is Some <==> (f0.can_cache && !d.no_store && !d.private && !d.no_cache)) && (
    rep.store matches Some(e) ==> e.key.key@ == f0.cache_key.key@ && e.status == status
        && pairs_view(e.headers@) == text_fields(fs) && e.body@ == body
        && e.ttl == crate::proxy_cache::spec_resolve_ttl(tc.status_ttls@, tc.default_ttl, status, d))
}

impl RequestFlow {
    fn finish(&mut self, proxy: &HttpProxy) -> (r: ProxyAction)
        ensures
            finish_result(
                *old(self),
                *final(self),
                r,
                proxy.spec_ttl(),
                old(self).upstream_status,
                fields_view(old(self).upstream_headers@),
                old(self).upstream_body@,
            ),
            final(self).cache_key == old(self).cache_key,
            final(self).can_cache == old(self).can_cache,
            final(self).cache_status == old(self).cache_status,
    {
        let ghost fs = fields_view(self.upstream_headers@);
        let mut store: Option<CacheEntry> = None;
        if self.can_cache {
            let cc = field_text_exec(&self.upstream_headers, "cache-control");
            let d = CacheDirectives::parse(cc.as_str());
            if d.is_cacheable() {
                let ttl = match proxy.ttl_config.resolve(self.upstream_status, &d) {
                    Some(t) => t,
                    None => 0,
                };
                let pairs = text_pairs_exec(&self.upstream_headers);
                assert(text_pairs(self.upstream_headers@) =~= text_fields(fs));
                let key = CacheKey { key: to_owned(self.cache_key.key.as_str()) };
                let entry = CacheEntry::new(
                    key,
                    self.upstream_status,
                    pairs,
                    vstd::slice::slice_to_vec(self.upstream_body.as_slice()),
                    ttl,
                );
                store = Some(entry);
            }
        }
        let mut hs: Vec<(String, Vec<u8>)> = Vec::new();
        std::mem::swap(&mut hs, &mut self.upstream_headers);
        let status_text = self.cache_status.as_str();
        let headers = set_cache_status(hs, status_text);
        let mut body: Vec<u8> = Vec::new();
        std::mem::swap(&mut body, &mut self.upstream_body);
        self.stage = Stage::Finished;
        ProxyAction::Respond(
            ProxyReply {
                response: ProxyResponse { status: self.upstream_status, headers, body },
                record_request: true,
                record_energy: true,
                cache_hit_bytes: None,
                store,
            },
        )
    }
}

// ---------------------------------------------------------------------------
// The steps, one per report
// ---------------------------------------------------------------------------

/// The response the location's `limit_except` gives a refused method.
pub open spec fn refused_reply(r: ProxyAction, text: Seq<char>) -> bool {
    r matches ProxyAction::Respond(rep) && counted_reply(rep) && response_view(rep.response) == (
        405u16,
        Seq::<(Seq<char>, Seq<u8>)>::empty(),
        text_of(text),
    )
}

impl RequestFlow {
    /// Whether the request asks for a WebSocket upgrade: such a request is
    /// handed over; otherwise the location that matches the path decides:
    /// a method its `limit_except` refuses is answered 405, a location with
    /// `auth_request` asks for the subrequest; else the body is read.
    pub fn on_websocket(&mut self, proxy: &HttpProxy, upgrade: bool) -> (r: ProxyAction)
        requires
            old(self).stage == Stage::WebSocket,
        ensures
            final(self).head == old(self).head,
            final(self).cache_key == old(self).cache_key,
            upgrade ==> final(self).stage == Stage::Finished && r is UpgradeWebSocket,
            !upgrade ==> match location_for(views(proxy.spec_locations()), old(self).head.path@) {
                Some(i) => {
                    let b = proxy.spec_locations()[i].config;
                    match refusal_text(&b.limit_except, old(self).head.method@) {
                        Some(t) => final(self).stage == Stage::Finished && refused_reply(r, t),
                        None => match b.auth_request {
                            Some(u) => final(self).stage == Stage::Auth && (r matches ProxyAction::CheckAuth {
                                auth_uri,
                                extract,
                            } && auth_uri@ == u@ && pairs_view(extract@) == pairs_view(b.auth_request_set@)),
                            None => final(self).stage == Stage::Body && r is ReadBody,
                        },
                    }
                },
                None => final(self).stage == Stage::Body && r is ReadBody,
            },
    {
        if upgrade {
            self.stage = Stage::Finished;
            return ProxyAction::UpgradeWebSocket;
        }
        match match_location(proxy.locations.as_slice(), self.head.path.as_str()) {
            Some(loc) => {
                match check_method(&loc.config.limit_except, self.head.method.as_str()) {
                    Some(text) => {
                        self.stage = Stage::Finished;
                        let headers: Vec<(String, Vec<u8>)> = Vec::new();
                        assert(fields_view(headers@) =~= Seq::<(Seq<char>, Seq<u8>)>::empty());
                        ProxyAction::Respond(
                            counted(ProxyResponse { status: 405, headers, body: bytes_of(text.as_str()) }),
                        )
                    },
                    None => match &loc.config.auth_request {
                        Some(u) => {
                            self.stage = Stage::Auth;
                            ProxyAction::CheckAuth {
                                auth_uri: to_owned(u.as_str()),
                                extract: copy_pairs(&loc.config.auth_request_set),
                            }
                        },
                        None => {
                            self.stage = Stage::Body;
                            ProxyAction::ReadBody
                        },
                    },
                }
            },
            None => {
                self.stage = Stage::Body;
                ProxyAction::ReadBody
            },
        }
    }

    /// The auth subrequest's decision: an allowed request goes on to its
    /// body; a denied or failed one is answered with the auth response.
    pub fn on_auth(&mut self, result: AuthResult) -> (r: ProxyAction)
        requires
            old(self).stage == Stage::Auth,
        ensures
            final(self).head == old(self).head,
            final(self).cache_key == old(self).cache_key,
            match result {
                AuthResult::Allowed(_) => final(self).stage == Stage::Body && r is ReadBody,
                AuthResult::Denied(a) | AuthResult::Error(a) => final(self).stage == Stage::Finished && (
                r matches ProxyAction::Respond(rep) && counted_reply(rep) && response_view(rep.response) == (
                    a.status,
                    auth_fields(a),
                    a.body@,
                )),
            },
    {
        match result {
            AuthResult::Allowed(_) => {
                self.stage = Stage::Body;
                ProxyAction::ReadBody
            },
            AuthResult::Denied(a) => {
                self.stage = Stage::Finished;
                ProxyAction::Respond(counted(auth_response(a)))
            },
            AuthResult::Error(a) => {
                self.stage = Stage::Finished;
                ProxyAction::Respond(counted(auth_response(a)))
            },
        }
    }

    /// The request body: `GET` and `HEAD` ask the static files first; other
    /// methods go on at once.
    pub fn on_body(&mut self, proxy: &mut HttpProxy, body: Vec<u8>) -> (r: ProxyAction)
        requires
            old(self).stage == Stage::Body,
            old(proxy).cache_ok(),
        ensures
            final(self).cache_key == old(self).cache_key,
            (old(self).head.method@ == "GET"@ || old(self).head.method@ == "HEAD"@) ==> final(self).stage
                == Stage::Static && r is TryStatic && final(self).body@ == body@ && final(self).head
                == old(self).head && *final(proxy) == *old(proxy),
            !(old(self).head.method@ == "GET"@ || old(self).head.method@ == "HEAD"@) ==> local_step(
                RequestFlow { body: body, ..*old(self) },
                *final(self),
                *old(proxy),
                *final(proxy),
                r,
            ),
    {
        self.body = body;
        if str_eq(self.head.method.as_str(), "GET") || str_eq(self.head.method.as_str(), "HEAD") {
            self.stage = Stage::Static;
            return ProxyAction::TryStatic;
        }
        self.local(proxy)
    }

    /// The static file server's answer: a sent file ends the request; a
    /// refused path is answered 400, 403 or 500 with the reason; otherwise
    /// the request goes on.
    pub fn on_static(&mut self, proxy: &mut HttpProxy, outcome: StaticOutcome) -> (r: ProxyAction)
        requires
            old(self).stage == Stage::Static,
            old(proxy).cache_ok(),
        ensures
            final(self).cache_key == old(self).cache_key,
            match outcome {
                StaticOutcome::Served => final(self).stage == Stage::Finished && r is Finished,
                StaticOutcome::PathTraversal(m) => final(self).stage == Stage::Finished && (
                r matches ProxyAction::Respond(rep) && plain_reply(rep) && response_view(rep.response) == (
                    400u16,
                    Seq::<(Seq<char>, Seq<u8>)>::empty(),
                    text_of(m@),
                )),
                StaticOutcome::Forbidden(m) => final(self).stage == Stage::Finished && (
                r matches ProxyAction::Respond(rep) && plain_reply(rep) && response_view(rep.response) == (
                    403u16,
                    Seq::<(Seq<char>, Seq<u8>)>::empty(),
                    text_of(m@),
                )),
                StaticOutcome::Io(m) => final(self).stage == Stage::Finished && (
                r matches ProxyAction::Respond(rep) && plain_reply(rep) && response_view(rep.response) == (
                    500u16,
                    Seq::<(Seq<char>, Seq<u8>)>::empty(),
                    text_of(m@),
                )),
                StaticOutcome::Skipped => local_step(*old(self), *final(self), *old(proxy), *final(proxy), r),
            },
            !(outcome is Skipped) ==> *final(proxy) == *old(proxy),
    {
        let (status, message) = match outcome {
            StaticOutcome::Served => {
                self.stage = Stage::Finished;
                return ProxyAction::Finished;
            },
            StaticOutcome::Skipped => {
                return self.local(proxy);
            },
            StaticOutcome::PathTraversal(m) => (400u16, m),
            StaticOutcome::Forbidden(m) => (403u16, m),
            StaticOutcome::Io(m) => (500u16, m),
        };
        self.stage = Stage::Finished;
        let headers: Vec<(String, Vec<u8>)> = Vec::new();
        assert(fields_view(headers@) =~= Seq::<(Seq<char>, Seq<u8>)>::empty());
        ProxyAction::Respond(plain(ProxyResponse { status, headers, body: bytes_of(message.as_str()) }))
    }

    /// The rendered metrics (none where the exporter is not set up).
    pub fn on_metrics(&mut self, text: Option<String>) -> (r: ProxyAction)
        requires
            old(self).stage == Stage::Metrics,
        ensures
            final(self).stage == Stage::Finished,
            r matches ProxyAction::Respond(rep) && full_reply(rep) && response_view(rep.response) == (
                200u16,
                seq![
                    ("content-type"@, text_of("text/plain; version=0.0.4"@)),
                    ("Access-Control-Allow-Origin"@, text_of("*"@)),
                ],
                text_of(
                    match text {
                        Some(t) => t@,
                        None => "# metrics not initialized"@,
                    },
                ),
            ),
    {
        let body = match text {
            Some(t) => bytes_of(t.as_str()),
            None => bytes_of("# metrics not initialized"),
        };
        let mut headers: Vec<(String, Vec<u8>)> = Vec::new();
        headers.push(field("content-type", "text/plain; version=0.0.4"));
        headers.push(field("Access-Control-Allow-Origin", "*"));
        assert(fields_view(headers@) =~= seq![
            ("content-type"@, text_of("text/plain; version=0.0.4"@)),
            ("Access-Control-Allow-Origin"@, text_of("*"@)),
        ]);
        self.stage = Stage::Finished;
        ProxyAction::Respond(
            ProxyReply {
                response: ProxyResponse { status: 200, headers, body },
                record_request: true,
                record_energy: true,
                cache_hit_bytes: None,
                store: None,
            },
        )
    }

    /// The FastCGI or SCGI request went out: the backend's stub answer
    /// finishes the request.
    pub fn on_dispatched(&mut self, proxy: &HttpProxy) -> (r: ProxyAction)
        requires
            old(self).stage == Stage::Dispatched,
        ensures
            finish_result(
                *old(self),
                *final(self),
                r,
                proxy.spec_ttl(),
                old(self).upstream_status,
                fields_view(old(self).upstream_headers@),
                old(self).upstream_body@,
            ),
    {
        self.finish(proxy)
    }

    /// The upstream's answer: a failure becomes a 502 JSON error that
    /// finishes the request; a streaming response (server-sent events, or
    /// buffering off) is passed on as it comes, marked `BYPASS`; otherwise
    /// its body is read.
    pub fn on_upstream(&mut self, proxy: &HttpProxy, reply: UpstreamReply) -> (r: ProxyAction)
        requires
            old(self).stage == Stage::Upstream,
        ensures
            final(self).cache_key == old(self).cache_key,
            final(self).can_cache == old(self).can_cache,
            final(self).cache_status == old(self).cache_status,
            match reply {
                UpstreamReply::Failed(e) => finish_result(
                    *old(self),
                    *final(self),
                    r,
                    proxy.spec_ttl(),
                    502,
                    seq![
                        ("content-type"@, text_of("application/json"@)),
                        ("Access-Control-Allow-Origin"@, text_of("*"@)),
                    ],
                    text_of(error_body("Upstream error: "@ + e@)),
                ),
                UpstreamReply::Answered(h) => if unbuffered(fields_view(h.headers@)) {
                    final(self).stage == Stage::Finished && (r matches ProxyAction::StreamThrough {
                        status,
                        headers,
                    } && status == h.status && fields_view(headers@) == with_cache_status(
                        fields_view(h.headers@),
                        "BYPASS"@,
                    ))
                } else {
                    final(self).stage == Stage::UpstreamBody && r is ReadUpstreamBody
                        && final(self).upstream_status == h.status && fields_view(
                        final(self).upstream_headers@,
                    ) == fields_view(h.headers@)
                },
            },
    {
        match reply {
            UpstreamReply::Failed(e) => {
                let mut message = to_owned("Upstream error: ");
                push_str(&mut message, e.as_str());
                let resp = build_error_response(502, message.as_str());
                self.upstream_status = resp.status;
                self.upstream_headers = resp.headers;
                self.upstream_body = resp.body;
                self.finish(proxy)
            },
            UpstreamReply::Answered(h) => {
                if is_unbuffered(&h.headers) {
                    self.stage = Stage::Finished;
                    let headers = set_cache_status(h.headers, "BYPASS");
                    proof {
                        reveal_strlit("BYPASS");
                    }
                    ProxyAction::StreamThrough { status: h.status, headers }
                } else {
                    self.stage = Stage::UpstreamBody;
                    self.upstream_status = h.status;
                    self.upstream_headers = h.headers;
                    ProxyAction::ReadUpstreamBody
                }
            },
        }
    }

    /// The upstream body: a failed read is answered with a 502 JSON error;
    /// otherwise the response finishes the request.
    pub fn on_upstream_body(&mut self, proxy: &HttpProxy, body: Option<Vec<u8>>) -> (r: ProxyAction)
        requires
            old(self).stage == Stage::UpstreamBody,
        ensures
            match body {
                None => final(self).stage == Stage::Finished && (r matches ProxyAction::Respond(rep)
                    && plain_reply(rep) && response_view(rep.response) == (
                    502u16,
                    seq![
                        ("content-type"@, text_of("application/json"@)),
                        ("Access-Control-Allow-Origin"@, text_of("*"@)),
                    ],
                    text_of(error_body("Upstream body read error"@)),
                )),
                Some(b) => finish_result(
                    *old(self),
                    *final(self),
                    r,
                    proxy.spec_ttl(),
                    old(self).upstream_status,
                    fields_view(old(self).upstream_headers@),
                    b@,
                ),
            },
    {
        match body {
            None => {
                self.stage = Stage::Finished;
                ProxyAction::Respond(plain(build_error_response(502, "Upstream body read error")))
            },
            Some(b) => {
                self.upstream_body = b;
                self.finish(proxy)
            },
        }
    }
}

impl HttpProxy {
    /// Offers a response to the cache, where there is one (and its counts
    /// have room); answers the cache's size in bytes afterwards.
    pub fn offer(&mut self, entry: CacheEntry) -> (r: Option<usize>)
        requires
            old(self).cache_ok(),
        ensures
            old(self).same_settings(*final(self)),
            r is Some <==> old(self).has_cache(),
            r matches Some(n) ==> n == final(self).spec_cache().spec_current_bytes(),
            old(self).has_cache() ==> if crate::discovery::counter_of(
                old(self).spec_cache().spec_counts(),
                entry.key.key@,
            ) < usize::MAX && old(self).spec_cache().spec_current_bytes() + entry.size <= usize::MAX {
                exists|stored: bool|
                    crate::proxy_cache::put_effect(old(self).spec_cache(), final(self).spec_cache(), entry, stored)
            } else {
                final(self).spec_cache() == old(self).spec_cache()
            },
    {
        let mut slot: Option<MemoryCache> = None;
        std::mem::swap(&mut slot, &mut self.memory_cache);
        match slot {
            Some(mut c) => {
                let ghost e = entry;
                let ghost mut stored = false;
                let guarded = c.uses_of(entry.key.key.as_str()) < usize::MAX && entry.size <= usize::MAX
                    - c.current_bytes();
                if guarded {
                    let done = c.put(entry);
                    proof {
                        stored = done;
                    }
                }
                let n = c.current_bytes();
                self.memory_cache = Some(c);
                if guarded {
                    assert(crate::proxy_cache::put_effect(old(self).spec_cache(), self.spec_cache(), e, stored));
                }
                Some(n)
            },
            None => None,
        }
    }
}

// ---------------------------------------------------------------------------
// The plain-HTTP server beside automatic HTTPS
// ---------------------------------------------------------------------------

/// The URL a plain-HTTP request is sent on to: `https://<host><path and
/// query>`.
pub open spec fn https_location(host: Seq<char>, path_and_query: Seq<char>) -> Seq<char> {
    "https://"@ + host + path_and_query
}

/// What the plain-HTTP server answers: a pending HTTP-01 challenge for the
/// path gets its key authorization; everything else is moved permanently to
/// HTTPS. `host` is the `Host` header's text (empty where it is absent or not
/// visible ASCII).
pub fn acme_redirect_reply(
    manager: &crate::acme::AcmeManager,
    path: &str,
    host: &str,
    path_and_query: &str,
) -> (r: ProxyResponse)
    ensures
        match crate::acme::challenge_answer(manager.spec_challenges(), path@) {
            Some(k) => r.status == 200 && fields_view(r.headers@) == seq![
                ("Content-Type"@, text_of("application/octet-stream"@)),
            ] && r.body@ == text_of(k),
            None => r.status == 301 && fields_view(r.headers@) == seq![
                ("Location"@, text_of(https_location(host@, path_and_query@))),
            ] && r.body@.len() == 0,
        },
{
    match manager.check_http_challenge(path) {
        Some(key_auth) => {
            let mut headers: Vec<(String, Vec<u8>)> = Vec::new();
            headers.push(field("Content-Type", "application/octet-stream"));
            assert(fields_view(headers@) =~= seq![("Content-Type"@, text_of("application/octet-stream"@))]);
            ProxyResponse { status: 200, headers, body: bytes_of(key_auth.as_str()) }
        },
        None => {
            let mut url = to_owned("https://");
            push_str(&mut url, host);
            push_str(&mut url, path_and_query);
            let mut headers: Vec<(String, Vec<u8>)> = Vec::new();
            headers.push(field("Location", url.as_str()));
            proof {
                reveal_strlit("https://");
            }
            assert(fields_view(headers@) =~= seq![("Location"@, text_of(https_location(host@, path_and_query@)))]);
            ProxyResponse { status: 301, headers, body: Vec::new() }
        },
    }
}

} // verus!
