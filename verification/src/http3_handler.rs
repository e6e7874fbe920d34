//! HTTP/3 requests and responses, and the handler's routing: replayed
//! early data, the built-in endpoints, and what goes upstream.

use vstd::prelude::*;
use crate::cgi::{chars_of_bytes, visible_ascii};
use crate::http_proxy::{pairs_view, strip_all};
use crate::text::{
    chars_of, is_ascii_alnum, push_str, str_eq, str_starts_with, to_lowercase, to_owned, unicode_lower,
};

verus! {

/// HTTP/3 connection handler configuration
#[derive(Debug, Clone, Copy)]
pub struct Http3Config {
    /// Maximum concurrent streams per connection
    pub max_concurrent_streams: u32,
    /// Request body size limit
    pub max_body_size: usize,
    /// Enable request logging
    pub log_requests: bool,
}

impl Default for Http3Config {
    fn default() -> (r: Self)
        ensures
            r.max_concurrent_streams == 100,
            r.max_body_size == 16 * 1024 * 1024,
            r.log_requests,
    {
        Self { max_concurrent_streams: 100, max_body_size: 16 * 1024 * 1024, log_requests: true }
    }
}

/// A body: none, bytes, or a stream that the server carries beside.
#[derive(Debug)]
pub enum HttpBodyType {
    Empty,
    Bytes(Vec<u8>),
    Stream,
}

impl HttpBodyType {
    pub open spec fn spec_is_empty(&self) -> bool {
        match self {
            HttpBodyType::Empty => true,
            HttpBodyType::Bytes(b) => b@.len() == 0,
            HttpBodyType::Stream => false,
        }
    }

    /// Whether the body has no bytes (a stream never counts as empty).
    pub fn is_empty(&self) -> (r: bool)
        ensures
            r == self.spec_is_empty(),
    {
        match self {
            HttpBodyType::Empty => true,
            HttpBodyType::Bytes(b) => b.len() == 0,
            HttpBodyType::Stream => false,
        }
    }

    /// The bytes of the body; a stream has none at hand.
    pub fn as_bytes(&self) -> (r: Option<&[u8]>)
        ensures
            match self {
                HttpBodyType::Empty => r matches Some(b) && b@.len() == 0,
                HttpBodyType::Bytes(v) => r matches Some(b) && b@ == v@,
                HttpBodyType::Stream => r is None,
            },
    {
        match self {
            HttpBodyType::Empty => Some(&[]),
            HttpBodyType::Bytes(b) => Some(b.as_slice()),
            HttpBodyType::Stream => None,
        }
    }

    /// Whether the body is exactly these bytes (an empty body equals no bytes;
    /// a stream equals nothing).
    pub fn eq_bytes(&self, other: &[u8]) -> (r: bool)
        ensures
            r == match self {
                HttpBodyType::Empty => other@.len() == 0,
                HttpBodyType::Bytes(b) => b@ == other@,
                HttpBodyType::Stream => false,
            },
    {
        match self {
            HttpBodyType::Empty => other.len() == 0,
            HttpBodyType::Bytes(b) => {
                if b.len() != other.len() {
                    assert(b@.len() != other@.len());
                    return false;
                }
                let mut i: usize = 0;
                while i < b.len()
                    invariant
                        i <= b@.len() == other@.len(),
                        forall|j: int| 0 <= j < i ==> b@[j] == other@[j],
                        *self == HttpBodyType::Bytes(*b),
                    decreases b@.len() - i,
                {
                    if b[i] != other[i] {
                        assert(b@[i as int] != other@[i as int]);
                        return false;
                    }
                    i += 1;
                }
                assert(b@ =~= other@);
                true
            },
            HttpBodyType::Stream => false,
        }
    }
}

/// An HTTP/3 request.
#[derive(Debug)]
pub struct Http3Request {
    pub method: String,
    pub path: String,
    pub headers: Vec<(String, String)>,
    pub body: HttpBodyType,
}

impl Http3Request {
    pub fn new(method: &str, path: &str) -> (r: Self)
        ensures
            r.method@ == method@,
            r.path@ == path@,
            r.headers@.len() == 0,
            r.body is Empty,
    {
        Http3Request { method: to_owned(method), path: to_owned(path), headers: Vec::new(), body: HttpBodyType::Empty }
    }

    /// The request with one more header.
    pub fn with_header(self, name: &str, value: &str) -> (r: Self)
        ensures
            r.method == self.method,
            r.path == self.path,
            r.body == self.body,
            pairs_view(r.headers@) == pairs_view(self.headers@).push((name@, value@)),
    {
        let mut s = self;
        let ghost before = s.headers@;
        s.headers.push((to_owned(name), to_owned(value)));
        assert(pairs_view(s.headers@) =~= pairs_view(before).push((name@, value@)));
        s
    }

    pub fn with_body(self, body: Vec<u8>) -> (r: Self)
        ensures
            r.method == self.method,
            r.path == self.path,
            r.headers == self.headers,
            r.body == HttpBodyType::Bytes(body),
    {
        Http3Request { body: HttpBodyType::Bytes(body), ..self }
    }

    pub fn with_stream_body(self) -> (r: Self)
        ensures
            r.method == self.method,
            r.path == self.path,
            r.headers == self.headers,
            r.body is Stream,
    {
        Http3Request { body: HttpBodyType::Stream, ..self }
    }
}

/// An HTTP/3 response.
#[derive(Debug)]
pub struct Http3Response {
    pub status: u16,
    pub headers: Vec<(String, String)>,
    pub body: HttpBodyType,
}

pub open spec fn bytes_view(b: HttpBodyType) -> Option<Seq<u8>> {
    match b {
        HttpBodyType::Empty => Some(Seq::empty()),
        HttpBodyType::Bytes(v) => Some(v@),
        HttpBodyType::Stream => None,
    }
}

fn bytes_of(s: &str) -> (r: Vec<u8>)
    ensures
        r@ == vstd::utf8::encode_utf8(s@),
{
    vstd::slice::slice_to_vec(s.as_bytes())
}

impl Http3Response {
    pub fn new(status: u16) -> (r: Self)
        ensures
            r.status == status,
            r.headers@.len() == 0,
            r.body is Empty,
    {
        Http3Response { status, headers: Vec::new(), body: HttpBodyType::Empty }
    }

    /// 200 with a JSON content type and the body.
    pub fn ok(body: Vec<u8>) -> (r: Self)
        ensures
            r.status == 200,
            pairs_view(r.headers@) == seq![("content-type"@, "application/json"@)],
            r.body == HttpBodyType::Bytes(body),
    {
        let mut headers: Vec<(String, String)> = Vec::new();
        headers.push((to_owned("content-type"), to_owned("application/json")));
        assert(pairs_view(headers@) =~= seq![("content-type"@, "application/json"@)]);
        Http3Response { status: 200, headers, body: HttpBodyType::Bytes(body) }
    }

    /// 404 with the body `Not Found`.
    pub fn not_found() -> (r: Self)
        ensures
            r.status == 404,
            r.headers@.len() == 0,
            bytes_view(r.body) == Some(vstd::utf8::encode_utf8("Not Found"@)),
    {
        Http3Response { status: 404, headers: Vec::new(), body: HttpBodyType::Bytes(bytes_of("Not Found")) }
    }

    /// 500 with the message as body.
    pub fn internal_error(message: &str) -> (r: Self)
        ensures
            r.status == 500,
            r.headers@.len() == 0,
            bytes_view(r.body) == Some(vstd::utf8::encode_utf8(message@)),
    {
        Http3Response { status: 500, headers: Vec::new(), body: HttpBodyType::Bytes(bytes_of(message)) }
    }

    /// The response with one more header.
    pub fn with_header(self, name: &str, value: &str) -> (r: Self)
        ensures
            r.status == self.status,
            r.body == self.body,
            pairs_view(r.headers@) == pairs_view(self.headers@).push((name@, value@)),
    {
        let mut s = self;
        let ghost before = s.headers@;
        s.headers.push((to_owned(name), to_owned(value)));
        assert(pairs_view(s.headers@) =~= pairs_view(before).push((name@, value@)));
        s
    }

    pub fn with_body(self, body: Vec<u8>) -> (r: Self)
        ensures
            r.status == self.status,
            r.headers == self.headers,
            r.body == HttpBodyType::Bytes(body),
    {
        Http3Response { body: HttpBodyType::Bytes(body), ..self }
    }

    pub fn with_stream_body(self) -> (r: Self)
        ensures
            r.status == self.status,
            r.headers == self.headers,
            r.body is Stream,
    {
        Http3Response { body: HttpBodyType::Stream, ..self }
    }
}

// ---------------------------------------------------------------------------
// The handler
// ---------------------------------------------------------------------------

/// Answers HTTP/3 requests: the built-in endpoints, or the upstream.
pub struct Http3Handler {
    config: Http3Config,
    upstream_addr: String,
}

/// What the handler does with a request.
pub enum H3Route {
    /// Answer with this response.
    Respond(Http3Response),
    /// Render the metrics, then `metrics_response`.
    RenderMetrics,
    /// Report the energy estimate.
    Energy,
    /// Send the request upstream, then `upstream_response` (or
    /// `upstream_error` where it fails).
    Forward(H3ForwardPlan),
}

/// A request to the upstream: method, URL, fields, body.
pub struct H3ForwardPlan {
    pub method: String,
    pub url: String,
    pub headers: Vec<(String, String)>,
    pub body: HttpBodyType,
}

/// A method name the HTTP crates accept: one or more token characters.
pub open spec fn token_char(c: char) -> bool {
    crate::text::is_ascii_alnum(c) || c == '!' || c == '#' || c == '$' || c == '%' || c == '&' || c
        == '\'' || c == '*' || c == '+' || c == '-' || c == '.' || c == '^' || c == '_' || c == '`'
        || c == '|' || c == '~'
}

pub open spec fn method_token(m: Seq<char>) -> bool {
    m.len() > 0 && forall|i: int| 0 <= i < m.len() ==> token_char(#[trigger] m[i])
}

/// Hop-by-hop fields, which a proxy does not pass on (lower-case names).
pub open spec fn hop_by_hop(n: Seq<char>) -> bool {
    n == "connection"@ || n == "keep-alive"@ || n == "proxy-authenticate"@ || n == "proxy-authorization"@
        || n == "te"@ || n == "trailer"@ || n == "transfer-encoding"@ || n == "upgrade"@ || n == "host"@
}

/// `s` without all trailing `c` (`trim_end_matches`).
pub open spec fn strip_end(s: Seq<char>, c: char) -> Seq<char>
    decreases s.len(),
{
    if s.len() > 0 && s.last() == c {
        strip_end(s.drop_last(), c)
    } else {
        s
    }
}

/// The upstream URL of a path: the address (with `http://` in front unless
/// it starts with `http`), trailing slashes dropped, then the path.
pub open spec fn h3_url(upstream: Seq<char>, path: Seq<char>) -> Seq<char> {
    let base = if crate::location::is_prefix_of("http"@, upstream) {
        upstream
    } else {
        "http://"@ + upstream
    };
    strip_end(base, '/') + path
}

/// The request's fields that go upstream: all but the hop-by-hop ones.
pub open spec fn h3_forwarded(hs: Seq<(Seq<char>, Seq<char>)>) -> Seq<(Seq<char>, Seq<char>)>
    decreases hs.len(),
{
    if hs.len() == 0 {
        Seq::empty()
    } else {
        let rest = h3_forwarded(hs.drop_last());
        if hop_by_hop(unicode_lower(hs.last().0)) {
            rest
        } else {
            rest.push(hs.last())
        }
    }
}

/// The upstream response's fields that come back: not hop-by-hop, and
/// with a visible-ASCII value.
pub open spec fn h3_returned(hs: Seq<(Seq<char>, Seq<u8>)>) -> Seq<(Seq<char>, Seq<char>)>
    decreases hs.len(),
{
    if hs.len() == 0 {
        Seq::empty()
    } else {
        let rest = h3_returned(hs.drop_last());
        if !hop_by_hop(unicode_lower(hs.last().0)) && visible_ascii(hs.last().1) {
            rest.push((hs.last().0, chars_of_bytes(hs.last().1)))
        } else {
            rest
        }
    }
}

/// Whether a request carries `Early-Data: 1`.
pub open spec fn early_data(hs: Seq<(Seq<char>, Seq<char>)>) -> bool {
    exists|i: int| 0 <= i < hs.len() && unicode_lower(#[trigger] hs[i].0) == "early-data"@ && hs[i].1 == "1"@
}

pub open spec fn idempotent(m: Seq<char>) -> bool {
    m == "GET"@ || m == "HEAD"@ || m == "OPTIONS"@
}

fn method_token_exec(m: &str) -> (r: bool)
    ensures
        r == method_token(m@),
{
    let cs = chars_of(m);
    if cs.len() == 0 {
        return false;
    }
    let mut i: usize = 0;
    while i < cs.len()
        invariant
            i <= cs@.len(),
            cs@ == m@,
            forall|j: int| 0 <= j < i ==> token_char(#[trigger] cs@[j]),
        decreases cs@.len() - i,
    {
        let c = cs[i];
        let ok = ('a' <= c && c <= 'z') || ('A' <= c && c <= 'Z') || ('0' <= c && c <= '9') || c == '!'
            || c == '#' || c == '$' || c == '%' || c == '&' || c == '\'' || c == '*' || c == '+' || c
            == '-' || c == '.' || c == '^' || c == '_' || c == '`' || c == '|' || c == '~';
        if !ok {
            assert(!token_char(cs@[i as int]));
            return false;
        }
        i += 1;
    }
    true
}

fn hop_by_hop_exec(n: &str) -> (r: bool)
    ensures
        r == hop_by_hop(n@),
{
    str_eq(n, "connection") || str_eq(n, "keep-alive") || str_eq(n, "proxy-authenticate") || str_eq(
        n,
        "proxy-authorization",
    ) || str_eq(n, "te") || str_eq(n, "trailer") || str_eq(n, "transfer-encoding") || str_eq(
        n,
        "upgrade",
    ) || str_eq(n, "host")
}

fn strip_end_exec(s: &str, c: char) -> (r: String)
    ensures
        r@ == strip_end(s@, c),
{
    let cs = chars_of(s);
    let mut n: usize = cs.len();
    assert(cs@.take(n as int) =~= s@);
    while n > 0 && cs[n - 1] == c
        invariant
            n <= cs@.len(),
            cs@ == s@,
            strip_end(s@, c) == strip_end(cs@.take(n as int), c),
        decreases n,
    {
        assert(cs@.take(n as int).drop_last() =~= cs@.take(n - 1));
        n -= 1;
    }
    let kept = crate::text::chars_slice(cs.as_slice(), 0, n);
    assert(kept@ =~= cs@.take(n as int));
    crate::text::string_of(kept.as_slice())
}

impl Http3Handler {
    pub closed spec fn spec_config(&self) -> Http3Config {
        self.config
    }

    pub closed spec fn spec_upstream(&self) -> Seq<char> {
        self.upstream_addr@
    }

    pub fn new(config: Http3Config, upstream_addr: String) -> (r: Self)
        ensures
            r.spec_config() == config,
            r.spec_upstream() == upstream_addr@,
    {
        Http3Handler { config, upstream_addr }
    }

    pub fn upstream_addr(&self) -> (r: &str)
        ensures
            r@ == self.spec_upstream(),
    {
        self.upstream_addr.as_str()
    }

    pub fn is_logging_enabled(&self) -> (r: bool)
        ensures
            r == self.spec_config().log_requests,
    {
        self.config.log_requests
    }

    /// Routes a request. Early data (`Early-Data: 1`) is refused with 425
    /// unless the method is `GET`, `HEAD` or `OPTIONS`. `GET /health` and
    /// `/healthz` report healthy, `GET /ready` and `/readiness` ready;
    /// `GET /metrics` and `GET /energy` are rendered by the server; any
    /// other request goes upstream, its method kept where it is a token
    /// (else `GET`), hop-by-hop fields left out, a non-empty body passed on.
    pub fn route(&self, request: Http3Request) -> (r: H3Route)
        ensures
            ({
                let m = request.method@;
                let p = request.path@;
                if early_data(pairs_view(request.headers@)) && !idempotent(m) {
                    r matches H3Route::Respond(resp) && resp.status == 425 && resp.headers@.len() == 0
                        && bytes_view(resp.body) == Some(vstd::utf8::encode_utf8("Too Early: Non-idempotent early data rejected"@))
                } else if m == "GET"@ && (p == "/healthz"@ || p == "/health"@) {
                    r matches H3Route::Respond(resp) && resp.status == 200 && pairs_view(resp.headers@)
                        == seq![("content-type"@, "application/json"@)] && bytes_view(resp.body) == Some(
                        vstd::utf8::encode_utf8("{\"status\":\"healthy\"}"@),
                    )
                } else if m == "GET"@ && (p == "/ready"@ || p == "/readiness"@) {
                    r matches H3Route::Respond(resp) && resp.status == 200 && pairs_view(resp.headers@)
                        == seq![("content-type"@, "application/json"@)] && bytes_view(resp.body) == Some(
                        vstd::utf8::encode_utf8("{\"status\":\"ready\"}"@),
                    )
                } else if m == "GET"@ && p == "/metrics"@ {
                    r is RenderMetrics
                } else if m == "GET"@ && p == "/energy"@ {
                    r is Energy
                } else {
                    r matches H3Route::Forward(plan) && plan.method@ == (if method_token(m) {
                        m
                    } else {
                        "GET"@
                    }) && plan.url@ == h3_url(self.spec_upstream(), p) && pairs_view(plan.headers@)
                        == h3_forwarded(pairs_view(request.headers@)) && match request.body {
                        HttpBodyType::Bytes(b) => if b@.len() > 0 {
                            plan.body == HttpBodyType::Bytes(b)
                        } else {
                            plan.body is Empty
                        },
                        HttpBodyType::Stream => plan.body is Stream,
                        HttpBodyType::Empty => plan.body is Empty,
                    }
                }
            }),
    {
        let ghost hs = pairs_view(request.headers@);
        let mut early = false;
        let mut i: usize = 0;
        while i < request.headers.len()
            invariant
                i <= request.headers@.len(),
                hs == pairs_view(request.headers@),
                early == exists|j: int|
                    0 <= j < i && unicode_lower(#[trigger] hs[j].0) == "early-data"@ && hs[j].1 == "1"@,
            decreases request.headers@.len() - i,
        {
            let lower = to_lowercase(request.headers[i].0.as_str());
            if str_eq(lower.as_str(), "early-data") && str_eq(request.headers[i].1.as_str(), "1") {
                assert(unicode_lower(hs[i as int].0) == "early-data"@ && hs[i as int].1 == "1"@);
                early = true;
            }
            i += 1;
        }
        let m = request.method.as_str();
        let get = str_eq(m, "GET");
        if early && !(get || str_eq(m, "HEAD") || str_eq(m, "OPTIONS")) {
            return H3Route::Respond(
                Http3Response::new(425).with_body(bytes_of("Too Early: Non-idempotent early data rejected")),
            );
        }
        let p = request.path.as_str();
        if get && (str_eq(p, "/healthz") || str_eq(p, "/health")) {
            return H3Route::Respond(Http3Response::ok(bytes_of("{\"status\":\"healthy\"}")));
        }
        if get && (str_eq(p, "/ready") || str_eq(p, "/readiness")) {
            return H3Route::Respond(Http3Response::ok(bytes_of("{\"status\":\"ready\"}")));
        }
        if get && str_eq(p, "/metrics") {
            return H3Route::RenderMetrics;
        }
        if get && str_eq(p, "/energy") {
            return H3Route::Energy;
        }
        let method = if method_token_exec(m) {
            to_owned(m)
        } else {
            to_owned("GET")
        };
        proof {
            reveal_strlit("http");
        }
        let base = if str_starts_with(self.upstream_addr.as_str(), "http") {
            to_owned(self.upstream_addr.as_str())
        } else {
            let mut b = to_owned("http://");
            push_str(&mut b, self.upstream_addr.as_str());
            b
        };
        let mut url = strip_end_exec(base.as_str(), '/');
        push_str(&mut url, p);
        let mut headers: Vec<(String, String)> = Vec::new();
        let mut k: usize = 0;
        while k < request.headers.len()
            invariant
                k <= request.headers@.len(),
                hs == pairs_view(request.headers@),
                pairs_view(headers@) == h3_forwarded(hs.take(k as int)),
            decreases request.headers@.len() - k,
        {
            assert(hs.take(k + 1).drop_last() =~= hs.take(k as int));
            let lower = to_lowercase(request.headers[k].0.as_str());
            if !hop_by_hop_exec(lower.as_str()) {
                let ghost before = headers@;
                headers.push((to_owned(request.headers[k].0.as_str()), to_owned(request.headers[k].1.as_str())));
                assert(pairs_view(headers@) =~= pairs_view(before).push(hs[k as int]));
            }
            k += 1;
        }
        assert(hs.take(hs.len() as int) =~= hs);
        let body = match request.body {
            HttpBodyType::Bytes(b) => if b.len() > 0 {
                HttpBodyType::Bytes(b)
            } else {
                HttpBodyType::Empty
            },
            HttpBodyType::Stream => HttpBodyType::Stream,
            HttpBodyType::Empty => HttpBodyType::Empty,
        };
        H3Route::Forward(H3ForwardPlan { method, url, headers, body })
    }

    /// The metrics endpoint's answer: the rendered text as plain text, or
    /// 500 where metrics are not set up.
    pub fn metrics_response(text: Option<String>) -> (r: Http3Response)
        ensures
            match text {
                Some(t) => r.status == 200 && pairs_view(r.headers@) == seq![
                    ("content-type"@, "application/json"@),
                    ("content-type"@, "text/plain; charset=utf-8"@),
                ] && bytes_view(r.body) == Some(vstd::utf8::encode_utf8(t@)),
                None => r.status == 500 && r.headers@.len() == 0 && bytes_view(r.body) == Some(
                    vstd::utf8::encode_utf8("Metrics not initialized"@),
                ),
            },
    {
        match text {
            Some(t) => Http3Response::ok(bytes_of(t.as_str())).with_header("content-type", "text/plain; charset=utf-8"),
            None => Http3Response::internal_error("Metrics not initialized"),
        }
    }

    /// The upstream's answer: its status, its fields but the hop-by-hop ones
    /// and those whose value is not visible ASCII, and its body streamed.
    pub fn upstream_response(status: u16, headers: &Vec<(String, Vec<u8>)>) -> (r: Http3Response)
        ensures
            r.status == status,
            pairs_view(r.headers@) == h3_returned(crate::http_proxy::fields_view(headers@)),
            r.body is Stream,
    {
        let ghost fs = crate::http_proxy::fields_view(headers@);
        let mut out: Vec<(String, String)> = Vec::new();
        let mut k: usize = 0;
        while k < headers.len()
            invariant
                k <= headers@.len(),
                fs == crate::http_proxy::fields_view(headers@),
                pairs_view(out@) == h3_returned(fs.take(k as int)),
            decreases headers@.len() - k,
        {
            assert(fs.take(k + 1).drop_last() =~= fs.take(k as int));
            assert(fs[k as int] == (headers@[k as int].0@, headers@[k as int].1@));
            let lower = to_lowercase(headers[k].0.as_str());
            if !hop_by_hop_exec(lower.as_str()) {
                match crate::cgi::header_value_text(headers[k].1.as_slice()) {
                    Some(v) => {
                        let ghost before = out@;
                        out.push((to_owned(headers[k].0.as_str()), v));
                        assert(pairs_view(out@) =~= pairs_view(before).push(
                            (fs[k as int].0, chars_of_bytes(fs[k as int].1)),
                        ));
                    },
                    None => {},
                }
            }
            k += 1;
        }
        assert(fs.take(fs.len() as int) =~= fs);
        Http3Response { status, headers: out, body: HttpBodyType::Stream }
    }

    /// A failed upstream request: 500 with `Upstream error: ` and the reason.
    pub fn upstream_error(reason: &str) -> (r: Http3Response)
        ensures
            r.status == 500,
            r.headers@.len() == 0,
            bytes_view(r.body) == Some(vstd::utf8::encode_utf8("Upstream error: "@ + reason@)),
    {
        let mut m = to_owned("Upstream error: ");
        push_str(&mut m, reason);
        Http3Response::internal_error(m.as_str())
    }
}

/// The connect timeout for upstream requests (the text of the
/// `UPSTREAM_TIMEOUT_MS` setting as a number, else 5000 ms) and the whole
/// request's timeout (three times that); none where the latter overflows.
pub fn upstream_timeouts(setting: Option<&str>) -> (r: Option<(u64, u64)>)
    ensures
        ({
            let c: u64 = match setting {
                Some(t) => match crate::text::parse_u64(t@) {
                    Some(v) => v,
                    None => 5000,
                },
                None => 5000,
            };
            if c * 3 <= u64::MAX {
                r == Some((c, (c * 3) as u64))
            } else {
                r is None
            }
        }),
{
    let c = match setting {
        Some(t) => match crate::text::parse_u64_str(t) {
            Some(v) => v,
            None => 5000,
        },
        None => 5000,
    };
    if c <= u64::MAX / 3 {
        Some((c, c * 3))
    } else {
        None
    }
}

} // verus!
