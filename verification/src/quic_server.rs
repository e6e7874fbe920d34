//! The QUIC server's settings, counters, certificate check, and the plain
//! request/response exchange it speaks on a raw stream.

use vstd::prelude::*;
use crate::config::ProxyConfig;
use crate::http3_handler::{bytes_view, Http3Config, Http3Handler, Http3Response};
use crate::text::{char_is_ws, chars_of, is_ws, push_dec, push_str, string_of, to_owned, trim_start};

verus! {

/// QUIC server configuration
#[derive(Debug, Clone)]
pub struct QuicConfig {
    /// UDP bind address
    pub bind_address: String,
    /// Path to TLS certificate
    pub cert_path: String,
    /// Path to TLS private key
    pub key_path: String,
    /// Enable 0-RTT resumption
    pub enable_0rtt: bool,
    /// Maximum concurrent streams per connection
    pub max_streams: u32,
    /// Connection idle timeout in seconds
    pub idle_timeout_secs: u64,
    /// Enable Post-Quantum Cryptography (ML-KEM+X25519 hybrid)
    pub pqc_enabled: bool,
}

impl Default for QuicConfig {
    fn default() -> (r: Self)
        ensures
            r.bind_address@ == "0.0.0.0:443"@,
            r.cert_path@ == "certs/server.crt"@,
            r.key_path@ == "certs/server.key"@,
            r.enable_0rtt,
            r.max_streams == 100,
            r.idle_timeout_secs == 30,
            r.pqc_enabled,
    {
        Self {
            bind_address: to_owned("0.0.0.0:443"),
            cert_path: to_owned("certs/server.crt"),
            key_path: to_owned("certs/server.key"),
            enable_0rtt: true,
            max_streams: 100,
            idle_timeout_secs: 30,
            pqc_enabled: true,
        }
    }
}

/// QUIC connection statistics
#[derive(Debug, Clone, Copy)]
pub struct QuicStats {
    /// Total connections accepted
    pub connections_accepted: u64,
    /// Total streams handled
    pub streams_handled: u64,
    /// Current active connections
    pub active_connections: u64,
    /// 0-RTT connections
    pub zero_rtt_connections: u64,
}

impl Default for QuicStats {
    fn default() -> (r: Self)
        ensures
            r.connections_accepted == 0,
            r.streams_handled == 0,
            r.active_connections == 0,
            r.zero_rtt_connections == 0,
    {
        Self { connections_accepted: 0, streams_handled: 0, active_connections: 0, zero_rtt_connections: 0 }
    }
}

impl QuicStats {
    /// A connection was accepted.
    pub fn record_connection(&mut self)
        requires
            old(self).connections_accepted < u64::MAX,
            old(self).active_connections < u64::MAX,
        ensures
            final(self).connections_accepted == old(self).connections_accepted + 1,
            final(self).active_connections == old(self).active_connections + 1,
            final(self).streams_handled == old(self).streams_handled,
            final(self).zero_rtt_connections == old(self).zero_rtt_connections,
    {
        self.connections_accepted = self.connections_accepted + 1;
        self.active_connections = self.active_connections + 1;
    }

    /// A connection ended (the count never goes below zero).
    pub fn record_disconnect(&mut self)
        ensures
            final(self).active_connections == (if old(self).active_connections > 0 {
                old(self).active_connections - 1
            } else {
                0
            }),
            final(self).connections_accepted == old(self).connections_accepted,
            final(self).streams_handled == old(self).streams_handled,
            final(self).zero_rtt_connections == old(self).zero_rtt_connections,
    {
        self.active_connections = if self.active_connections > 0 { self.active_connections - 1 } else { 0 };
    }

    /// A request stream was taken on.
    pub fn record_stream(&mut self)
        requires
            old(self).streams_handled < u64::MAX,
        ensures
            final(self).streams_handled == old(self).streams_handled + 1,
            final(self).connections_accepted == old(self).connections_accepted,
            final(self).active_connections == old(self).active_connections,
            final(self).zero_rtt_connections == old(self).zero_rtt_connections,
    {
        self.streams_handled = self.streams_handled + 1;
    }
}

/// The QUIC server: its settings, the proxy's settings, its counters and
/// the HTTP/3 handler its streams are served by.
pub struct QuicServer {
    pub config: QuicConfig,
    pub proxy_config: ProxyConfig,
    pub stats: QuicStats,
    pub h3_handler: Http3Handler,
}

impl QuicServer {
    /// A server whose handler forwards to the proxy's upstream.
    pub fn new(config: QuicConfig, proxy_config: ProxyConfig) -> (r: Self)
        ensures
            r.config == config,
            r.proxy_config == proxy_config,
            r.stats == (QuicStats { connections_accepted: 0, streams_handled: 0, active_connections: 0, zero_rtt_connections: 0 }),
            r.h3_handler.spec_upstream() == proxy_config.upstream_addr@,
            r.h3_handler.spec_config().max_concurrent_streams == 100,
            r.h3_handler.spec_config().log_requests,
    {
        let handler = Http3Handler::new(Http3Config::default(), to_owned(proxy_config.upstream_addr.as_str()));
        QuicServer { config, proxy_config, stats: QuicStats::default(), h3_handler: handler }
    }

    pub fn with_defaults(proxy_config: ProxyConfig) -> (r: Self)
        ensures
            r.config.bind_address@ == "0.0.0.0:443"@,
            r.config.max_streams == 100,
            r.proxy_config == proxy_config,
            r.h3_handler.spec_upstream() == proxy_config.upstream_addr@,
    {
        Self::new(QuicConfig::default(), proxy_config)
    }

    /// The counters.
    pub fn stats(&self) -> (r: QuicStats)
        ensures
            r == self.stats,
    {
        self.stats
    }

    /// The certificate check, given whether the two files exist: the
    /// certificate is looked for first, then the key.
    pub fn check_certificates(&self, cert_exists: bool, key_exists: bool) -> (r: Result<(), String>)
        ensures
            !cert_exists ==> (r matches Err(m) && m@ == "TLS certificate not found: "@ + self.config.cert_path@),
            cert_exists && !key_exists ==> (r matches Err(m) && m@ == "TLS private key not found: "@
                + self.config.key_path@),
            cert_exists && key_exists ==> r is Ok,
    {
        if !cert_exists {
            let mut m = to_owned("TLS certificate not found: ");
            push_str(&mut m, self.config.cert_path.as_str());
            return Err(m);
        }
        if !key_exists {
            let mut m = to_owned("TLS private key not found: ");
            push_str(&mut m, self.config.key_path.as_str());
            return Err(m);
        }
        Ok(())
    }
}

// ---------------------------------------------------------------------------
// The plain stream exchange
// ---------------------------------------------------------------------------

/// The most a raw stream's request may hold.
pub const STREAM_REQUEST_LIMIT: usize = 16777216;

/// A raw stream's request as it arrives.
pub struct StreamRequest {
    pub data: Vec<u8>,
}

impl StreamRequest {
    pub fn new() -> (r: Self)
        ensures
            r.data@.len() == 0,
    {
        StreamRequest { data: Vec::new() }
    }

    /// Appends a chunk read from the stream; answers whether the request is
    /// still within the limit (beyond it the stream is dropped).
    pub fn push_chunk(&mut self, chunk: &[u8]) -> (r: bool)
        requires
            old(self).data@.len() <= STREAM_REQUEST_LIMIT,
        ensures
            final(self).data@ == old(self).data@ + chunk@,
            r == (final(self).data@.len() <= STREAM_REQUEST_LIMIT),
    {
        let mut i: usize = 0;
        let ghost start = self.data@;
        while i < chunk.len()
            invariant
                i <= chunk@.len(),
                self.data@ == start + chunk@.take(i as int),
                start.len() <= STREAM_REQUEST_LIMIT,
            decreases chunk@.len() - i,
        {
            self.data.push(chunk[i]);
            assert(chunk@.take(i + 1) =~= chunk@.take(i as int).push(chunk@[i as int]));
            i += 1;
        }
        assert(chunk@.take(chunk@.len() as int) =~= chunk@);
        self.data.len() <= STREAM_REQUEST_LIMIT
    }
}

/// `String::from_utf8_lossy` of bytes that are not well-formed UTF-8 (each
/// bad sequence replaced by U+FFFD).
pub uninterp spec fn lossy_text(b: Seq<u8>) -> Seq<char>;

/// `String::from_utf8_lossy`. Trusted: well-formed UTF-8 decodes as is;
/// other bytes give `lossy_text`, whose replacement rules are not stated.
#[verifier::external_body]
fn utf8_lossy(b: &[u8]) -> (r: String)
    ensures
        vstd::utf8::valid_utf8(b@) ==> r@ == vstd::utf8::decode_utf8(b@),
        !vstd::utf8::valid_utf8(b@) ==> r@ == lossy_text(b@),
{
    String::from_utf8_lossy(b).into_owned()
}

/// The first line of a text (`str::lines`): up to the first `\n`, a `\r`
/// before it dropped; none for an empty text.
pub open spec fn first_line(s: Seq<char>) -> Option<Seq<char>> {
    if s.len() == 0 {
        None
    } else {
        match crate::text::find_char(s, '\n') {
            Some(k) => {
                let l = s.take(k);
                if l.len() > 0 && l.last() == '\r' {
                    Some(l.drop_last())
                } else {
                    Some(l)
                }
            },
            None => Some(s),
        }
    }
}

/// The leading run of non-whitespace characters.
pub open spec fn take_word(s: Seq<char>) -> Seq<char>
    decreases s.len(),
{
    if s.len() > 0 && !is_ws(s[0]) {
        seq![s[0]] + take_word(s.drop_first())
    } else {
        Seq::empty()
    }
}

/// What follows the leading run of non-whitespace characters.
pub open spec fn drop_word(s: Seq<char>) -> Seq<char>
    decreases s.len(),
{
    if s.len() > 0 && !is_ws(s[0]) {
        drop_word(s.drop_first())
    } else {
        s
    }
}

/// The method and path of a raw request: the first two words of its first
/// line, `GET` and `/` where they are missing.
pub open spec fn stream_request_line(text: Seq<char>) -> (Seq<char>, Seq<char>) {
    let line = match first_line(text) {
        Some(l) => l,
        None => "GET /"@,
    };
    let w1 = take_word(trim_start(line));
    let w2 = take_word(trim_start(drop_word(trim_start(line))));
    (if w1.len() > 0 {
        w1
    } else {
        "GET"@
    }, if w2.len() > 0 {
        w2
    } else {
        "/"@
    })
}

pub open spec fn stream_text(b: Seq<u8>) -> Seq<char> {
    if vstd::utf8::valid_utf8(b) {
        vstd::utf8::decode_utf8(b)
    } else {
        lossy_text(b)
    }
}

fn skip_ws_at(s: &Vec<char>, from: usize) -> (r: usize)
    requires
        from <= s@.len(),
    ensures
        from <= r <= s@.len(),
        s@.skip(r as int) == trim_start(s@.skip(from as int)),
{
    let mut i = from;
    while i < s.len() && char_is_ws(s[i])
        invariant
            from <= i <= s@.len(),
            trim_start(s@.skip(i as int)) == trim_start(s@.skip(from as int)),
        decreases s@.len() - i,
    {
        assert(s@.skip(i as int).drop_first() =~= s@.skip(i + 1));
        i += 1;
    }
    proof {
        lemma_trim_stop(s@, i as int);
    }
    i
}

proof fn lemma_trim_stop(s: Seq<char>, i: int)
    requires
        0 <= i <= s.len(),
        i == s.len() || !is_ws(s[i]),
    ensures
        trim_start(s.skip(i)) == s.skip(i),
{
    if i < s.len() {
        assert(s.skip(i)[0] == s[i]);
    }
}

fn word_end_at(s: &Vec<char>, from: usize) -> (r: usize)
    requires
        from <= s@.len(),
    ensures
        from <= r <= s@.len(),
        s@.subrange(from as int, r as int) == take_word(s@.skip(from as int)),
        s@.skip(r as int) == drop_word(s@.skip(from as int)),
{
    let mut i = from;
    while i < s.len() && !char_is_ws(s[i])
        invariant
            from <= i <= s@.len(),
            take_word(s@.skip(from as int)) == s@.subrange(from as int, i as int) + take_word(s@.skip(i as int)),
            drop_word(s@.skip(from as int)) == drop_word(s@.skip(i as int)),
        decreases s@.len() - i,
    {
        assert(s@.skip(i as int).drop_first() =~= s@.skip(i + 1));
        assert(s@.skip(i as int)[0] == s@[i as int]);
        assert(s@.subrange(from as int, i + 1) =~= s@.subrange(from as int, i as int) + seq![s@[i as int]]);
        i += 1;
    }
    if i < s.len() {
        assert(s@.skip(i as int)[0] == s@[i as int]);
    }
    assert(take_word(s@.skip(i as int)) =~= Seq::<char>::empty());
    assert(s@.subrange(from as int, i as int) + Seq::<char>::empty() =~= s@.subrange(from as int, i as int));
    i
}

/// The method and path of a raw request.
pub fn parse_stream_request(data: &[u8]) -> (r: (String, String))
    ensures
        (r.0@, r.1@) == stream_request_line(stream_text(data@)),
{
    let text = utf8_lossy(data);
    let cs = chars_of(text.as_str());
    proof {
        reveal_strlit("GET /");
        reveal_strlit("GET");
        reveal_strlit("/");
    }
    let line: Vec<char> = if cs.len() == 0 {
        let l = chars_of("GET /");
        l
    } else {
        match crate::text::chars_find(cs.as_slice(), '\n') {
            Some(k) => {
                let l = crate::text::chars_slice(cs.as_slice(), 0, k);
                if k > 0 && l[k - 1] == '\r' {
                    crate::text::chars_slice(l.as_slice(), 0, k - 1)
                } else {
                    l
                }
            },
            None => cs,
        }
    };
    let ghost lv = match first_line(stream_text(data@)) {
        Some(l) => l,
        None => "GET /"@,
    };
    assert(line@ =~= lv);
    assert(line@.skip(0) =~= line@);
    let a = skip_ws_at(&line, 0);
    let b = word_end_at(&line, a);
    let c = skip_ws_at(&line, b);
    let d = word_end_at(&line, c);
    let w1 = crate::text::chars_slice(line.as_slice(), a, b);
    let w2 = crate::text::chars_slice(line.as_slice(), c, d);
    let method = if w1.len() > 0 {
        string_of(w1.as_slice())
    } else {
        to_owned("GET")
    };
    let path = if w2.len() > 0 {
        string_of(w2.as_slice())
    } else {
        to_owned("/")
    };
    (method, path)
}

pub open spec fn stream_status_line(status: u16) -> Seq<char> {
    "HTTP/3 "@ + crate::text::dec_str(status as nat) + " OK\r\n\r\n"@
}

/// What goes back on a raw stream: `HTTP/3 <status> OK`, an empty line, and
/// the body's bytes where it has any.
pub fn stream_response_bytes(response: &Http3Response) -> (r: Vec<u8>)
    ensures
        r@ == vstd::utf8::encode_utf8(stream_status_line(response.status)) + match bytes_view(response.body) {
            Some(b) => b,
            None => Seq::empty(),
        },
{
    let mut line = to_owned("HTTP/3 ");
    push_dec(&mut line, response.status as u64);
    push_str(&mut line, " OK\r\n\r\n");
    let mut out = vstd::slice::slice_to_vec(line.as_str().as_bytes());
    let ghost head = out@;
    if !response.body.is_empty() {
        match response.body.as_bytes() {
            Some(b) => {
                let mut i: usize = 0;
                while i < b.len()
                    invariant
                        i <= b@.len(),
                        out@ == head + b@.take(i as int),
                    decreases b@.len() - i,
                {
                    out.push(b[i]);
                    assert(b@.take(i + 1) =~= b@.take(i as int).push(b@[i as int]));
                    i += 1;
                }
                assert(b@.take(b@.len() as int) =~= b@);
            },
            None => {},
        }
    }
    proof {
        match &response.body {
            crate::http3_handler::HttpBodyType::Empty => {
                assert(out@ =~= head + Seq::<u8>::empty());
            },
            crate::http3_handler::HttpBodyType::Bytes(v) => {
                if v@.len() == 0 {
                    assert(out@ =~= head + v@);
                }
            },
            crate::http3_handler::HttpBodyType::Stream => {
                assert(out@ =~= head + Seq::<u8>::empty());
            },
        }
    }
    out
}

} // verus!
