//! Access logging: the `log_format` mini-language, rendering of a request
//! record in the combined and custom formats, log rotation settings, and
//! service files for process supervisors.

use vstd::prelude::*;
use crate::text::{
    char_is_alphanumeric, chars_of, dec_str, join, push_char, push_dec, push_str, str_eq,
    string_of, unicode_alphanumeric,
};

verus! {

// ---------------------------------------------------------------------------
// Log format tokens
// ---------------------------------------------------------------------------

#[derive(Debug, Clone, PartialEq)]
pub enum LogToken {
    /// Literal text
    Literal(String),
    /// $remote_addr
    RemoteAddr,
    /// $time_local
    TimeLocal,
    /// $request (METHOD URI PROTO)
    Request,
    /// $status
    Status,
    /// $body_bytes_sent
    BodyBytesSent,
    /// $http_referer
    Referer,
    /// $http_user_agent
    UserAgent,
    /// $request_time (seconds, three decimals)
    RequestTime,
    /// $upstream_response_time
    UpstreamResponseTime,
    /// $host
    Host,
    /// Unknown variable passthrough
    Unknown(String),
}

/// A token with its text as a character sequence.
pub enum TokenView {
    Literal(Seq<char>),
    RemoteAddr,
    TimeLocal,
    Request,
    Status,
    BodyBytesSent,
    Referer,
    UserAgent,
    RequestTime,
    UpstreamResponseTime,
    Host,
    Unknown(Seq<char>),
}

impl View for LogToken {
    type V = TokenView;

    open spec fn view(&self) -> TokenView {
        match self {
            LogToken::Literal(s) => TokenView::Literal(s@),
            LogToken::RemoteAddr => TokenView::RemoteAddr,
            LogToken::TimeLocal => TokenView::TimeLocal,
            LogToken::Request => TokenView::Request,
            LogToken::Status => TokenView::Status,
            LogToken::BodyBytesSent => TokenView::BodyBytesSent,
            LogToken::Referer => TokenView::Referer,
            LogToken::UserAgent => TokenView::UserAgent,
            LogToken::RequestTime => TokenView::RequestTime,
            LogToken::UpstreamResponseTime => TokenView::UpstreamResponseTime,
            LogToken::Host => TokenView::Host,
            LogToken::Unknown(s) => TokenView::Unknown(s@),
        }
    }
}

pub open spec fn tokens_view(ts: Seq<LogToken>) -> Seq<TokenView> {
    ts.map_values(|t: LogToken| t@)
}

/// A character of a variable name.
pub open spec fn is_var_char(c: char) -> bool {
    unicode_alphanumeric(c) || c == '_'
}

/// The number of leading characters of a variable name.
pub open spec fn var_len(s: Seq<char>) -> nat
    decreases s.len(),
{
    if s.len() > 0 && is_var_char(s[0]) {
        1 + var_len(s.drop_first())
    } else {
        0
    }
}

/// The number of leading characters before a `$`.
pub open spec fn lit_len(s: Seq<char>) -> nat
    decreases s.len(),
{
    if s.len() > 0 && s[0] != '$' {
        1 + lit_len(s.drop_first())
    } else {
        0
    }
}

/// The token of a variable name.
pub open spec fn var_token(name: Seq<char>) -> TokenView {
    if name == "remote_addr"@ {
        TokenView::RemoteAddr
    } else if name == "time_local"@ {
        TokenView::TimeLocal
    } else if name == "request"@ {
        TokenView::Request
    } else if name == "status"@ {
        TokenView::Status
    } else if name == "body_bytes_sent"@ {
        TokenView::BodyBytesSent
    } else if name == "http_referer"@ {
        TokenView::Referer
    } else if name == "http_user_agent"@ {
        TokenView::UserAgent
    } else if name == "request_time"@ {
        TokenView::RequestTime
    } else if name == "upstream_response_time"@ {
        TokenView::UpstreamResponseTime
    } else if name == "host"@ {
        TokenView::Host
    } else {
        TokenView::Unknown(name)
    }
}

pub proof fn lemma_var_len_bound(s: Seq<char>)
    ensures
        var_len(s) <= s.len(),
    decreases s.len(),
{
    if s.len() > 0 && is_var_char(s[0]) {
        lemma_var_len_bound(s.drop_first());
    }
}

pub proof fn lemma_lit_len_bound(s: Seq<char>)
    ensures
        lit_len(s) <= s.len(),
        s.len() > 0 && s[0] != '$' ==> lit_len(s) >= 1,
    decreases s.len(),
{
    if s.len() > 0 && s[0] != '$' {
        lemma_lit_len_bound(s.drop_first());
    }
}

/// The tokens of a format: each `$` starts a variable whose name is the
/// longest run of alphanumeric characters and `_` after it; the text
/// between variables is literal.
pub open spec fn log_tokens(s: Seq<char>) -> Seq<TokenView>
    decreases s.len(),
{
    if s.len() == 0 {
        Seq::empty()
    } else if s[0] == '$' {
        let n = var_len(s.drop_first());
        proof {
            lemma_var_len_bound(s.drop_first());
        }
        seq![var_token(s.subrange(1, 1 + n as int))] + log_tokens(s.skip(1 + n as int))
    } else {
        let n = lit_len(s);
        proof {
            lemma_lit_len_bound(s);
        }
        seq![TokenView::Literal(s.take(n as int))] + log_tokens(s.skip(n as int))
    }
}

/// The text a token stands for in a format: a literal is itself, a
/// variable is `$` and its name.
pub open spec fn token_source(t: TokenView) -> Seq<char> {
    match t {
        TokenView::Literal(x) => x,
        TokenView::RemoteAddr => "$"@ + "remote_addr"@,
        TokenView::TimeLocal => "$"@ + "time_local"@,
        TokenView::Request => "$"@ + "request"@,
        TokenView::Status => "$"@ + "status"@,
        TokenView::BodyBytesSent => "$"@ + "body_bytes_sent"@,
        TokenView::Referer => "$"@ + "http_referer"@,
        TokenView::UserAgent => "$"@ + "http_user_agent"@,
        TokenView::RequestTime => "$"@ + "request_time"@,
        TokenView::UpstreamResponseTime => "$"@ + "upstream_response_time"@,
        TokenView::Host => "$"@ + "host"@,
        TokenView::Unknown(v) => "$"@ + v,
    }
}

/// The tokens written back as format text.
pub open spec fn tokens_source(ts: Seq<TokenView>) -> Seq<char>
    decreases ts.len(),
{
    if ts.len() == 0 {
        Seq::empty()
    } else {
        token_source(ts[0]) + tokens_source(ts.drop_first())
    }
}

proof fn lemma_lit_len_stop(s: Seq<char>)
    ensures
        lit_len(s) <= s.len(),
        lit_len(s) < s.len() ==> s[lit_len(s) as int] == '$',
    decreases s.len(),
{
    if s.len() > 0 && s[0] != '$' {
        lemma_lit_len_stop(s.drop_first());
        if lit_len(s) < s.len() {
            assert(s[lit_len(s) as int] == s.drop_first()[lit_len(s.drop_first()) as int]);
        }
    }
}

/// Parsing a format loses nothing: its tokens, written back (a literal as
/// itself, a variable as `$` and its name), give the format again; no
/// literal is empty and no two literals stand side by side.
pub proof fn law_tokens_give_format_back(s: Seq<char>)
    ensures
        tokens_source(log_tokens(s)) == s,
        forall|i: int| 0 <= i < log_tokens(s).len() ==> (#[trigger] log_tokens(s)[i] matches TokenView::Literal(x)
            ==> x.len() > 0),
        forall|i: int|
            0 <= i < log_tokens(s).len() - 1 ==> !(#[trigger] log_tokens(s)[i] is Literal && log_tokens(s)[i
                + 1] is Literal),
    decreases s.len(),
{
    if s.len() == 0 {
        return;
    }
    let ts = log_tokens(s);
    if s[0] == '$' {
        let n = var_len(s.drop_first());
        lemma_var_len_bound(s.drop_first());
        let name = s.subrange(1, 1 + n as int);
        let rest = s.skip(1 + n as int);
        law_tokens_give_format_back(rest);
        let tok = var_token(name);
        assert(ts == seq![tok] + log_tokens(rest));
        assert(ts[0] == tok);
        assert(ts.drop_first() =~= log_tokens(rest));
        assert(token_source(tok) == "$"@ + name);
        assert(s =~= "$"@ + name + rest) by {
            reveal_strlit("$");
        }
        assert(tokens_source(ts) == token_source(tok) + tokens_source(log_tokens(rest)));
        assert forall|i: int| 0 <= i < ts.len() implies (#[trigger] ts[i] matches TokenView::Literal(x) ==> x.len() > 0) by {
            if i > 0 {
                assert(ts[i] == log_tokens(rest)[i - 1]);
            }
        }
        assert forall|i: int| 0 <= i < ts.len() - 1 implies !(#[trigger] ts[i] is Literal && ts[i + 1] is Literal) by {
            if i > 0 {
                assert(ts[i] == log_tokens(rest)[i - 1]);
                assert(ts[i + 1] == log_tokens(rest)[i]);
            }
        }
    } else {
        let n = lit_len(s);
        lemma_lit_len_bound(s);
        lemma_lit_len_stop(s);
        let rest = s.skip(n as int);
        law_tokens_give_format_back(rest);
        let tok = TokenView::Literal(s.take(n as int));
        assert(ts == seq![tok] + log_tokens(rest));
        assert(ts[0] == tok);
        assert(ts.drop_first() =~= log_tokens(rest));
        assert(s =~= s.take(n as int) + rest);
        assert(tokens_source(ts) == token_source(tok) + tokens_source(log_tokens(rest)));
        if rest.len() > 0 {
            assert(rest[0] == '$');
            assert(!(log_tokens(rest)[0] is Literal));
        }
        assert forall|i: int| 0 <= i < ts.len() implies (#[trigger] ts[i] matches TokenView::Literal(x) ==> x.len() > 0) by {
            if i > 0 {
                assert(ts[i] == log_tokens(rest)[i - 1]);
            }
        }
        assert forall|i: int| 0 <= i < ts.len() - 1 implies !(#[trigger] ts[i] is Literal && ts[i + 1] is Literal) by {
            if i > 0 {
                assert(ts[i] == log_tokens(rest)[i - 1]);
                assert(ts[i + 1] == log_tokens(rest)[i]);
            } else {
                assert(ts[1] == log_tokens(rest)[0]);
                if rest.len() == 0 {
                    assert(log_tokens(rest).len() == 0);
                }
            }
        }
    }
}

proof fn lemma_var_len_is(s: Seq<char>, m: int)
    requires
        0 <= m <= s.len(),
        forall|k: int| 0 <= k < m ==> is_var_char(#[trigger] s[k]),
        m == s.len() || !is_var_char(s[m]),
    ensures
        var_len(s) == m,
    decreases m,
{
    if m > 0 {
        let t = s.drop_first();
        assert forall|k: int| 0 <= k < m - 1 implies is_var_char(#[trigger] t[k]) by {
            assert(t[k] == s[k + 1]);
        }
        if m < s.len() {
            assert(t[m - 1] == s[m]);
        }
        lemma_var_len_is(t, m - 1);
    }
}

proof fn lemma_lit_len_is(s: Seq<char>, m: int)
    requires
        0 <= m <= s.len(),
        forall|k: int| 0 <= k < m ==> #[trigger] s[k] != '$',
        m == s.len() || s[m] == '$',
    ensures
        lit_len(s) == m,
    decreases m,
{
    if m > 0 {
        let t = s.drop_first();
        assert forall|k: int| 0 <= k < m - 1 implies #[trigger] t[k] != '$' by {
            assert(t[k] == s[k + 1]);
        }
        if m < s.len() {
            assert(t[m - 1] == s[m]);
        }
        lemma_lit_len_is(t, m - 1);
    }
}

fn var_token_of(name: &str) -> (r: LogToken)
    ensures
        r@ == var_token(name@),
{
    if str_eq(name, "remote_addr") {
        LogToken::RemoteAddr
    } else if str_eq(name, "time_local") {
        LogToken::TimeLocal
    } else if str_eq(name, "request") {
        LogToken::Request
    } else if str_eq(name, "status") {
        LogToken::Status
    } else if str_eq(name, "body_bytes_sent") {
        LogToken::BodyBytesSent
    } else if str_eq(name, "http_referer") {
        LogToken::Referer
    } else if str_eq(name, "http_user_agent") {
        LogToken::UserAgent
    } else if str_eq(name, "request_time") {
        LogToken::RequestTime
    } else if str_eq(name, "upstream_response_time") {
        LogToken::UpstreamResponseTime
    } else if str_eq(name, "host") {
        LogToken::Host
    } else {
        LogToken::Unknown(crate::text::to_owned(name))
    }
}

/// Parse a log format string into tokens.
pub fn parse_log_format(format: &str) -> (r: Vec<LogToken>)
    ensures
        tokens_view(r@) == log_tokens(format@),
{
    let cs = chars_of(format);
    let n = cs.len();
    let mut tokens: Vec<LogToken> = Vec::new();
    let mut i: usize = 0;
    assert(cs@.skip(0) =~= cs@);
    assert(tokens_view(tokens@) + log_tokens(cs@) =~= log_tokens(cs@));
    while i < n
        invariant
            i <= n == cs@.len(),
            cs@ == format@,
            tokens_view(tokens@) + log_tokens(cs@.skip(i as int)) == log_tokens(format@),
        decreases n - i,
    {
        let ghost s = cs@.skip(i as int);
        if cs[i] == '$' {
            let mut j: usize = i + 1;
            while j < n && (char_is_alphanumeric(cs[j]) || cs[j] == '_')
                invariant
                    i + 1 <= j <= n == cs@.len(),
                    forall|k: int| i + 1 <= k < j ==> is_var_char(#[trigger] cs@[k]),
                decreases n - j,
            {
                j += 1;
            }
            proof {
                let t = s.drop_first();
                assert(t =~= cs@.skip(i + 1));
                assert forall|k: int| 0 <= k < j - i - 1 implies is_var_char(#[trigger] t[k]) by {
                    assert(t[k] == cs@[i + 1 + k]);
                }
                if j < n {
                    assert(t[j - i - 1] == cs@[j as int]);
                }
                lemma_var_len_is(t, j - i - 1);
                assert(s.subrange(1, (j - i) as int) =~= cs@.subrange(i + 1, j as int));
                assert(s.skip((j - i) as int) =~= cs@.skip(j as int));
            }
            let name = string_of(crate::text::chars_slice(cs.as_slice(), i + 1, j).as_slice());
            let ghost before = tokens_view(tokens@);
            tokens.push(var_token_of(name.as_str()));
            assert(tokens_view(tokens@) =~= before.push(var_token(cs@.subrange(i + 1, j as int))));
            assert(tokens_view(tokens@) + log_tokens(cs@.skip(j as int)) =~= before + log_tokens(s));
            i = j;
        } else {
            let mut j: usize = i + 1;
            while j < n && cs[j] != '$'
                invariant
                    i + 1 <= j <= n == cs@.len(),
                    cs@[i as int] != '$',
                    forall|k: int| i <= k < j ==> #[trigger] cs@[k] != '$',
                decreases n - j,
            {
                j += 1;
            }
            proof {
                assert forall|k: int| 0 <= k < j - i implies #[trigger] s[k] != '$' by {
                    assert(s[k] == cs@[i + k]);
                }
                if j < n {
                    assert(s[j - i] == cs@[j as int]);
                }
                lemma_lit_len_is(s, (j - i) as int);
                assert(s.take((j - i) as int) =~= cs@.subrange(i as int, j as int));
                assert(s.skip((j - i) as int) =~= cs@.skip(j as int));
            }
            let lit = string_of(crate::text::chars_slice(cs.as_slice(), i, j).as_slice());
            let ghost before = tokens_view(tokens@);
            tokens.push(LogToken::Literal(lit));
            assert(tokens_view(tokens@) =~= before.push(TokenView::Literal(cs@.subrange(i as int, j as int))));
            assert(tokens_view(tokens@) + log_tokens(cs@.skip(j as int)) =~= before + log_tokens(s));
            i = j;
        }
    }
    assert(cs@.skip(n as int) =~= Seq::<char>::empty());
    assert(tokens_view(tokens@) + Seq::<TokenView>::empty() =~= tokens_view(tokens@));
    tokens
}

// ---------------------------------------------------------------------------
// Log record
// ---------------------------------------------------------------------------

/// The earliest and latest second that the log's calendar covers.
pub const LOG_TIME_MIN: i64 = -8334601315200;
pub const LOG_TIME_MAX: i64 = 8210266876799;

/// The time as the common log format writes it, `[10/Oct/2000:13:55:36 +0000]`.
pub uninterp spec fn clf_time_text(secs: int) -> Seq<char>;

/// `chrono::DateTime::from_timestamp` then `format("[%d/%b/%Y:%H:%M:%S +0000]")`.
/// Trusted: the text is named `clf_time_text` of the second; the calendar
/// arithmetic is not stated.
#[verifier::external_body]
fn clf_time(secs: i64) -> (r: String)
    requires
        LOG_TIME_MIN <= secs <= LOG_TIME_MAX,
    ensures
        r@ == clf_time_text(secs as int),
{
    match chrono::DateTime::from_timestamp(secs, 0) {
        Some(dt) => dt.format("[%d/%b/%Y:%H:%M:%S +0000]").to_string(),
        None => String::new(),
    }
}

/// One served request. The time is given as seconds and nanoseconds since
/// the Unix epoch.
#[derive(Debug, Clone)]
pub struct AccessLogRecord {
    pub remote_addr: String,
    pub time_secs: i64,
    pub time_nanos: u32,
    pub method: String,
    pub uri: String,
    pub proto: String,
    pub status: u16,
    pub body_bytes_sent: u64,
    pub referer: Option<String>,
    pub user_agent: Option<String>,
    pub request_time_ms: u64,
    pub upstream_response_time_ms: Option<u64>,
    pub host: String,
}

pub open spec fn or_dash(s: Option<String>) -> Seq<char> {
    match s {
        Some(v) => v@,
        None => "-"@,
    }
}

/// Milliseconds as seconds with three decimals (`42` is `0.042`).
pub open spec fn millis_text(ms: nat) -> Seq<char> {
    let r = ms % 1000;
    dec_str(ms / 1000) + "."@ + seq![
        crate::text::digit_char((r / 100) as int),
        crate::text::digit_char(((r / 10) % 10) as int),
        crate::text::digit_char((r % 10) as int),
    ]
}

impl AccessLogRecord {
    pub open spec fn time_ok(&self) -> bool {
        LOG_TIME_MIN <= self.time_secs <= LOG_TIME_MAX
    }

    pub open spec fn request_line(&self) -> Seq<char> {
        self.method@ + " "@ + self.uri@ + " "@ + self.proto@
    }

    /// The combined log format line.
    pub open spec fn combined_text(&self) -> Seq<char> {
        self.remote_addr@ + " - - "@ + clf_time_text(self.time_secs as int) + " \""@
            + self.request_line() + "\" "@ + dec_str(self.status as nat) + " "@ + dec_str(
            self.body_bytes_sent as nat,
        ) + " \""@ + or_dash(self.referer) + "\" \""@ + or_dash(self.user_agent) + "\""@
    }

    /// The text of one token.
    pub open spec fn token_text(&self, t: TokenView) -> Seq<char> {
        match t {
            TokenView::Literal(s) => s,
            TokenView::RemoteAddr => self.remote_addr@,
            TokenView::TimeLocal => clf_time_text(self.time_secs as int),
            TokenView::Request => self.request_line(),
            TokenView::Status => dec_str(self.status as nat),
            TokenView::BodyBytesSent => dec_str(self.body_bytes_sent as nat),
            TokenView::Referer => or_dash(self.referer),
            TokenView::UserAgent => or_dash(self.user_agent),
            TokenView::RequestTime => millis_text(self.request_time_ms as nat),
            TokenView::UpstreamResponseTime => match self.upstream_response_time_ms {
                Some(ms) => millis_text(ms as nat),
                None => "-"@,
            },
            TokenView::Host => self.host@,
            TokenView::Unknown(v) => "$"@ + v,
        }
    }

    pub open spec fn custom_text(&self, ts: Seq<TokenView>) -> Seq<char>
        decreases ts.len(),
    {
        if ts.len() == 0 {
            Seq::empty()
        } else {
            self.custom_text(ts.drop_last()) + self.token_text(ts.last())
        }
    }

    fn push_request_line(&self, out: &mut String)
        ensures
            final(out)@ == old(out)@ + self.request_line(),
    {
        push_str(out, self.method.as_str());
        push_str(out, " ");
        push_str(out, self.uri.as_str());
        push_str(out, " ");
        push_str(out, self.proto.as_str());
        assert(final(out)@ =~= old(out)@ + self.request_line());
    }

    pub fn render_combined(&self) -> (r: String)
        requires
            self.time_ok(),
        ensures
            r@ == self.combined_text(),
    {
        let mut out = String::new();
        push_str(&mut out, self.remote_addr.as_str());
        push_str(&mut out, " - - ");
        let t = clf_time(self.time_secs);
        push_str(&mut out, t.as_str());
        push_str(&mut out, " \"");
        self.push_request_line(&mut out);
        push_str(&mut out, "\" ");
        push_dec(&mut out, self.status as u64);
        push_str(&mut out, " ");
        push_dec(&mut out, self.body_bytes_sent);
        push_str(&mut out, " \"");
        push_or_dash(&mut out, &self.referer);
        push_str(&mut out, "\" \"");
        push_or_dash(&mut out, &self.user_agent);
        push_str(&mut out, "\"");
        assert(out@ =~= self.combined_text());
        out
    }

    fn push_token(&self, out: &mut String, t: &LogToken)
        requires
            self.time_ok(),
        ensures
            final(out)@ == old(out)@ + self.token_text(t@),
    {
        match t {
            LogToken::Literal(s) => push_str(out, s.as_str()),
            LogToken::RemoteAddr => push_str(out, self.remote_addr.as_str()),
            LogToken::TimeLocal => {
                let s = clf_time(self.time_secs);
                push_str(out, s.as_str());
            },
            LogToken::Request => self.push_request_line(out),
            LogToken::Status => push_dec(out, self.status as u64),
            LogToken::BodyBytesSent => push_dec(out, self.body_bytes_sent),
            LogToken::Referer => push_or_dash(out, &self.referer),
            LogToken::UserAgent => push_or_dash(out, &self.user_agent),
            LogToken::RequestTime => push_millis(out, self.request_time_ms),
            LogToken::UpstreamResponseTime => match self.upstream_response_time_ms {
                Some(ms) => push_millis(out, ms),
                None => push_str(out, "-"),
            },
            LogToken::Host => push_str(out, self.host.as_str()),
            LogToken::Unknown(v) => {
                push_str(out, "$");
                push_str(out, v.as_str());
                assert(final(out)@ =~= old(out)@ + self.token_text(t@));
            },
        }
    }

    pub fn render_custom(&self, tokens: &[LogToken]) -> (r: String)
        requires
            self.time_ok(),
        ensures
            r@ == self.custom_text(tokens_view(tokens@)),
    {
        let mut out = String::new();
        let ghost tv = tokens_view(tokens@);
        let mut i: usize = 0;
        assert(tv.take(0) =~= Seq::<TokenView>::empty());
        while i < tokens.len()
            invariant
                i <= tokens@.len(),
                self.time_ok(),
                tv == tokens_view(tokens@),
                out@ == self.custom_text(tv.take(i as int)),
            decreases tokens@.len() - i,
        {
            self.push_token(&mut out, &tokens[i]);
            assert(tv.take(i + 1).drop_last() =~= tv.take(i as int));
            assert(tv.take(i + 1).last() == tokens@[i as int]@);
            i += 1;
        }
        assert(tv.take(tokens@.len() as int) =~= tv);
        out
    }
}

fn push_or_dash(out: &mut String, s: &Option<String>)
    ensures
        final(out)@ == old(out)@ + or_dash(*s),
{
    match s {
        Some(v) => push_str(out, v.as_str()),
        None => push_str(out, "-"),
    }
}

fn push_millis(out: &mut String, ms: u64)
    ensures
        final(out)@ == old(out)@ + millis_text(ms as nat),
{
    push_dec(out, ms / 1000);
    push_str(out, ".");
    let r = ms % 1000;
    push_char(out, digit((r / 100) as u8));
    push_char(out, digit(((r / 10) % 10) as u8));
    push_char(out, digit((r % 10) as u8));
    assert(final(out)@ =~= old(out)@ + millis_text(ms as nat));
}

fn digit(d: u8) -> (c: char)
    requires
        d < 10,
    ensures
        c == crate::text::digit_char(d as int),
{
    ((d + 48u8) as char)
}

// ---------------------------------------------------------------------------
// Log rotation config
// ---------------------------------------------------------------------------

#[derive(Debug, Clone, Copy, PartialEq, Eq, Structural)]
pub enum RotationTrigger {
    OnSizeBytes(u64),
    Daily,
    Hourly,
}

#[derive(Debug, Clone, Copy)]
pub struct RotationConfig {
    pub trigger: RotationTrigger,
    pub max_files: usize,
    pub compress: bool,
}

impl RotationConfig {
    pub fn daily(max_files: usize, compress: bool) -> (r: Self)
        ensures
            r.trigger == RotationTrigger::Daily,
            r.max_files == max_files,
            r.compress == compress,
    {
        RotationConfig { trigger: RotationTrigger::Daily, max_files, compress }
    }

    pub fn on_size(bytes: u64, max_files: usize, compress: bool) -> (r: Self)
        ensures
            r.trigger == RotationTrigger::OnSizeBytes(bytes),
            r.max_files == max_files,
            r.compress == compress,
    {
        RotationConfig { trigger: RotationTrigger::OnSizeBytes(bytes), max_files, compress }
    }

    /// The rotated file name for sequence number `n`: `base.n`.
    pub fn rotated_name(base: &str, n: usize) -> (r: String)
        ensures
            r@ == base@ + "."@ + dec_str(n as nat),
    {
        let mut out = crate::text::to_owned(base);
        push_str(&mut out, ".");
        push_dec(&mut out, n as u64);
        out
    }

    /// Whether the size threshold is reached (only for size-triggered
    /// rotation).
    pub fn size_exceeded(&self, current_bytes: u64) -> (r: bool)
        ensures
            r == match self.trigger {
                RotationTrigger::OnSizeBytes(max) => current_bytes >= max,
                _ => false,
            },
    {
        match self.trigger {
            RotationTrigger::OnSizeBytes(max) => current_bytes >= max,
            _ => false,
        }
    }
}

// ---------------------------------------------------------------------------
// Startup files
// ---------------------------------------------------------------------------

pub open spec fn systemd_unit_text(app_name: Seq<char>, exec_start: Seq<char>, user: Seq<char>) -> Seq<char> {
    "[Unit]\nDescription="@ + app_name + " - Aegis-Flow managed process\nAfter=network.target\n\n[Service]\nType=simple\nUser="@
        + user + "\nExecStart="@ + exec_start
        + "\nRestart=always\nRestartSec=1\nStandardOutput=journal\nStandardError=journal\n\n[Install]\nWantedBy=multi-user.target\n"@
}

/// A systemd unit that keeps the process running.
pub fn generate_systemd_unit(app_name: &str, exec_start: &str, user: &str) -> (r: String)
    ensures
        r@ == systemd_unit_text(app_name@, exec_start@, user@),
{
    let mut out = String::new();
    push_str(&mut out, "[Unit]\nDescription=");
    push_str(&mut out, app_name);
    push_str(&mut out, " - Aegis-Flow managed process\nAfter=network.target\n\n[Service]\nType=simple\nUser=");
    push_str(&mut out, user);
    push_str(&mut out, "\nExecStart=");
    push_str(&mut out, exec_start);
    push_str(&mut out, "\nRestart=always\nRestartSec=1\nStandardOutput=journal\nStandardError=journal\n\n[Install]\nWantedBy=multi-user.target\n");
    assert(out@ =~= systemd_unit_text(app_name@, exec_start@, user@));
    out
}

pub open spec fn plist_arg(a: Seq<char>) -> Seq<char> {
    "        <string>"@ + a + "</string>"@
}

pub open spec fn launchd_plist_text(app_name: Seq<char>, args: Seq<Seq<char>>) -> Seq<char> {
    "<?xml version=\"1.0\" encoding=\"UTF-8\"?>\n<!DOCTYPE plist PUBLIC \"-//Apple//DTD PLIST 1.0//EN\" \"http://www.apple.com/DTDs/PropertyList-1.0.dtd\">\n<plist version=\"1.0\">\n<dict>\n<key>Label</key>\n<string>com.aegis-flow."@
        + app_name + "</string>\n<key>ProgramArguments</key>\n<array>\n"@ + join(
        args.map_values(|a: Seq<char>| plist_arg(a)),
        "\n"@,
    )
        + "\n</array>\n<key>KeepAlive</key>\n<true/>\n<key>RunAtLoad</key>\n<true/>\n<key>StandardOutPath</key>\n<string>/tmp/"@
        + app_name + "-stdout.log</string>\n<key>StandardErrorPath</key>\n<string>/tmp/"@ + app_name
        + "-stderr.log</string>\n</dict>\n</plist>\n"@
}

/// A launchd property list that keeps the program running.
pub fn generate_launchd_plist(app_name: &str, program_args: &[&str]) -> (r: String)
    ensures
        r@ == launchd_plist_text(app_name@, program_args@.map_values(|a: &str| a@)),
{
    let ghost args = program_args@.map_values(|a: &str| a@);
    let ghost f = |a: Seq<char>| plist_arg(a);
    let mut out = String::new();
    push_str(&mut out, "<?xml version=\"1.0\" encoding=\"UTF-8\"?>\n<!DOCTYPE plist PUBLIC \"-//Apple//DTD PLIST 1.0//EN\" \"http://www.apple.com/DTDs/PropertyList-1.0.dtd\">\n<plist version=\"1.0\">\n<dict>\n<key>Label</key>\n<string>com.aegis-flow.");
    push_str(&mut out, app_name);
    push_str(&mut out, "</string>\n<key>ProgramArguments</key>\n<array>\n");
    let ghost head = out@;
    let mut i: usize = 0;
    assert(args.take(0).map_values(f) =~= Seq::<Seq<char>>::empty());
    while i < program_args.len()
        invariant
            i <= program_args@.len(),
            args == program_args@.map_values(|a: &str| a@),
            f == (|a: Seq<char>| plist_arg(a)),
            out@ == head + join(args.take(i as int).map_values(f), "\n"@),
        decreases program_args@.len() - i,
    {
        let ghost before = out@;
        if i > 0 {
            push_str(&mut out, "\n");
        }
        push_str(&mut out, "        <string>");
        push_str(&mut out, program_args[i]);
        push_str(&mut out, "</string>");
        proof {
            let ps = args.take(i + 1).map_values(f);
            let qs = args.take(i as int).map_values(f);
            assert(ps.drop_last() =~= qs);
            assert(ps.last() == plist_arg(program_args@[i as int]@));
            if i == 0 {
                assert(ps.len() == 1);
                assert(join(qs, "\n"@) =~= Seq::<char>::empty());
                assert(out@ =~= head + join(ps, "\n"@));
            } else {
                assert(out@ =~= head + join(ps, "\n"@));
            }
        }
        i += 1;
    }
    assert(args.take(program_args@.len() as int) =~= args);
    push_str(&mut out, "\n</array>\n<key>KeepAlive</key>\n<true/>\n<key>RunAtLoad</key>\n<true/>\n<key>StandardOutPath</key>\n<string>/tmp/");
    push_str(&mut out, app_name);
    push_str(&mut out, "-stdout.log</string>\n<key>StandardErrorPath</key>\n<string>/tmp/");
    push_str(&mut out, app_name);
    push_str(&mut out, "-stderr.log</string>\n</dict>\n</plist>\n");
    assert(out@ =~= launchd_plist_text(app_name@, args));
    out
}

} // verus!
