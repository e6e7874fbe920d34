//! `rewrite` rules (a pattern, a replacement with capture references, a
//! flag) and `return` directives.

use vstd::prelude::*;
use crate::pattern::{regex_is_match, regex_replace, regex_valid, Pattern};

verus! {

#[derive(Debug, Clone, Copy, PartialEq, Eq, Structural)]
pub enum RewriteFlag {
    Last,
    Break,
    Redirect,
    Permanent,
}

#[derive(Debug, Clone)]
pub struct RewriteRule {
    pub pattern: String,
    pub replacement: String,
    pub flag: Option<RewriteFlag>,
}

pub struct CompiledRewriteRule {
    pub config: RewriteRule,
    pub regex: Pattern,
}

impl CompiledRewriteRule {
    pub open spec fn wf(&self) -> bool {
        self.regex.spec_source() == self.config.pattern@
    }

    /// Compiles the rule's pattern; a pattern that the `regex` crate refuses
    /// is an error.
    pub fn new(config: RewriteRule) -> (r: Result<Self, regex::Error>)
        ensures
            r is Ok <==> regex_valid(config.pattern@),
            r matches Ok(c) ==> c.wf() && c.config.pattern@ == config.pattern@
                && c.config.replacement@ == config.replacement@ && c.config.flag == config.flag,
    {
        match Pattern::new(config.pattern.as_str()) {
            Ok(regex) => Ok(CompiledRewriteRule { config, regex }),
            Err(e) => Err(e),
        }
    }

    /// When the pattern matches, the URI with its first match replaced
    /// (capture groups substituted) and the rule's flag; otherwise `None`.
    pub fn apply(&self, uri: &str) -> (r: Option<(String, Option<RewriteFlag>)>)
        requires
            self.wf(),
        ensures
            match r {
                Some((s, f)) => regex_is_match(self.config.pattern@, uri@) && s@ == regex_replace(
                    self.config.pattern@,
                    uri@,
                    self.config.replacement@,
                ) && f == self.config.flag,
                None => !regex_is_match(self.config.pattern@, uri@),
            },
    {
        if self.regex.is_match(uri) {
            let replaced = self.regex.replace(uri, self.config.replacement.as_str());
            Some((replaced, self.config.flag))
        } else {
            None
        }
    }
}

#[derive(Debug, Clone)]
pub struct ReturnDirective {
    pub code: u16,
    pub text_or_url: Option<String>,
}

/// The response of a `return` directive: status, `Location` header, body.
#[derive(Debug, Clone, PartialEq, Eq)]
pub struct ReturnResponse {
    pub status: u16,
    pub location: Option<String>,
    pub body: Vec<u8>,
}

/// Why a `return` response cannot be built.
#[derive(Debug, Clone, Copy, PartialEq, Eq, Structural)]
pub enum ReturnError {
    /// The code is no HTTP status (100 to 999).
    InvalidStatus,
    /// The redirect target holds a character that a header value cannot.
    InvalidLocation,
}

pub open spec fn is_redirect_code(code: u16) -> bool {
    code == 301 || code == 302 || code == 303 || code == 307 || code == 308
}

/// A character that a header value cannot hold: a control character other
/// than tab, or DEL.
pub open spec fn bad_header_char(c: char) -> bool {
    ((c as u32) < 32 && c != '\t') || c == '\x7f'
}

pub open spec fn valid_header_text(s: Seq<char>) -> bool {
    forall|i: int| 0 <= i < s.len() ==> !bad_header_char(#[trigger] s[i])
}

fn header_text_ok(s: &str) -> (r: bool)
    ensures
        r == valid_header_text(s@),
{
    let cs = crate::text::chars_of(s);
    let mut i: usize = 0;
    while i < cs.len()
        invariant
            i <= cs@.len(),
            cs@ == s@,
            forall|j: int| 0 <= j < i ==> !bad_header_char(#[trigger] s@[j]),
        decreases cs@.len() - i,
    {
        let c = cs[i];
        if ((c as u32) < 32 && c != '\t') || c == '\x7f' {
            return false;
        }
        i += 1;
    }
    true
}

impl ReturnDirective {
    /// The status, `Location` and body of the response, or why there is none.
    pub open spec fn spec_response(&self) -> Result<(u16, Option<Seq<char>>, Seq<u8>), ReturnError> {
        if !(100 <= self.code <= 999) {
            Err(ReturnError::InvalidStatus)
        } else {
            match self.text_or_url {
                Some(t) => if is_redirect_code(self.code) {
                    if valid_header_text(t@) {
                        Ok((self.code, Some(t@), Seq::empty()))
                    } else {
                        Err(ReturnError::InvalidLocation)
                    }
                } else {
                    Ok((self.code, None, vstd::utf8::encode_utf8(t@)))
                },
                None => Ok((self.code, None, Seq::empty())),
            }
        }
    }

    /// The response: a redirect code with a target gives the target as
    /// `Location` and no body; another code with a text gives the text as
    /// body; no text gives an empty body.
    pub fn return_response(&self) -> (r: Result<ReturnResponse, ReturnError>)
        ensures
            match (r, self.spec_response()) {
                (Ok(resp), Ok((st, loc, body))) => resp.status == st && resp.body@ == body && match (
                    resp.location,
                    loc,
                ) {
                    (Some(a), Some(b)) => a@ == b,
                    (None, None) => true,
                    _ => false,
                },
                (Err(e), Err(f)) => e == f,
                _ => false,
            },
    {
        if self.code < 100 || self.code > 999 {
            return Err(ReturnError::InvalidStatus);
        }
        match &self.text_or_url {
            Some(txt) => {
                if self.code == 301 || self.code == 302 || self.code == 303 || self.code == 307
                    || self.code == 308 {
                    if !header_text_ok(txt.as_str()) {
                        return Err(ReturnError::InvalidLocation);
                    }
                    Ok(
                        ReturnResponse {
                            status: self.code,
                            location: Some(crate::text::to_owned(txt.as_str())),
                            body: Vec::new(),
                        },
                    )
                } else {
                    let b = txt.as_str().as_bytes();
                    let mut body: Vec<u8> = Vec::new();
                    let mut i: usize = 0;
                    while i < b.len()
                        invariant
                            i <= b@.len(),
                            body@ == b@.take(i as int),
                        decreases b@.len() - i,
                    {
                        body.push(b[i]);
                        assert(b@.take(i + 1) =~= b@.take(i as int).push(b@[i as int]));
                        i += 1;
                    }
                    assert(b@.take(b@.len() as int) =~= b@);
                    Ok(ReturnResponse { status: self.code, location: None, body })
                }
            },
            None => Ok(ReturnResponse { status: self.code, location: None, body: Vec::new() }),
        }
    }
}

} // verus!
