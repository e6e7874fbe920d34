//! Regular expressions of the configuration (location blocks, rewrites,
//! maps), held by their source text and evaluated by the `regex` crate.

use vstd::prelude::*;

verus! {

#[verifier::external_type_specification]
#[verifier::external_body]
pub struct ExRegexError(regex::Error);

/// Whether `regex::Regex::new` accepts the pattern.
pub uninterp spec fn regex_valid(pattern: Seq<char>) -> bool;

/// `Regex::is_match`: whether the pattern matches somewhere in the text.
pub uninterp spec fn regex_is_match(pattern: Seq<char>, text: Seq<char>) -> bool;

/// `Regex::replace`: the text with its leftmost match replaced, `$n` in the
/// replacement standing for capture group `n`.
pub uninterp spec fn regex_replace(pattern: Seq<char>, text: Seq<char>, rep: Seq<char>) -> Seq<char>;

/// `regex::Regex::new`, the compiled value dropped. Trusted: it succeeds
/// exactly when `regex_valid` holds of the pattern; which error comes back is
/// not stated.
#[verifier::external_body]
fn regex_compile(pattern: &str) -> (r: Result<(), regex::Error>)
    ensures
        r is Ok <==> regex_valid(pattern@),
{
    regex::Regex::new(pattern).map(|_| ())
}

/// `Regex::new(pattern)` then `is_match(text)`. Trusted: the answer is named
/// `regex_is_match` of the pattern and the text; the regex semantics are
/// not stated.
#[verifier::external_body]
fn regex_match_text(pattern: &str, text: &str) -> (r: bool)
    requires
        regex_valid(pattern@),
    ensures
        r == regex_is_match(pattern@, text@),
{
    match regex::Regex::new(pattern) {
        Ok(re) => re.is_match(text),
        Err(_) => false,
    }
}

/// `Regex::new(pattern)` then `replace(text, rep)`. Trusted: the result is
/// named `regex_replace` of the three texts, and a text that the pattern
/// does not match comes back unchanged (the crate's `replacen` returns the
/// haystack when there is no match).
#[verifier::external_body]
fn regex_replace_text(pattern: &str, text: &str, rep: &str) -> (r: String)
    requires
        regex_valid(pattern@),
    ensures
        r@ == regex_replace(pattern@, text@, rep@),
        !regex_is_match(pattern@, text@) ==> r@ == text@,
{
    match regex::Regex::new(pattern) {
        Ok(re) => re.replace(text, rep).into_owned(),
        Err(_) => text.to_string(),
    }
}

/// A pattern that the `regex` crate accepts.
pub struct Pattern {
    source: String,
}

impl Pattern {
    #[verifier::type_invariant]
    spec fn inv(self) -> bool {
        regex_valid(self.source@)
    }

    pub closed spec fn spec_source(&self) -> Seq<char> {
        self.source@
    }

    /// Compiles a pattern; a pattern that the crate refuses is an error.
    pub fn new(source: &str) -> (r: Result<Pattern, regex::Error>)
        ensures
            r is Ok <==> regex_valid(source@),
            r matches Ok(p) ==> p.spec_source() == source@,
    {
        match regex_compile(source) {
            Ok(()) => Ok(Pattern { source: crate::text::to_owned(source) }),
            Err(e) => Err(e),
        }
    }

    pub fn source(&self) -> (r: &str)
        ensures
            r@ == self.spec_source(),
    {
        self.source.as_str()
    }

    pub fn is_match(&self, text: &str) -> (r: bool)
        ensures
            r == regex_is_match(self.spec_source(), text@),
    {
        proof {
            use_type_invariant(self);
        }
        regex_match_text(self.source.as_str(), text)
    }

    pub fn replace(&self, text: &str, rep: &str) -> (r: String)
        ensures
            r@ == regex_replace(self.spec_source(), text@, rep@),
            !regex_is_match(self.spec_source(), text@) ==> r@ == text@,
    {
        proof {
            use_type_invariant(self);
        }
        regex_replace_text(self.source.as_str(), text, rep)
    }
}

} // verus!
