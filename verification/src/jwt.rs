//! Bearer tokens in requests.

use vstd::prelude::*;
use crate::http_proxy::{fields_view, first_field, first_field_exec, value_text, value_text_exec};
use crate::text::{chars_of, chars_slice, chars_starts_with, string_of};

verus! {

/// The claims of a token: its subject and expiry (seconds since the epoch).
#[derive(Debug, Clone)]
pub struct Claims {
    pub sub: String,
    pub exp: usize,
}

/// The token of a request's first `Authorization` field, where that is
/// visible ASCII and starts with `Bearer `.
pub open spec fn bearer_token(fields: Seq<(Seq<char>, Seq<u8>)>) -> Option<Seq<char>> {
    match first_field(fields, "authorization"@) {
        Some(v) => {
            let t = value_text(v);
            if t.len() >= 7 && t.take(7) == "Bearer "@ {
                Some(t.skip(7))
            } else {
                None
            }
        },
        None => None,
    }
}

/// The bearer token of a request.
pub fn extract_bearer(headers: &Vec<(String, Vec<u8>)>) -> (r: Option<String>)
    ensures
        match (r, bearer_token(fields_view(headers@))) {
            (Some(a), Some(b)) => a@ == b,
            (None, None) => true,
            _ => false,
        },
{
    proof {
        reveal_strlit("Bearer ");
    }
    match first_field_exec(headers, "authorization") {
        Some(v) => {
            let t = chars_of(value_text_exec(v.as_slice()).as_str());
            let p = chars_of("Bearer ");
            if chars_starts_with(t.as_slice(), p.as_slice()) {
                assert(t@.take(7) =~= "Bearer "@);
                Some(string_of(chars_slice(t.as_slice(), 7, t.len()).as_slice()))
            } else {
                None
            }
        },
        None => None,
    }
}

} // verus!
