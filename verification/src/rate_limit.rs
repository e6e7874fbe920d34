//! Answers to requests over a rate limit.

use vstd::prelude::*;
use crate::http_proxy::{bytes_of, field, fields_view, text_of, ProxyResponse};
use crate::text::{dec_str, u64_to_dec};

verus! {

/// `429 Rate Limit Exceeded` with `Retry-After` in whole seconds: those of
/// the wait, and at least one.
pub fn create_429_response(retry_after_secs: u64) -> (r: ProxyResponse)
    ensures
        r.status == 429,
        fields_view(r.headers@) == seq![
            ("retry-after"@, text_of(dec_str((if retry_after_secs == 0 { 1 } else { retry_after_secs }) as nat))),
        ],
        r.body@ == text_of("Rate Limit Exceeded"@),
{
    let secs: u64 = if retry_after_secs == 0 {
        1
    } else {
        retry_after_secs
    };
    let text = u64_to_dec(secs);
    let mut headers: Vec<(String, Vec<u8>)> = Vec::new();
    headers.push(field("retry-after", text.as_str()));
    assert(fields_view(headers@) =~= seq![("retry-after"@, text_of(dec_str(secs as nat)))]);
    ProxyResponse { status: 429, headers, body: bytes_of("Rate Limit Exceeded") }
}

} // verus!
