//! Request body limits and response rate limiting.

use vstd::prelude::*;
use std::time::Duration;
use crate::http_proxy::{
    bytes_of, fields_view, first_field, first_field_exec, text_of, value_text, value_text_exec, ProxyResponse,
};
use crate::text::{parse_u64, parse_u64_str};

verus! {

/// The limits of a location: the response rate (bytes per second, `0` for
/// none) after a free burst, the largest request body, and how long the
/// header and the body may take.
pub struct RateAndSizeLimits {
    pub limit_rate: u64,
    pub limit_rate_after: u64,
    pub client_max_body_size: u64,
    pub client_header_timeout: Duration,
    pub client_body_timeout: Duration,
}

/// A plain answer with no fields.
pub open spec fn plain_reply(r: ProxyResponse, status: u16, body: Seq<char>) -> bool {
    r.status == status && r.headers@.len() == 0 && r.body@ == text_of(body)
}

fn plain(status: u16, body: &str) -> (r: ProxyResponse)
    ensures
        plain_reply(r, status, body@),
{
    ProxyResponse { status, headers: Vec::new(), body: bytes_of(body) }
}

/// The length a request declares: its first `Content-Length` field, where
/// that is visible ASCII and a `u64`.
pub open spec fn declared_length(fields: Seq<(Seq<char>, Seq<u8>)>) -> Option<u64> {
    match first_field(fields, "content-length"@) {
        Some(v) => parse_u64(value_text(v)),
        None => None,
    }
}

/// Refuses up front (`413 Payload Too Large`) a request whose
/// `Content-Length` is over the limit; a missing or unreadable length passes.
pub fn check_body_size_limit(headers: &Vec<(String, Vec<u8>)>, max_size: u64) -> (r: Result<(), ProxyResponse>)
    ensures
        match declared_length(fields_view(headers@)) {
            Some(n) => if n > max_size {
                r matches Err(e) && plain_reply(e, 413, "Payload Too Large"@)
            } else {
                r is Ok
            },
            None => r is Ok,
        },
{
    match first_field_exec(headers, "content-length") {
        Some(v) => {
            let text = value_text_exec(v.as_slice());
            match parse_u64_str(text.as_str()) {
                Some(n) => {
                    if n > max_size {
                        Err(plain(413, "Payload Too Large"))
                    } else {
                        Ok(())
                    }
                },
                None => Ok(()),
            }
        },
        None => Ok(()),
    }
}

/// How reading a request body within its time ended.
pub enum BodyRead {
    /// The whole body.
    Collected(Vec<u8>),
    /// The body could not be read.
    Failed,
    /// The time ran out.
    TimedOut,
}

/// The body read within the time limit, or the answer to give: `413
/// Payload Too Large` over the size limit, `400 Bad Request` where reading
/// failed, `408 Request Timeout` where the time ran out.
pub fn body_read_reply(outcome: BodyRead, max_size: u64) -> (r: Result<Vec<u8>, ProxyResponse>)
    ensures
        match outcome {
            BodyRead::Collected(b) => if b@.len() > max_size {
                r matches Err(e) && plain_reply(e, 413, "Payload Too Large"@)
            } else {
                r matches Ok(c) && c@ == b@
            },
            BodyRead::Failed => r matches Err(e) && plain_reply(e, 400, "Bad Request"@),
            BodyRead::TimedOut => r matches Err(e) && plain_reply(e, 408, "Request Timeout"@),
        },
{
    match outcome {
        BodyRead::Collected(b) => {
            if b.len() as u64 > max_size {
                Err(plain(413, "Payload Too Large"))
            } else {
                Ok(b)
            }
        },
        BodyRead::Failed => Err(plain(400, "Bad Request")),
        BodyRead::TimedOut => Err(plain(408, "Request Timeout")),
    }
}

/// The bytes sent beyond the free burst, which are to be paced at
/// `limit_rate` bytes per second: none where the rate is unlimited or the
/// burst is not used up.
pub fn limit_rate_overage(bytes_sent: u64, limits: &RateAndSizeLimits) -> (r: Option<u64>)
    ensures
        r == (if limits.limit_rate == 0 || bytes_sent <= limits.limit_rate_after {
            None
        } else {
            Some((bytes_sent - limits.limit_rate_after) as u64)
        }),
{
    if limits.limit_rate == 0 {
        return None;
    }
    if bytes_sent > limits.limit_rate_after {
        Some(bytes_sent - limits.limit_rate_after)
    } else {
        None
    }
}

} // verus!
