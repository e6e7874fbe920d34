//! FastCGI request encoding: the byte stream that opens a responder
//! request, its parameters and its body.

use vstd::prelude::*;
use crate::cgi::{add_headers, add_request_line, CgiRequest, Env, EnvSeq};
use crate::net::{be_bytes, push_be};

verus! {

pub const FCGI_VERSION_1: u8 = 1;
pub const FCGI_BEGIN_REQUEST: u8 = 1;
pub const FCGI_PARAMS: u8 = 4;
pub const FCGI_STDIN: u8 = 5;
pub const FCGI_RESPONDER: u16 = 1;

/// The eight bytes of a record header.
pub open spec fn record_header(t: u8, id: u16, len: nat, pad: nat) -> Seq<u8> {
    seq![
        FCGI_VERSION_1,
        t,
        (id / 256) as u8,
        (id % 256) as u8,
        (len / 256) as u8,
        (len % 256) as u8,
        pad as u8,
        0u8,
    ]
}

/// Padding that brings a record's content to a multiple of eight bytes.
pub open spec fn pad_for(n: nat) -> nat {
    ((8 - (n % 8)) % 8) as nat
}

pub open spec fn zeros(n: nat) -> Seq<u8> {
    Seq::new(n, |i: int| 0u8)
}

/// `data` as records of type `t`, at most 65535 bytes each, padded.
pub open spec fn records(t: u8, id: u16, data: Seq<u8>) -> Seq<u8>
    decreases data.len(),
{
    if data.len() == 0 {
        Seq::empty()
    } else {
        let n: nat = if data.len() < 65535 { data.len() } else { 65535 };
        record_header(t, id, n, pad_for(n)) + data.take(n as int) + zeros(pad_for(n)) + records(
            t,
            id,
            data.skip(n as int),
        )
    }
}

/// The length of a name or value: one byte below 128, else four bytes
/// with the top bit set.
pub open spec fn length_code(n: nat) -> Seq<u8> {
    if n < 128 {
        seq![n as u8]
    } else {
        be_bytes(((n as u32) | 0x8000_0000u32) as nat, 4)
    }
}

pub open spec fn name_value_pair(k: Seq<u8>, v: Seq<u8>) -> Seq<u8> {
    length_code(k.len()) + length_code(v.len()) + k + v
}

/// The name-value pairs of an environment, in its order.
pub open spec fn params_bytes(env: EnvSeq) -> Seq<u8>
    decreases env.len(),
{
    if env.len() == 0 {
        Seq::empty()
    } else {
        params_bytes(env.drop_last()) + name_value_pair(
            vstd::utf8::encode_utf8(env.last().0),
            vstd::utf8::encode_utf8(env.last().1),
        )
    }
}

/// The body chunks as stdin records, chunk by chunk.
pub open spec fn stdin_bytes(id: u16, chunks: Seq<Seq<u8>>) -> Seq<u8>
    decreases chunks.len(),
{
    if chunks.len() == 0 {
        Seq::empty()
    } else {
        stdin_bytes(id, chunks.drop_last()) + records(FCGI_STDIN, id, chunks.last())
    }
}

/// The parameters of a request: the script, the request line, the headers.
pub open spec fn fastcgi_env(req: &CgiRequest, script: Seq<char>) -> EnvSeq {
    req.env(seq![("SCRIPT_FILENAME"@, script)])
}

/// The whole request: begin (responder role, no keep-alive), the
/// parameters and an empty parameters record, the body and an empty stdin
/// record.
pub open spec fn fastcgi_request(req: &CgiRequest, id: u16, script: Seq<char>) -> Seq<u8> {
    record_header(FCGI_BEGIN_REQUEST, id, 8, 0) + seq![0u8, 1, 0, 0, 0, 0, 0, 0] + records(
        FCGI_PARAMS,
        id,
        params_bytes(fastcgi_env(req, script)),
    ) + record_header(FCGI_PARAMS, id, 0, 0) + stdin_bytes(id, req.spec_body())
        + record_header(FCGI_STDIN, id, 0, 0)
}

fn push_header(buf: &mut Vec<u8>, t: u8, id: u16, len: u16, pad: u8)
    ensures
        final(buf)@ == old(buf)@ + record_header(t, id, len as nat, pad as nat),
{
    buf.push(FCGI_VERSION_1);
    buf.push(t);
    buf.push((id / 256) as u8);
    buf.push((id % 256) as u8);
    buf.push((len / 256) as u8);
    buf.push((len % 256) as u8);
    buf.push(pad);
    buf.push(0u8);
    assert(final(buf)@ =~= old(buf)@ + record_header(t, id, len as nat, pad as nat));
}

fn push_slice(buf: &mut Vec<u8>, s: &[u8], from: usize, to: usize)
    requires
        from <= to <= s@.len(),
    ensures
        final(buf)@ == old(buf)@ + s@.subrange(from as int, to as int),
{
    let mut i: usize = from;
    while i < to
        invariant
            from <= i <= to <= s@.len(),
            buf@ == old(buf)@ + s@.subrange(from as int, i as int),
        decreases to - i,
    {
        buf.push(s[i]);
        assert(s@.subrange(from as int, i + 1) =~= s@.subrange(from as int, i as int).push(s@[i as int]));
        i += 1;
    }
}

fn push_zeros(buf: &mut Vec<u8>, n: usize)
    ensures
        final(buf)@ == old(buf)@ + zeros(n as nat),
{
    let mut i: usize = 0;
    while i < n
        invariant
            i <= n,
            buf@ == old(buf)@ + zeros(i as nat),
        decreases n - i,
    {
        buf.push(0u8);
        assert(zeros((i + 1) as nat) =~= zeros(i as nat).push(0u8));
        i += 1;
    }
}

/// Appends `data` as records of type `t`.
fn push_records(buf: &mut Vec<u8>, t: u8, id: u16, data: &[u8])
    ensures
        final(buf)@ == old(buf)@ + records(t, id, data@),
{
    let mut at: usize = 0;
    assert(data@.skip(0) =~= data@);
    assert(old(buf)@ + Seq::<u8>::empty() =~= old(buf)@);
    while at < data.len()
        invariant
            at <= data@.len(),
            old(buf)@ + records(t, id, data@) == buf@ + records(t, id, data@.skip(at as int)),
        decreases data@.len() - at,
    {
        let rest = data.len() - at;
        let n: usize = if rest < 65535 { rest } else { 65535 };
        let pad: usize = (8 - (n % 8)) % 8;
        let ghost tail = data@.skip(at as int);
        let ghost before = buf@;
        push_header(buf, t, id, n as u16, pad as u8);
        push_slice(buf, data, at, at + n);
        push_zeros(buf, pad);
        proof {
            assert(tail.take(n as int) =~= data@.subrange(at as int, at + n));
            assert(tail.skip(n as int) =~= data@.skip(at + n));
            assert(records(t, id, tail) == record_header(t, id, n as nat, pad as nat) + tail.take(
                n as int,
            ) + zeros(pad as nat) + records(t, id, tail.skip(n as int)));
            assert(buf@ == before + record_header(t, id, n as nat, pad as nat) + tail.take(n as int)
                + zeros(pad as nat));
            assert(before + records(t, id, tail) =~= buf@ + records(t, id, data@.skip(at + n)));
        }
        at = at + n;
    }
    assert(data@.skip(data@.len() as int) =~= Seq::<u8>::empty());
    assert(buf@ + Seq::<u8>::empty() =~= buf@);
}

fn push_length(buf: &mut Vec<u8>, n: usize)
    ensures
        final(buf)@ == old(buf)@ + length_code(n as nat),
{
    if n < 128 {
        buf.push(n as u8);
        assert(final(buf)@ =~= old(buf)@ + length_code(n as nat));
    } else {
        let code: u32 = (n as u32) | 0x8000_0000u32;
        push_be(buf, code as u128, 4);
    }
}

fn push_params(buf: &mut Vec<u8>, env: &Env)
    ensures
        final(buf)@ == old(buf)@ + params_bytes(env.spec_view()),
{
    let ghost v = env.spec_view();
    let mut i: usize = 0;
    assert(v.take(0) =~= Seq::<(Seq<char>, Seq<char>)>::empty());
    while i < env.entries.len()
        invariant
            i <= env.entries@.len(),
            v == env.spec_view(),
            v.len() == env.entries@.len(),
            buf@ == old(buf)@ + params_bytes(v.take(i as int)),
        decreases env.entries@.len() - i,
    {
        let k = env.entries[i].0.as_str().as_bytes();
        let val = env.entries[i].1.as_str().as_bytes();
        let ghost before = buf@;
        push_length(buf, k.len());
        push_length(buf, val.len());
        push_slice(buf, k, 0, k.len());
        push_slice(buf, val, 0, val.len());
        proof {
            assert(v.take(i + 1).drop_last() =~= v.take(i as int));
            assert(v.take(i + 1).last() == v[i as int]);
            assert(k@.subrange(0, k@.len() as int) =~= k@);
            assert(val@.subrange(0, val@.len() as int) =~= val@);
            assert(buf@ =~= before + name_value_pair(k@, val@));
        }
        i += 1;
    }
    assert(v.take(v.len() as int) =~= v);
}

pub struct FastCgiClient;

impl FastCgiClient {
    /// The complete byte sequence of a FastCGI responder request.
    pub fn encode_request(req: &CgiRequest, request_id: u16, script_filename: &str) -> (r: Vec<u8>)
        ensures
            r@ == fastcgi_request(req, request_id, script_filename@),
    {
        let mut buf: Vec<u8> = Vec::new();
        push_header(&mut buf, FCGI_BEGIN_REQUEST, request_id, 8, 0);
        buf.push((FCGI_RESPONDER / 256) as u8);
        buf.push((FCGI_RESPONDER % 256) as u8);
        let mut k: usize = 0;
        while k < 6
            invariant
                k <= 6,
                buf@ == record_header(FCGI_BEGIN_REQUEST, request_id, 8, 0) + seq![0u8, 1]
                    + zeros(k as nat),
            decreases 6 - k,
        {
            buf.push(0u8);
            assert(zeros((k + 1) as nat) =~= zeros(k as nat).push(0u8));
            k += 1;
        }
        assert(seq![0u8, 1] + zeros(6) =~= seq![0u8, 1, 0, 0, 0, 0, 0, 0]);

        let mut env = Env { entries: Vec::new() };
        proof {
            reveal_strlit("SCRIPT_FILENAME");
            assert(env.spec_view() =~= Seq::<(Seq<char>, Seq<char>)>::empty());
        }
        env.insert(crate::text::to_owned("SCRIPT_FILENAME"), crate::text::to_owned(script_filename));
        proof {
            assert(env.spec_view() =~= seq![("SCRIPT_FILENAME"@, script_filename@)]);
            assert("SCRIPT_FILENAME"@.len() == 15);
            reveal_strlit("REQUEST_METHOD");
            reveal_strlit("REQUEST_URI");
            reveal_strlit("QUERY_STRING");
            assert("REQUEST_METHOD"@.len() == 14);
            assert("REQUEST_URI"@.len() == 11);
            assert("QUERY_STRING"@.len() == 12);
        }
        add_request_line(&mut env, req);
        add_headers(&mut env, &req.headers);

        let mut params: Vec<u8> = Vec::new();
        push_params(&mut params, &env);
        assert(params@ =~= params_bytes(fastcgi_env(req, script_filename@)));
        push_records(&mut buf, FCGI_PARAMS, request_id, params.as_slice());
        push_header(&mut buf, FCGI_PARAMS, request_id, 0, 0);

        let ghost chunks = req.spec_body();
        let ghost mid = buf@;
        let mut c: usize = 0;
        assert(chunks.take(0) =~= Seq::<Seq<u8>>::empty());
        while c < req.body.len()
            invariant
                c <= req.body@.len(),
                chunks == req.spec_body(),
                buf@ == mid + stdin_bytes(request_id, chunks.take(c as int)),
            decreases req.body@.len() - c,
        {
            push_records(&mut buf, FCGI_STDIN, request_id, req.body[c].as_slice());
            assert(chunks.take(c + 1).drop_last() =~= chunks.take(c as int));
            assert(chunks.take(c + 1).last() == req.body@[c as int]@);
            c += 1;
        }
        assert(chunks.take(req.body@.len() as int) =~= chunks);
        push_header(&mut buf, FCGI_STDIN, request_id, 0, 0);
        buf
    }
}

} // verus!
