//! SCGI request encoding: a netstring of NUL-separated variables (with
//! `SCGI` and `CONTENT_LENGTH` first), then the body.

use vstd::prelude::*;
use crate::cgi::{
    add_headers, add_request_line, env_get, env_insert, env_remove, has_key, CgiRequest, Env,
    EnvSeq,
};
use crate::text::dec_str;

verus! {

/// The variables of a request before `CONTENT_LENGTH` is settled.
pub open spec fn scgi_env(req: &CgiRequest) -> EnvSeq {
    req.env(seq![("SCGI"@, "1"@)])
}

/// `CONTENT_LENGTH` is set to `0` when neither it nor the header's variable
/// is present.
pub open spec fn with_length(env: EnvSeq) -> EnvSeq {
    if !has_key(env, "HTTP_CONTENT_LENGTH"@) && !has_key(env, "CONTENT_LENGTH"@) {
        env_insert(env, "CONTENT_LENGTH"@, "0"@)
    } else {
        env
    }
}

/// The length that is sent, and the variables that remain after `SCGI`
/// and the length's variable are taken out.
pub open spec fn length_and_rest(env: EnvSeq) -> (Seq<char>, EnvSeq) {
    let e = env_remove(env, "SCGI"@);
    if has_key(e, "CONTENT_LENGTH"@) {
        (env_get(e, "CONTENT_LENGTH"@), env_remove(e, "CONTENT_LENGTH"@))
    } else if has_key(e, "HTTP_CONTENT_LENGTH"@) {
        (env_get(e, "HTTP_CONTENT_LENGTH"@), env_remove(e, "HTTP_CONTENT_LENGTH"@))
    } else {
        ("0"@, e)
    }
}

pub open spec fn utf8(s: Seq<char>) -> Seq<u8> {
    vstd::utf8::encode_utf8(s)
}

/// Each variable as `NAME\0VALUE\0`, in order.
pub open spec fn nul_pairs(env: EnvSeq) -> Seq<u8>
    decreases env.len(),
{
    if env.len() == 0 {
        Seq::empty()
    } else {
        nul_pairs(env.drop_last()) + utf8(env.last().0) + seq![0u8] + utf8(env.last().1) + seq![0u8]
    }
}

pub open spec fn concat_chunks(chunks: Seq<Seq<u8>>) -> Seq<u8>
    decreases chunks.len(),
{
    if chunks.len() == 0 {
        Seq::empty()
    } else {
        concat_chunks(chunks.drop_last()) + chunks.last()
    }
}

/// The header block: `SCGI` first, the content length second, then the
/// other variables.
pub open spec fn scgi_payload(req: &CgiRequest) -> Seq<u8> {
    let (len, rest) = length_and_rest(with_length(scgi_env(req)));
    utf8("SCGI"@) + seq![0u8] + utf8("1"@) + seq![0u8] + utf8("CONTENT_LENGTH"@) + seq![0u8]
        + utf8(len) + seq![0u8] + nul_pairs(rest)
}

/// The netstring `<length>:<payload>,` followed by the body.
pub open spec fn scgi_request(req: &CgiRequest) -> Seq<u8> {
    let p = scgi_payload(req);
    utf8(dec_str(p.len()) + ":"@) + p + seq![44u8] + concat_chunks(req.spec_body())
}

fn push_bytes(buf: &mut Vec<u8>, s: &[u8])
    ensures
        final(buf)@ == old(buf)@ + s@,
{
    let mut i: usize = 0;
    while i < s.len()
        invariant
            i <= s@.len(),
            buf@ == old(buf)@ + s@.take(i as int),
        decreases s@.len() - i,
    {
        buf.push(s[i]);
        assert(s@.take(i + 1) =~= s@.take(i as int).push(s@[i as int]));
        i += 1;
    }
    assert(s@.take(s@.len() as int) =~= s@);
}

fn push_text(buf: &mut Vec<u8>, s: &str)
    ensures
        final(buf)@ == old(buf)@ + utf8(s@),
{
    push_bytes(buf, s.as_bytes());
}

pub struct ScgiClient;

impl ScgiClient {
    /// The complete byte sequence of an SCGI request.
    #[verifier::rlimit(40)]
    pub fn encode_request(req: &CgiRequest) -> (r: Vec<u8>)
        ensures
            r@ == scgi_request(req),
    {
        let mut env = Env { entries: Vec::new() };
        proof {
            reveal_strlit("SCGI");
            reveal_strlit("1");
            assert(env.spec_view() =~= Seq::<(Seq<char>, Seq<char>)>::empty());
        }
        env.insert(crate::text::to_owned("SCGI"), crate::text::to_owned("1"));
        proof {
            assert(env.spec_view() =~= seq![("SCGI"@, "1"@)]);
            assert("SCGI"@.len() == 4);
            reveal_strlit("REQUEST_METHOD");
            reveal_strlit("REQUEST_URI");
            reveal_strlit("QUERY_STRING");
            assert("REQUEST_METHOD"@.len() == 14);
            assert("REQUEST_URI"@.len() == 11);
            assert("QUERY_STRING"@.len() == 12);
        }
        add_request_line(&mut env, req);
        add_headers(&mut env, &req.headers);
        assert(env.spec_view() == scgi_env(req));

        if !env.contains_key("HTTP_CONTENT_LENGTH") && !env.contains_key("CONTENT_LENGTH") {
            env.insert(crate::text::to_owned("CONTENT_LENGTH"), crate::text::to_owned("0"));
        }
        let ghost full = env.spec_view();
        assert(full == with_length(scgi_env(req)));

        let mut payload: Vec<u8> = Vec::new();
        push_text(&mut payload, "SCGI");
        payload.push(0u8);
        push_text(&mut payload, "1");
        payload.push(0u8);
        let _ = env.remove("SCGI");
        let content_length = match env.remove("CONTENT_LENGTH") {
            Some(v) => v,
            None => match env.remove("HTTP_CONTENT_LENGTH") {
                Some(v) => v,
                None => crate::text::to_owned("0"),
            },
        };
        assert((content_length@, env.spec_view()) == length_and_rest(full));
        push_text(&mut payload, "CONTENT_LENGTH");
        payload.push(0u8);
        push_text(&mut payload, content_length.as_str());
        payload.push(0u8);

        let ghost rest = env.spec_view();
        let ghost head = payload@;
        let mut i: usize = 0;
        assert(rest.take(0) =~= Seq::<(Seq<char>, Seq<char>)>::empty());
        while i < env.entries.len()
            invariant
                i <= env.entries@.len(),
                rest == env.spec_view(),
                rest.len() == env.entries@.len(),
                payload@ == head + nul_pairs(rest.take(i as int)),
            decreases env.entries@.len() - i,
        {
            push_text(&mut payload, env.entries[i].0.as_str());
            payload.push(0u8);
            push_text(&mut payload, env.entries[i].1.as_str());
            payload.push(0u8);
            assert(rest.take(i + 1).drop_last() =~= rest.take(i as int));
            assert(rest.take(i + 1).last() == rest[i as int]);
            i += 1;
        }
        assert(rest.take(rest.len() as int) =~= rest);
        assert(payload@ =~= scgi_payload(req));

        let mut buf: Vec<u8> = Vec::new();
        let mut len_text = crate::text::u64_to_dec(payload.len() as u64);
        crate::text::push_str(&mut len_text, ":");
        push_text(&mut buf, len_text.as_str());
        push_bytes(&mut buf, payload.as_slice());
        buf.push(44u8);
        let ghost mid = buf@;
        let ghost chunks = req.spec_body();
        let mut c: usize = 0;
        assert(chunks.take(0) =~= Seq::<Seq<u8>>::empty());
        while c < req.body.len()
            invariant
                c <= req.body@.len(),
                chunks == req.spec_body(),
                buf@ == mid + concat_chunks(chunks.take(c as int)),
            decreases req.body@.len() - c,
        {
            push_bytes(&mut buf, req.body[c].as_slice());
            assert(chunks.take(c + 1).drop_last() =~= chunks.take(c as int));
            assert(chunks.take(c + 1).last() == req.body@[c as int]@);
            c += 1;
        }
        assert(chunks.take(req.body@.len() as int) =~= chunks);
        buf
    }
}

} // verus!
