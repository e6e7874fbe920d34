//! The request as CGI-style gateways (FastCGI, SCGI) see it, and the
//! environment of variables built from it.

use vstd::prelude::*;
use crate::text::{push_char, push_str, to_uppercase, unicode_upper};

verus! {

/// A request reduced to what gateways read: method, path, query, the
/// header fields in order (lower-case names, raw values), and the body as
/// the chunks in which it arrived.
pub struct CgiRequest {
    pub method: String,
    pub path: String,
    pub query: Option<String>,
    pub headers: Vec<(String, Vec<u8>)>,
    pub body: Vec<Vec<u8>>,
}

/// An environment: variables in the order of their first insertion.
pub type EnvSeq = Seq<(Seq<char>, Seq<char>)>;

pub open spec fn keys_unique(env: EnvSeq) -> bool {
    forall|i: int, j: int| 0 <= i < j < env.len() ==> env[i].0 != env[j].0
}

pub open spec fn has_key(env: EnvSeq, k: Seq<char>) -> bool {
    exists|i: int| 0 <= i < env.len() && (#[trigger] env[i]).0 == k
}

pub open spec fn key_index(env: EnvSeq, k: Seq<char>) -> int {
    choose|i: int| 0 <= i < env.len() && (#[trigger] env[i]).0 == k
}

/// `HashMap::insert`: a new key goes last, a known key gets the new value.
pub open spec fn env_insert(env: EnvSeq, k: Seq<char>, v: Seq<char>) -> EnvSeq {
    if has_key(env, k) {
        env.update(key_index(env, k), (k, v))
    } else {
        env.push((k, v))
    }
}

/// `HashMap::remove` of a key.
pub open spec fn env_remove(env: EnvSeq, k: Seq<char>) -> EnvSeq {
    if has_key(env, k) {
        env.remove(key_index(env, k))
    } else {
        env
    }
}

/// The value of a key that the environment has.
pub open spec fn env_get(env: EnvSeq, k: Seq<char>) -> Seq<char> {
    env[key_index(env, k)].1
}

/// `HeaderValue::to_str` succeeds: every byte is visible ASCII or a tab.
pub open spec fn visible_ascii(b: Seq<u8>) -> bool {
    forall|i: int| 0 <= i < b.len() ==> (32 <= #[trigger] b[i] < 127 || b[i] == 9)
}

/// Bytes as characters, one each (ASCII stays ASCII).
pub open spec fn chars_of_bytes(b: Seq<u8>) -> Seq<char> {
    b.map_values(|x: u8| x as char)
}

/// The variable of a header: `HTTP_`, then the name upper-cased with `-`
/// turned into `_`.
pub open spec fn header_key(name: Seq<char>) -> Seq<char> {
    "HTTP_"@ + unicode_upper(name).map_values(|c: char| if c == '-' { '_' } else { c })
}

/// The environment after the header fields: each field with a visible
/// value sets its variable, later fields overriding earlier ones.
pub open spec fn with_headers(env: EnvSeq, hs: Seq<(Seq<char>, Seq<u8>)>) -> EnvSeq
    decreases hs.len(),
{
    if hs.len() == 0 {
        env
    } else {
        let e = with_headers(env, hs.drop_last());
        if visible_ascii(hs.last().1) {
            env_insert(e, header_key(hs.last().0), chars_of_bytes(hs.last().1))
        } else {
            e
        }
    }
}

/// The request's variables before the header fields: the given first
/// entries, then method, path and query (when there is one).
pub open spec fn request_env(first: EnvSeq, method: Seq<char>, path: Seq<char>, query: Option<Seq<char>>) -> EnvSeq {
    let e = first.push(("REQUEST_METHOD"@, method)).push(("REQUEST_URI"@, path));
    match query {
        Some(q) => e.push(("QUERY_STRING"@, q)),
        None => e,
    }
}

impl CgiRequest {
    pub open spec fn spec_query(&self) -> Option<Seq<char>> {
        match self.query {
            Some(q) => Some(q@),
            None => None,
        }
    }

    pub open spec fn spec_headers(&self) -> Seq<(Seq<char>, Seq<u8>)> {
        self.headers@.map_values(|h: (String, Vec<u8>)| (h.0@, h.1@))
    }

    pub open spec fn spec_body(&self) -> Seq<Seq<u8>> {
        self.body@.map_values(|c: Vec<u8>| c@)
    }

    /// The environment: `first`, the request line variables, the headers.
    pub open spec fn env(&self, first: EnvSeq) -> EnvSeq {
        with_headers(request_env(first, self.method@, self.path@, self.spec_query()), self.spec_headers())
    }
}

/// An environment held as pairs of strings, keys unique.
pub struct Env {
    pub entries: Vec<(String, String)>,
}

impl Env {
    pub open spec fn spec_view(&self) -> EnvSeq {
        self.entries@.map_values(|e: (String, String)| (e.0@, e.1@))
    }

    pub open spec fn wf(&self) -> bool {
        keys_unique(self.spec_view())
    }

    fn find(&self, k: &str) -> (r: Option<usize>)
        requires
            self.wf(),
        ensures
            match r {
                Some(i) => has_key(self.spec_view(), k@) && i == key_index(self.spec_view(), k@)
                    && i < self.entries@.len(),
                None => !has_key(self.spec_view(), k@),
            },
    {
        let ghost v = self.spec_view();
        let mut i: usize = 0;
        while i < self.entries.len()
            invariant
                i <= self.entries@.len(),
                v == self.spec_view(),
                v.len() == self.entries@.len(),
                keys_unique(v),
                forall|j: int| 0 <= j < i ==> v[j].0 != k@,
            decreases self.entries@.len() - i,
        {
            if crate::text::str_eq(self.entries[i].0.as_str(), k) {
                assert(v[i as int].0 == k@);
                let ghost c = key_index(v, k@);
                assert(c == i) by {
                    assert(v[c].0 == k@);
                    if c != i {
                        assert(keys_unique(v));
                    }
                }
                return Some(i);
            }
            i += 1;
        }
        None
    }

    pub fn insert(&mut self, k: String, v: String)
        requires
            old(self).wf(),
        ensures
            final(self).wf(),
            final(self).spec_view() == env_insert(old(self).spec_view(), k@, v@),
    {
        let ghost kv = k@;
        let ghost vv = v@;
        match self.find(k.as_str()) {
            Some(i) => {
                self.entries.set(i, (k, v));
                proof {
                    assert(self.spec_view() =~= env_insert(old(self).spec_view(), kv, vv));
                }
            },
            None => {
                self.entries.push((k, v));
                proof {
                    assert(self.spec_view() =~= env_insert(old(self).spec_view(), kv, vv));
                }
            },
        }
    }

    pub fn remove(&mut self, k: &str) -> (r: Option<String>)
        requires
            old(self).wf(),
        ensures
            final(self).wf(),
            final(self).spec_view() == env_remove(old(self).spec_view(), k@),
            match r {
                Some(v) => has_key(old(self).spec_view(), k@) && v@ == env_get(old(self).spec_view(), k@),
                None => !has_key(old(self).spec_view(), k@),
            },
    {
        match self.find(k) {
            Some(i) => {
                let (_, v) = self.entries.remove(i);
                proof {
                    assert(self.spec_view() =~= env_remove(old(self).spec_view(), k@));
                }
                Some(v)
            },
            None => None,
        }
    }

    pub fn contains_key(&self, k: &str) -> (r: bool)
        requires
            self.wf(),
        ensures
            r == has_key(self.spec_view(), k@),
    {
        self.find(k).is_some()
    }
}

proof fn lemma_absent_after_push(env: EnvSeq, k: Seq<char>, v: Seq<char>, k2: Seq<char>)
    requires
        !has_key(env, k2),
        k2 != k,
    ensures
        !has_key(env.push((k, v)), k2),
{
    let e = env.push((k, v));
    assert forall|i: int| 0 <= i < e.len() implies (#[trigger] e[i]).0 != k2 by {
        if i < env.len() {
            assert(e[i] == env[i]);
        }
    }
}

/// The variable of a header name.
fn header_key_of(name: &str) -> (r: String)
    ensures
        r@ == header_key(name@),
{
    let up = to_uppercase(name);
    let cs = crate::text::chars_of(up.as_str());
    let mut out = String::new();
    push_str(&mut out, "HTTP_");
    let ghost f = |c: char| if c == '-' { '_' } else { c };
    let mut i: usize = 0;
    proof {
        reveal_strlit("HTTP_");
    }
    while i < cs.len()
        invariant
            i <= cs@.len(),
            cs@ == unicode_upper(name@),
            f == (|c: char| if c == '-' { '_' } else { c }),
            out@ == "HTTP_"@ + cs@.take(i as int).map_values(f),
        decreases cs@.len() - i,
    {
        let c = cs[i];
        push_char(&mut out, if c == '-' { '_' } else { c });
        assert(cs@.take(i + 1).map_values(f) =~= cs@.take(i as int).map_values(f).push(f(c)));
        i += 1;
    }
    assert(cs@.take(cs@.len() as int) =~= cs@);
    out
}

/// `HeaderValue::to_str`: the value as text when it is visible ASCII.
pub fn header_value_text(b: &[u8]) -> (r: Option<String>)
    ensures
        match r {
            Some(s) => visible_ascii(b@) && s@ == chars_of_bytes(b@),
            None => !visible_ascii(b@),
        },
{
    let mut out = String::new();
    let mut i: usize = 0;
    while i < b.len()
        invariant
            i <= b@.len(),
            forall|j: int| 0 <= j < i ==> (32 <= #[trigger] b@[j] < 127 || b@[j] == 9),
            out@ == chars_of_bytes(b@.take(i as int)),
        decreases b@.len() - i,
    {
        let x = b[i];
        if !((32 <= x && x < 127) || x == 9) {
            return None;
        }
        push_char(&mut out, x as char);
        assert(chars_of_bytes(b@.take(i + 1)) =~= chars_of_bytes(b@.take(i as int)).push(x as char));
        i += 1;
    }
    assert(b@.take(b@.len() as int) =~= b@);
    Some(out)
}

/// Sets the variables of the header fields.
pub fn add_headers(env: &mut Env, headers: &Vec<(String, Vec<u8>)>)
    requires
        old(env).wf(),
    ensures
        final(env).wf(),
        final(env).spec_view() == with_headers(
            old(env).spec_view(),
            headers@.map_values(|h: (String, Vec<u8>)| (h.0@, h.1@)),
        ),
{
    let ghost hs = headers@.map_values(|h: (String, Vec<u8>)| (h.0@, h.1@));
    let mut i: usize = 0;
    assert(hs.take(0) =~= Seq::<(Seq<char>, Seq<u8>)>::empty());
    while i < headers.len()
        invariant
            i <= headers@.len(),
            hs == headers@.map_values(|h: (String, Vec<u8>)| (h.0@, h.1@)),
            env.wf(),
            env.spec_view() == with_headers(old(env).spec_view(), hs.take(i as int)),
        decreases headers@.len() - i,
    {
        assert(hs.take(i + 1).drop_last() =~= hs.take(i as int));
        assert(hs.take(i + 1).last() == hs[i as int]);
        match header_value_text(headers[i].1.as_slice()) {
            Some(v) => {
                let k = header_key_of(headers[i].0.as_str());
                env.insert(k, v);
            },
            None => {},
        }
        i += 1;
    }
    assert(hs.take(headers@.len() as int) =~= hs);
}

/// The environment `first` followed by the request line variables.
pub fn add_request_line(env: &mut Env, req: &CgiRequest)
    requires
        old(env).wf(),
        !has_key(old(env).spec_view(), "REQUEST_METHOD"@),
        !has_key(old(env).spec_view(), "REQUEST_URI"@),
        !has_key(old(env).spec_view(), "QUERY_STRING"@),
    ensures
        final(env).wf(),
        final(env).spec_view() == request_env(old(env).spec_view(), req.method@, req.path@, req.spec_query()),
{
    proof {
        reveal_strlit("REQUEST_METHOD");
        reveal_strlit("REQUEST_URI");
        reveal_strlit("QUERY_STRING");
    }
    let ghost e0 = env.spec_view();
    env.insert(crate::text::to_owned("REQUEST_METHOD"), crate::text::to_owned(req.method.as_str()));
    let ghost e1 = env.spec_view();
    proof {
        assert(e1 == e0.push(("REQUEST_METHOD"@, req.method@)));
        assert("REQUEST_METHOD"@.len() == 14);
        assert("REQUEST_URI"@.len() == 11);
        assert("QUERY_STRING"@.len() == 12);
        lemma_absent_after_push(e0, "REQUEST_METHOD"@, req.method@, "REQUEST_URI"@);
        lemma_absent_after_push(e0, "REQUEST_METHOD"@, req.method@, "QUERY_STRING"@);
    }
    env.insert(crate::text::to_owned("REQUEST_URI"), crate::text::to_owned(req.path.as_str()));
    proof {
        lemma_absent_after_push(e1, "REQUEST_URI"@, req.path@, "QUERY_STRING"@);
    }
    match &req.query {
        Some(q) => {
            env.insert(crate::text::to_owned("QUERY_STRING"), crate::text::to_owned(q.as_str()));
        },
        None => {},
    }
}

} // verus!
