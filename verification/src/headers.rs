//! The header directives: fields set on the upstream request
//! (`proxy_set_header`), added to the response (`add_header`, with the
//! security presets) and hidden from it (`proxy_hide_header`).
//!
//! A header map is a list of (name, value) fields whose names are compared
//! after lower-casing; setting a field replaces every field of that name.

use vstd::prelude::*;
use vstd::string::StringSliceAdditionalSpecFns;
use crate::http_proxy::{fields_view, text_of};
use crate::text::{ascii_lower, str_eq, to_lowercase, to_owned, unicode_lower};

verus! {

/// The header directives of a server or location. Each list holds
/// (name, value template) pairs, applied in order.
pub struct HeadersConfig {
    pub proxy_set_header: Vec<(String, String)>,
    pub add_header: Vec<(String, String)>,
    pub proxy_hide_header: Vec<String>,
    pub security_headers: bool,
}

impl Default for HeadersConfig {
    fn default() -> (r: Self)
        ensures
            r.proxy_set_header@.len() == 0,
            r.add_header@.len() == 0,
            r.proxy_hide_header@.len() == 0,
            !r.security_headers,
    {
        HeadersConfig {
            proxy_set_header: Vec::new(),
            add_header: Vec::new(),
            proxy_hide_header: Vec::new(),
            security_headers: false,
        }
    }
}

/// A byte of an HTTP token (RFC 7230 `tchar`).
pub open spec fn is_token_byte(b: u8) -> bool {
    ||| 48 <= b <= 57
    ||| 65 <= b <= 90
    ||| 97 <= b <= 122
    ||| b == 33
    ||| 35 <= b <= 39
    ||| b == 42 || b == 43 || b == 45 || b == 46
    ||| 94 <= b <= 96
    ||| b == 124 || b == 126
}

/// The field name that bytes denote: a token of at most 65535 bytes, in
/// lower case.
pub open spec fn field_name_of(b: Seq<u8>) -> Option<Seq<char>> {
    if 0 < b.len() <= 65535 && forall|i: int| 0 <= i < b.len() ==> is_token_byte(#[trigger] b[i]) {
        Some(b.map_values(|x: u8| ascii_lower(x as char)))
    } else {
        None
    }
}

/// Whether bytes may be a field value: tabs and visible characters (any byte
/// from 32 on but DEL).
pub open spec fn field_value_ok(b: Seq<u8>) -> bool {
    forall|i: int| 0 <= i < b.len() ==> (32 <= #[trigger] b[i] && b[i] != 127) || b[i] == 9
}

/// `HeaderName::from_bytes`, as text. Trusted: a token of 1 to 65535 bytes
/// is accepted and lower-cased (the crate's `HEADER_CHARS` table); anything
/// else is refused.
#[verifier::external_body]
fn header_name(name: &str) -> (r: Option<String>)
    ensures
        match (r, field_name_of(name.spec_bytes())) {
            (Some(a), Some(b)) => a@ == b,
            (None, None) => true,
            _ => false,
        },
{
    match hyper::http::HeaderName::from_bytes(name.as_bytes()) {
        Ok(n) => Some(n.as_str().to_string()),
        Err(_) => None,
    }
}

/// `HeaderValue::from_str(..).is_ok()`. Trusted: exactly the texts whose
/// bytes are tabs or from 32 on but DEL are accepted (the crate's
/// `is_valid`).
#[verifier::external_body]
fn header_value_ok(value: &str) -> (r: bool)
    ensures
        r == field_value_ok(value.spec_bytes()),
{
    hyper::http::HeaderValue::from_str(value).is_ok()
}

/// The fields without those of a (lower-case) name.
pub open spec fn without_field(hs: Seq<(Seq<char>, Seq<u8>)>, name: Seq<char>) -> Seq<(Seq<char>, Seq<u8>)>
    decreases hs.len(),
{
    if hs.len() == 0 {
        hs
    } else {
        let rest = without_field(hs.drop_last(), name);
        if unicode_lower(hs.last().0) == name {
            rest
        } else {
            rest.push(hs.last())
        }
    }
}

/// Whether a field of a (lower-case) name is there.
pub open spec fn has_field(hs: Seq<(Seq<char>, Seq<u8>)>, name: Seq<char>) -> bool {
    exists|i: int| 0 <= i < hs.len() && unicode_lower(#[trigger] hs[i].0) == name
}

/// Setting a field: every field of the name goes, the new one is added.
pub open spec fn put_field(hs: Seq<(Seq<char>, Seq<u8>)>, name: Seq<char>, value: Seq<u8>) -> Seq<(Seq<char>, Seq<u8>)> {
    without_field(hs, name).push((name, value))
}

/// Setting fields in order from (name, value) pairs; a pair whose name or
/// value is not valid is passed over.
pub open spec fn set_fields(hs: Seq<(Seq<char>, Seq<u8>)>, pairs: Seq<(Seq<char>, Seq<char>)>) -> Seq<(Seq<char>, Seq<u8>)>
    decreases pairs.len(),
{
    if pairs.len() == 0 {
        hs
    } else {
        let before = set_fields(hs, pairs.drop_last());
        let v = text_of(pairs.last().1);
        match field_name_of(text_of(pairs.last().0)) {
            Some(n) => if field_value_ok(v) {
                put_field(before, n, v)
            } else {
                before
            },
            None => before,
        }
    }
}

/// Removing the fields of each valid name in order.
pub open spec fn hide_fields(hs: Seq<(Seq<char>, Seq<u8>)>, names: Seq<Seq<char>>) -> Seq<(Seq<char>, Seq<u8>)>
    decreases names.len(),
{
    if names.len() == 0 {
        hs
    } else {
        let before = hide_fields(hs, names.drop_last());
        match field_name_of(text_of(names.last())) {
            Some(n) => without_field(before, n),
            None => before,
        }
    }
}

/// The security presets, each set only where the response has no field of
/// that name.
pub open spec fn security_presets() -> Seq<(Seq<char>, Seq<char>)> {
    seq![
        ("strict-transport-security"@, "max-age=63072000; includeSubDomains; preload"@),
        ("x-frame-options"@, "DENY"@),
        ("x-content-type-options"@, "nosniff"@),
        ("x-xss-protection"@, "1; mode=block"@),
        ("referrer-policy"@, "strict-origin-when-cross-origin"@),
    ]
}

pub open spec fn add_missing(hs: Seq<(Seq<char>, Seq<u8>)>, pairs: Seq<(Seq<char>, Seq<char>)>) -> Seq<(Seq<char>, Seq<u8>)>
    decreases pairs.len(),
{
    if pairs.len() == 0 {
        hs
    } else {
        let before = add_missing(hs, pairs.drop_last());
        if has_field(before, pairs.last().0) {
            before
        } else {
            put_field(before, pairs.last().0, text_of(pairs.last().1))
        }
    }
}

/// The (name, value) pairs of a list of string pairs.
pub open spec fn pairs_view(v: Seq<(String, String)>) -> Seq<(Seq<char>, Seq<char>)> {
    v.map_values(|p: (String, String)| (p.0@, p.1@))
}

/// The (name, value) pairs after filling in the value templates: each
/// value is one that `interpolate` gave for its template.
pub open spec fn interpolated<F: Fn(&str) -> String>(
    interpolate: F,
    templates: Seq<(String, String)>,
    pairs: Seq<(Seq<char>, Seq<char>)>,
) -> bool {
    &&& pairs.len() == templates.len()
    &&& forall|i: int|
        0 <= i < pairs.len() ==> #[trigger] pairs[i].0 == templates[i].0@ && exists|a: &str, o: String|
            a@ == templates[i].1@ && o@ == pairs[i].1 && interpolate.ensures((a,), o)
}

fn copy_field(h: &(String, Vec<u8>)) -> (r: (String, Vec<u8>))
    ensures
        r.0@ == h.0@,
        r.1@ == h.1@,
{
    (to_owned(h.0.as_str()), vstd::slice::slice_to_vec(h.1.as_slice()))
}

/// Removes every field of a lower-case name.
fn remove_field(headers: &mut Vec<(String, Vec<u8>)>, name: &str)
    ensures
        fields_view(final(headers)@) == without_field(fields_view(old(headers)@), name@),
{
    let ghost hs = fields_view(headers@);
    let mut kept: Vec<(String, Vec<u8>)> = Vec::new();
    let mut i: usize = 0;
    assert(hs.take(0) =~= Seq::<(Seq<char>, Seq<u8>)>::empty());
    while i < headers.len()
        invariant
            i <= headers@.len(),
            hs == fields_view(headers@),
            fields_view(kept@) == without_field(hs.take(i as int), name@),
        decreases headers@.len() - i,
    {
        assert(hs.take(i + 1).drop_last() =~= hs.take(i as int));
        assert(hs.take(i + 1).last() == (headers@[i as int].0@, headers@[i as int].1@));
        let lower = to_lowercase(headers[i].0.as_str());
        if !str_eq(lower.as_str(), name) {
            let ghost before = kept@;
            kept.push(copy_field(&headers[i]));
            assert(fields_view(kept@) =~= fields_view(before).push(hs[i as int]));
        }
        i += 1;
    }
    assert(hs.take(hs.len() as int) =~= hs);
    *headers = kept;
}

/// Sets a field, replacing every field of its (lower-case) name.
fn put_field_exec(headers: &mut Vec<(String, Vec<u8>)>, name: String, value: Vec<u8>)
    ensures
        fields_view(final(headers)@) == put_field(fields_view(old(headers)@), name@, value@),
{
    remove_field(headers, name.as_str());
    let ghost before = headers@;
    headers.push((name, value));
    assert(fields_view(headers@) =~= fields_view(before).push((name@, value@)));
}

/// Whether a field of a lower-case name is there.
fn has_field_exec(headers: &Vec<(String, Vec<u8>)>, name: &str) -> (r: bool)
    ensures
        r == has_field(fields_view(headers@), name@),
{
    let ghost hs = fields_view(headers@);
    let mut i: usize = 0;
    while i < headers.len()
        invariant
            i <= headers@.len(),
            hs == fields_view(headers@),
            forall|j: int| 0 <= j < i ==> unicode_lower(#[trigger] hs[j].0) != name@,
        decreases headers@.len() - i,
    {
        let lower = to_lowercase(headers[i].0.as_str());
        assert(hs[i as int].0 == headers@[i as int].0@);
        if str_eq(lower.as_str(), name) {
            return true;
        }
        i += 1;
    }
    false
}

/// Sets the fields of (name, template) pairs in order, each value filled in
/// by `interpolate`.
fn set_all<F: Fn(&str) -> String>(
    headers: &mut Vec<(String, Vec<u8>)>,
    templates: &Vec<(String, String)>,
    interpolate: &F,
) -> (pairs: Ghost<Seq<(Seq<char>, Seq<char>)>>)
    requires
        forall|s: &str| #[trigger] interpolate.requires((s,)),
    ensures
        interpolated(*interpolate, templates@, pairs@),
        fields_view(final(headers)@) == set_fields(fields_view(old(headers)@), pairs@),
{
    let ghost hs0 = fields_view(headers@);
    let ghost mut pairs: Seq<(Seq<char>, Seq<char>)> = Seq::empty();
    let mut i: usize = 0;
    while i < templates.len()
        invariant
            i <= templates@.len(),
            forall|s: &str| #[trigger] interpolate.requires((s,)),
            interpolated(*interpolate, templates@.take(i as int), pairs),
            fields_view(headers@) == set_fields(hs0, pairs),
        decreases templates@.len() - i,
    {
        let arg: &str = templates[i].1.as_str();
        let value = interpolate(arg);
        let ghost before = pairs;
        proof {
            pairs = pairs.push((templates@[i as int].0@, value@));
            assert(pairs.drop_last() =~= before);
            assert(templates@.take(i + 1).drop_last() =~= templates@.take(i as int));
            assert forall|j: int| 0 <= j < pairs.len() implies #[trigger] pairs[j].0 == templates@.take(
                i + 1,
            )[j].0@ && exists|a: &str, o: String|
                a@ == templates@.take(i + 1)[j].1@ && o@ == pairs[j].1 && interpolate.ensures((a,), o) by {
                if j < i {
                    assert(pairs[j] == before[j]);
                    assert(templates@.take(i + 1)[j] == templates@.take(i as int)[j]);
                    assert(before[j].0 == templates@.take(i as int)[j].0@);
                } else {
                    assert(templates@.take(i + 1)[j] == templates@[i as int]);
                    assert(interpolate.ensures((arg,), value));
                    assert(arg@ == templates@.take(i + 1)[j].1@ && value@ == pairs[j].1);
                }
            }
        }
        let name = header_name(templates[i].0.as_str());
        match name {
            Some(n) => {
                if header_value_ok(value.as_str()) {
                    put_field_exec(headers, n, vstd::slice::slice_to_vec(value.as_str().as_bytes()));
                }
            },
            None => {},
        }
        i += 1;
    }
    assert(templates@.take(templates@.len() as int) =~= templates@);
    Ghost(pairs)
}

/// `proxy_set_header`: sets each field on the upstream request, its value
/// filled in by `interpolate`; a field with an invalid name or value is
/// passed over.
pub fn apply_proxy_set_header<F: Fn(&str) -> String>(
    headers: &mut Vec<(String, Vec<u8>)>,
    config: &HeadersConfig,
    interpolate: &F,
)
    requires
        forall|s: &str| #[trigger] interpolate.requires((s,)),
    ensures
        exists|pairs: Seq<(Seq<char>, Seq<char>)>|
            interpolated(*interpolate, config.proxy_set_header@, pairs) && fields_view(final(headers)@)
                == #[trigger] set_fields(fields_view(old(headers)@), pairs),
{
    let pairs = set_all(headers, &config.proxy_set_header, interpolate);
    assert(interpolated(*interpolate, config.proxy_set_header@, pairs@));
}

/// `add_header`: sets each field on the response as `proxy_set_header`
/// does; with `security_headers`, then adds each security preset whose name
/// the response does not have yet.
pub fn apply_add_header<F: Fn(&str) -> String>(
    headers: &mut Vec<(String, Vec<u8>)>,
    config: &HeadersConfig,
    interpolate: &F,
)
    requires
        forall|s: &str| #[trigger] interpolate.requires((s,)),
    ensures
        exists|pairs: Seq<(Seq<char>, Seq<char>)>|
            interpolated(*interpolate, config.add_header@, pairs) && fields_view(final(headers)@) == (if config.security_headers {
                add_missing(#[trigger] set_fields(fields_view(old(headers)@), pairs), security_presets())
            } else {
                set_fields(fields_view(old(headers)@), pairs)
            }),
{
    let pairs = set_all(headers, &config.add_header, interpolate);
    let ghost set = fields_view(headers@);
    if config.security_headers {
        let presets: [(&str, &str); 5] = [
            ("strict-transport-security", "max-age=63072000; includeSubDomains; preload"),
            ("x-frame-options", "DENY"),
            ("x-content-type-options", "nosniff"),
            ("x-xss-protection", "1; mode=block"),
            ("referrer-policy", "strict-origin-when-cross-origin"),
        ];
        let ghost ps = security_presets();
        assert(ps.take(0) =~= Seq::<(Seq<char>, Seq<char>)>::empty());
        let mut i: usize = 0;
        while i < 5
            invariant
                i <= 5,
                ps == security_presets(),
                forall|j: int| 0 <= j < 5 ==> (#[trigger] presets@[j]).0@ == ps[j].0 && presets@[j].1@ == ps[j].1,
                fields_view(headers@) == add_missing(set, ps.take(i as int)),
            decreases 5 - i,
        {
            assert(ps.take(i + 1).drop_last() =~= ps.take(i as int));
            let (k, v) = presets[i];
            assert(presets@[i as int] == (k, v));
            if !has_field_exec(headers, k) {
                put_field_exec(headers, to_owned(k), vstd::slice::slice_to_vec(v.as_bytes()));
            }
            i += 1;
        }
        assert(ps.take(5) =~= ps);
    }
    assert(interpolated(*interpolate, config.add_header@, pairs@));
}

/// `proxy_hide_header`: removes every field of each listed (valid) name.
pub fn apply_proxy_hide_header(headers: &mut Vec<(String, Vec<u8>)>, config: &HeadersConfig)
    ensures
        fields_view(final(headers)@) == hide_fields(
            fields_view(old(headers)@),
            config.proxy_hide_header@.map_values(|s: String| s@),
        ),
{
    let ghost hs0 = fields_view(headers@);
    let ghost names = config.proxy_hide_header@.map_values(|s: String| s@);
    let mut i: usize = 0;
    assert(names.take(0) =~= Seq::<Seq<char>>::empty());
    while i < config.proxy_hide_header.len()
        invariant
            i <= config.proxy_hide_header@.len(),
            names == config.proxy_hide_header@.map_values(|s: String| s@),
            fields_view(headers@) == hide_fields(hs0, names.take(i as int)),
        decreases config.proxy_hide_header@.len() - i,
    {
        assert(names.take(i + 1).drop_last() =~= names.take(i as int));
        assert(names.take(i + 1).last() == config.proxy_hide_header@[i as int]@);
        match header_name(config.proxy_hide_header[i].as_str()) {
            Some(n) => remove_field(headers, n.as_str()),
            None => {},
        }
        i += 1;
    }
    assert(names.take(names.len() as int) =~= names);
}

} // verus!
