//! File extensions to MIME types, with per-site overrides and a UTF-8
//! charset for text types.

use vstd::prelude::*;
use crate::config::{extension_of, path_extension};
use crate::text::{str_eq, str_starts_with, to_lowercase, unicode_lower};

verus! {

/// The built-in table of extensions.
pub open spec fn builtin_mime(ext: Seq<char>) -> Option<Seq<char>> {
    if ext == "html"@ {
        Some("text/html"@)
    } else if ext == "htm"@ {
        Some("text/html"@)
    } else if ext == "css"@ {
        Some("text/css"@)
    } else if ext == "js"@ {
        Some("application/javascript"@)
    } else if ext == "json"@ {
        Some("application/json"@)
    } else if ext == "png"@ {
        Some("image/png"@)
    } else if ext == "jpg"@ {
        Some("image/jpeg"@)
    } else if ext == "jpeg"@ {
        Some("image/jpeg"@)
    } else if ext == "gif"@ {
        Some("image/gif"@)
    } else if ext == "svg"@ {
        Some("image/svg+xml"@)
    } else if ext == "ico"@ {
        Some("image/x-icon"@)
    } else if ext == "webp"@ {
        Some("image/webp"@)
    } else if ext == "woff"@ {
        Some("font/woff"@)
    } else if ext == "woff2"@ {
        Some("font/woff2"@)
    } else if ext == "ttf"@ {
        Some("font/ttf"@)
    } else if ext == "eot"@ {
        Some("application/vnd.ms-fontobject"@)
    } else if ext == "otf"@ {
        Some("font/otf"@)
    } else if ext == "mp4"@ {
        Some("video/mp4"@)
    } else if ext == "webm"@ {
        Some("video/webm"@)
    } else if ext == "ogg"@ {
        Some("audio/ogg"@)
    } else if ext == "mp3"@ {
        Some("audio/mpeg"@)
    } else if ext == "wav"@ {
        Some("audio/wav"@)
    } else if ext == "txt"@ {
        Some("text/plain"@)
    } else if ext == "csv"@ {
        Some("text/csv"@)
    } else if ext == "xml"@ {
        Some("text/xml"@)
    } else if ext == "pdf"@ {
        Some("application/pdf"@)
    } else if ext == "zip"@ {
        Some("application/zip"@)
    } else if ext == "tar"@ {
        Some("application/x-tar"@)
    } else if ext == "gz"@ {
        Some("application/gzip"@)
    } else if ext == "md"@ {
        Some("text/markdown"@)
    } else if ext == "wasm"@ {
        Some("application/wasm"@)
    } else if ext == "m3u8"@ {
        Some("application/vnd.apple.mpegurl"@)
    } else if ext == "ts"@ {
        Some("video/mp2t"@)
    } else {
        None
    }
}

fn builtin_mime_of(ext: &str) -> (r: Option<&'static str>)
    ensures
        match r {
            Some(m) => builtin_mime(ext@) == Some(m@),
            None => builtin_mime(ext@) is None,
        },
{
    if str_eq(ext, "html") {
        Some("text/html")
    } else if str_eq(ext, "htm") {
        Some("text/html")
    } else if str_eq(ext, "css") {
        Some("text/css")
    } else if str_eq(ext, "js") {
        Some("application/javascript")
    } else if str_eq(ext, "json") {
        Some("application/json")
    } else if str_eq(ext, "png") {
        Some("image/png")
    } else if str_eq(ext, "jpg") {
        Some("image/jpeg")
    } else if str_eq(ext, "jpeg") {
        Some("image/jpeg")
    } else if str_eq(ext, "gif") {
        Some("image/gif")
    } else if str_eq(ext, "svg") {
        Some("image/svg+xml")
    } else if str_eq(ext, "ico") {
        Some("image/x-icon")
    } else if str_eq(ext, "webp") {
        Some("image/webp")
    } else if str_eq(ext, "woff") {
        Some("font/woff")
    } else if str_eq(ext, "woff2") {
        Some("font/woff2")
    } else if str_eq(ext, "ttf") {
        Some("font/ttf")
    } else if str_eq(ext, "eot") {
        Some("application/vnd.ms-fontobject")
    } else if str_eq(ext, "otf") {
        Some("font/otf")
    } else if str_eq(ext, "mp4") {
        Some("video/mp4")
    } else if str_eq(ext, "webm") {
        Some("video/webm")
    } else if str_eq(ext, "ogg") {
        Some("audio/ogg")
    } else if str_eq(ext, "mp3") {
        Some("audio/mpeg")
    } else if str_eq(ext, "wav") {
        Some("audio/wav")
    } else if str_eq(ext, "txt") {
        Some("text/plain")
    } else if str_eq(ext, "csv") {
        Some("text/csv")
    } else if str_eq(ext, "xml") {
        Some("text/xml")
    } else if str_eq(ext, "pdf") {
        Some("application/pdf")
    } else if str_eq(ext, "zip") {
        Some("application/zip")
    } else if str_eq(ext, "tar") {
        Some("application/x-tar")
    } else if str_eq(ext, "gz") {
        Some("application/gzip")
    } else if str_eq(ext, "md") {
        Some("text/markdown")
    } else if str_eq(ext, "wasm") {
        Some("application/wasm")
    } else if str_eq(ext, "m3u8") {
        Some("application/vnd.apple.mpegurl")
    } else if str_eq(ext, "ts") {
        Some("video/mp2t")
    } else {
        None
    }
}

/// Text types (and JavaScript and JSON) get `; charset=utf-8`.
pub open spec fn with_charset(m: Seq<char>) -> Seq<char> {
    if (m.len() >= 5 && m.take(5) == "text/"@) || m == "application/javascript"@ || m
        == "application/json"@ {
        m + "; charset=utf-8"@
    } else {
        m
    }
}

fn append_charset(mime: &str) -> (r: String)
    ensures
        r@ == with_charset(mime@),
{
    proof {
        reveal_strlit("text/");
    }
    if str_starts_with(mime, "text/") || str_eq(mime, "application/javascript") || str_eq(
        mime,
        "application/json",
    ) {
        let mut s = crate::text::to_owned(mime);
        crate::text::push_str(&mut s, "; charset=utf-8");
        s
    } else {
        crate::text::to_owned(mime)
    }
}

/// The first override for an extension.
pub open spec fn override_for(
    overrides: Seq<(Seq<char>, Seq<char>)>,
    ext: Seq<char>,
) -> Option<Seq<char>>
    decreases overrides.len(),
{
    if overrides.len() == 0 {
        None
    } else if overrides[0].0 == ext {
        Some(overrides[0].1)
    } else {
        override_for(overrides.drop_first(), ext)
    }
}

pub open spec fn pairs_view(v: Seq<(String, String)>) -> Seq<(Seq<char>, Seq<char>)> {
    v.map_values(|p: (String, String)| (p.0@, p.1@))
}

/// The MIME type of a path: its extension lower-cased (empty when there is
/// none), looked up first among the overrides, then in the built-in table;
/// `application/octet-stream` otherwise.
pub open spec fn mime_type_of(path: Seq<char>, overrides: Option<Seq<(Seq<char>, Seq<char>)>>) -> Seq<char> {
    let ext = match path_extension(path) {
        Some(e) => unicode_lower(e),
        None => Seq::empty(),
    };
    match (match overrides {
        Some(o) => override_for(o, ext),
        None => None,
    }) {
        Some(m) => with_charset(m),
        None => match builtin_mime(ext) {
            Some(m) => with_charset(m),
            None => "application/octet-stream"@,
        },
    }
}

fn find_override(overrides: &[(String, String)], ext: &str) -> (r: Option<usize>)
    ensures
        match r {
            Some(i) => i < overrides@.len() && override_for(pairs_view(overrides@), ext@) == Some(
                overrides@[i as int].1@,
            ),
            None => override_for(pairs_view(overrides@), ext@) is None,
        },
{
    let ghost all = pairs_view(overrides@);
    let mut i: usize = 0;
    assert(all.skip(0) =~= all);
    while i < overrides.len()
        invariant
            i <= overrides@.len(),
            all == pairs_view(overrides@),
            override_for(all, ext@) == override_for(all.skip(i as int), ext@),
        decreases overrides@.len() - i,
    {
        assert(all.skip(i as int)[0] == (overrides@[i as int].0@, overrides@[i as int].1@));
        assert(all.skip(i as int).drop_first() =~= all.skip(i + 1));
        if str_eq(overrides[i].0.as_str(), ext) {
            return Some(i);
        }
        i += 1;
    }
    assert(all.skip(overrides@.len() as int) =~= Seq::<(Seq<char>, Seq<char>)>::empty());
    None
}

/// Get the MIME type for a given file path based on its extension.
/// Supports a custom override list and auto-appending charset=UTF-8 for
/// text types.
pub fn get_mime_type(path: &str, custom_overrides: Option<&[(String, String)]>) -> (r: String)
    ensures
        r@ == mime_type_of(
            path@,
            match custom_overrides {
                Some(o) => Some(pairs_view(o@)),
                None => None,
            },
        ),
{
    let ext = match extension_of(path) {
        Some(e) => to_lowercase(e.as_str()),
        None => String::new(),
    };
    if let Some(overrides) = custom_overrides {
        if let Some(i) = find_override(overrides, ext.as_str()) {
            return append_charset(overrides[i].1.as_str());
        }
    }
    match builtin_mime_of(ext.as_str()) {
        Some(m) => append_charset(m),
        None => crate::text::to_owned("application/octet-stream"),
    }
}

} // verus!
