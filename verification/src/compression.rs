//! Response compression: which MIME types are worth compressing and which
//! encoding a client accepts.

use vstd::prelude::*;
use crate::cgi::{chars_of_bytes, header_value_text, visible_ascii};
use crate::text::{str_eq, str_starts_with, to_lowercase, unicode_lower};

verus! {

#[derive(Debug, Clone, Copy, PartialEq, Eq, Structural)]
pub enum CompressionAlgo {
    Gzip,
    Brotli,
    /// No compression (`None` in configuration files).
    NoCompression,
}

#[derive(Debug, Clone, Copy)]
pub struct CompressionConfig {
    pub enabled: bool,
    pub gzip_level: u32,
    pub brotli_level: u32,
    pub min_size: u64,
}

impl Default for CompressionConfig {
    fn default() -> (r: Self)
        ensures
            r.enabled && r.gzip_level == 6 && r.brotli_level == 4 && r.min_size == 1024,
    {
        CompressionConfig { enabled: true, gzip_level: 6, brotli_level: 4, min_size: 1024 }
    }
}

pub open spec fn starts_with(s: Seq<char>, p: Seq<char>) -> bool {
    p.len() <= s.len() && s.take(p.len() as int) == p
}

/// Whether `p` occurs in `s`.
pub open spec fn contains_text(s: Seq<char>, p: Seq<char>) -> bool {
    exists|i: int| 0 <= i && i + p.len() <= s.len() && #[trigger] s.subrange(i, i + p.len()) == p
}

/// Whether a MIME type (lower-cased) is worth compressing: SVG and icons
/// are; PDF, ZIP, RAR and raw octets are not; other images, video and audio
/// are not; everything else is.
pub open spec fn compressible(mime: Seq<char>) -> bool {
    let m = unicode_lower(mime);
    if m == "image/svg+xml"@ || m == "image/x-icon"@ {
        true
    } else if m == "application/pdf"@ || m == "application/zip"@ || m
        == "application/x-rar-compressed"@ || m == "application/octet-stream"@ {
        false
    } else {
        !(starts_with(m, "image/"@) || starts_with(m, "video/"@) || starts_with(m, "audio/"@))
    }
}

pub fn is_compressible_mime(mime: &str) -> (r: bool)
    ensures
        r == compressible(mime@),
{
    let m = to_lowercase(mime);
    let ms = m.as_str();
    if str_eq(ms, "image/svg+xml") || str_eq(ms, "image/x-icon") {
        return true;
    }
    if str_eq(ms, "application/pdf") || str_eq(ms, "application/zip") || str_eq(
        ms,
        "application/x-rar-compressed",
    ) || str_eq(ms, "application/octet-stream") {
        return false;
    }
    if str_starts_with(ms, "image/") || str_starts_with(ms, "video/") || str_starts_with(
        ms,
        "audio/",
    ) {
        return false;
    }
    true
}

/// Whether `p` occurs in `s`.
pub fn str_contains(s: &str, p: &str) -> (r: bool)
    ensures
        r == contains_text(s@, p@),
{
    let cs = crate::text::chars_of(s);
    let ps = crate::text::chars_of(p);
    if ps.len() > cs.len() {
        return false;
    }
    if ps.len() == 0 {
        assert(s@.subrange(0, 0 + p@.len() as int) =~= p@);
        assert(contains_text(s@, p@));
        return true;
    }
    let n = cs.len();
    let mut i: usize = 0;
    let last = cs.len() - ps.len();
    while i <= last
        invariant
            cs@ == s@,
            ps@ == p@,
            ps@.len() <= cs@.len(),
            last == cs@.len() - ps@.len(),
            n == cs@.len(),
            ps@.len() >= 1,
            i <= last + 1,
            forall|k: int| 0 <= k < i ==> #[trigger] s@.subrange(k, k + p@.len()) != p@,
        decreases last + 1 - i,
    {
        let piece = crate::text::chars_slice(cs.as_slice(), i, i + ps.len());
        if crate::text::chars_eq(piece.as_slice(), ps.as_slice()) {
            assert(s@.subrange(i as int, i + p@.len()) == p@);
            return true;
        }
        i += 1;
    }
    proof {
        assert forall|k: int| 0 <= k && k + p@.len() <= s@.len() implies #[trigger] s@.subrange(
            k,
            k + p@.len(),
        ) != p@ by {
            assert(k < i);
        }
    }
    false
}

/// The encoding for a response: none unless compression is on, the body is
/// large enough and the type compressible; then Brotli when the client's
/// `Accept-Encoding` (visible ASCII, lower-cased) mentions `br`, else gzip
/// when it mentions `gzip`.
pub open spec fn spec_negotiate(
    accept: Option<Seq<u8>>,
    config: CompressionConfig,
    mime: Seq<char>,
    size: u64,
) -> CompressionAlgo {
    if !config.enabled || size < config.min_size || !compressible(mime) {
        CompressionAlgo::NoCompression
    } else {
        match accept {
            Some(b) => if visible_ascii(b) {
                let e = unicode_lower(chars_of_bytes(b));
                if contains_text(e, "br"@) {
                    CompressionAlgo::Brotli
                } else if contains_text(e, "gzip"@) {
                    CompressionAlgo::Gzip
                } else {
                    CompressionAlgo::NoCompression
                }
            } else {
                CompressionAlgo::NoCompression
            },
            None => CompressionAlgo::NoCompression,
        }
    }
}

/// Picks the encoding for a response; `accept_encoding` is the raw value
/// of the request's `Accept-Encoding` header, if it has one.
pub fn negotiate_encoding(
    accept_encoding: Option<&[u8]>,
    config: &CompressionConfig,
    mime: &str,
    size: u64,
) -> (r: CompressionAlgo)
    ensures
        r == spec_negotiate(
            match accept_encoding {
                Some(b) => Some(b@),
                None => None,
            },
            *config,
            mime@,
            size,
        ),
{
    if !config.enabled || size < config.min_size || !is_compressible_mime(mime) {
        return CompressionAlgo::NoCompression;
    }
    if let Some(raw) = accept_encoding {
        if let Some(enc_str) = header_value_text(raw) {
            let lower = to_lowercase(enc_str.as_str());
            if str_contains(lower.as_str(), "br") {
                return CompressionAlgo::Brotli;
            } else if str_contains(lower.as_str(), "gzip") {
                return CompressionAlgo::Gzip;
            }
        }
    }
    CompressionAlgo::NoCompression
}

/// What `flate2::write::GzEncoder` writes for a body at a level (`None`
/// when writing or finishing fails).
pub uninterp spec fn gzip_output(body: Seq<u8>, level: u32) -> Option<Seq<u8>>;

/// What `brotli::CompressorWriter` (4096-byte buffer, window 20) writes for
/// a body at a quality (`None` when writing or flushing fails).
pub uninterp spec fn brotli_output(body: Seq<u8>, quality: u32) -> Option<Seq<u8>>;

/// Gzip through `flate2::write::GzEncoder` into a vector. Trusted: the
/// result is named `gzip_output` of the body and level, and a gzip stream
/// starts with the magic bytes 0x1f 0x8b (the crate's header writer); the
/// deflate encoding is not stated. Levels above 10 are left out: the
/// crate's deflate backend asserts the level is at most 10.
#[verifier::external_body]
fn gzip_compress(body: &[u8], level: u32) -> (r: Option<Vec<u8>>)
    requires
        level <= 10,
    ensures
        match r {
            Some(v) => gzip_output(body@, level) == Some(v@) && v@.len() >= 2 && v@[0] == 0x1f
                && v@[1] == 0x8b,
            None => gzip_output(body@, level) is None,
        },
{
    let mut encoder = flate2::write::GzEncoder::new(Vec::new(), flate2::Compression::new(level));
    if std::io::Write::write_all(&mut encoder, body).is_err() {
        return None;
    }
    encoder.finish().ok()
}

/// Brotli through `brotli::CompressorWriter` into a vector. Trusted: the
/// result is named `brotli_output` of the body and quality; the encoding is
/// not stated.
#[verifier::external_body]
fn brotli_compress(body: &[u8], quality: u32) -> (r: Option<Vec<u8>>)
    ensures
        match r {
            Some(v) => brotli_output(body@, quality) == Some(v@),
            None => brotli_output(body@, quality) is None,
        },
{
    let mut writer = brotli::CompressorWriter::new(Vec::new(), 4096, quality, 20);
    if std::io::Write::write_all(&mut writer, body).is_err() || std::io::Write::flush(&mut writer).is_err() {
        return None;
    }
    Some(writer.into_inner())
}

/// The body compressed with an algorithm at the configured level.
pub open spec fn compressed(body: Seq<u8>, algo: CompressionAlgo, config: CompressionConfig) -> Option<Seq<u8>> {
    match algo {
        CompressionAlgo::NoCompression => None,
        CompressionAlgo::Gzip => gzip_output(body, config.gzip_level),
        CompressionAlgo::Brotli => brotli_output(body, config.brotli_level),
    }
}

/// Compresses a body with an algorithm at the configured level (a gzip
/// level must be at most 10, as the gzip encoder demands).
pub fn compress_body(body: &[u8], algo: CompressionAlgo, config: &CompressionConfig) -> (r: Option<Vec<u8>>)
    requires
        algo == CompressionAlgo::Gzip ==> config.gzip_level <= 10,
    ensures
        match r {
            Some(v) => compressed(body@, algo, *config) == Some(v@),
            None => compressed(body@, algo, *config) is None,
        },
        algo == CompressionAlgo::NoCompression ==> r is None,
        (algo == CompressionAlgo::Gzip && r is Some) ==> r->0@.len() >= 2 && r->0@[0] == 0x1f && r->0@[1] == 0x8b,
{
    match algo {
        CompressionAlgo::NoCompression => None,
        CompressionAlgo::Gzip => gzip_compress(body, config.gzip_level),
        CompressionAlgo::Brotli => brotli_compress(body, config.brotli_level),
    }
}

/// Media that is already compressed is never compressed again: every
/// audio and video type, and every image type but SVG and icons, is not
/// compressible, whatever its case; SVG and icons are; and a type outside
/// image, audio and video is compressible unless it is PDF, ZIP, RAR or raw
/// octets.
pub proof fn law_media_types_not_compressible(mime: Seq<char>)
    ensures
        starts_with(unicode_lower(mime), "audio/"@) ==> !compressible(mime),
        starts_with(unicode_lower(mime), "video/"@) ==> !compressible(mime),
        starts_with(unicode_lower(mime), "image/"@) ==> (compressible(mime) <==> (unicode_lower(mime)
            == "image/svg+xml"@ || unicode_lower(mime) == "image/x-icon"@)),
        !starts_with(unicode_lower(mime), "audio/"@) && !starts_with(unicode_lower(mime), "video/"@)
            && !starts_with(unicode_lower(mime), "image/"@) ==> (compressible(mime) <==> !(
        unicode_lower(mime) == "application/pdf"@ || unicode_lower(mime) == "application/zip"@
            || unicode_lower(mime) == "application/x-rar-compressed"@ || unicode_lower(mime)
            == "application/octet-stream"@)),
{
    let m = unicode_lower(mime);
    reveal_strlit("audio/");
    reveal_strlit("video/");
    reveal_strlit("image/");
    reveal_strlit("image/svg+xml");
    reveal_strlit("image/x-icon");
    reveal_strlit("application/pdf");
    reveal_strlit("application/zip");
    reveal_strlit("application/x-rar-compressed");
    reveal_strlit("application/octet-stream");
    if m.len() >= 6 {
        assert(m.take(6)[0] == m[0]);
        assert(m.take(6)[1] == m[1]);
    }
    if m == "image/svg+xml"@ || m == "image/x-icon"@ {
        assert(m.take(6) =~= "image/"@);
    }
}

} // verus!
