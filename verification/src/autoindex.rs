//! Directory listings: the entries of a directory put in order (the parent
//! link first, then directories, then files, each group by name) and the HTML
//! page that lists them. Reading the directory is the caller's part.

use vstd::prelude::*;
use vstd::multiset::Multiset;
use vstd::string::StringSliceAdditionalSpecFns;
use crate::access_log::{LOG_TIME_MIN, LOG_TIME_MAX};
use crate::text::{dec_str, push_char, push_str, push_dec, str_eq, to_owned, chars_of};

verus! {

broadcast use vstd::seq_lib::group_seq_properties;

// ---------------------------------------------------------------------------
// Percent-encoding of a path segment
// ---------------------------------------------------------------------------

/// Bytes that stay as they are in a link: ASCII digits (48..=57), letters
/// (65..=90, 97..=122) and `-`, `_`, `.`, `~` (45, 95, 46, 126).
pub open spec fn uri_unreserved(b: u8) -> bool {
    (48 <= b <= 57) || (65 <= b <= 90) || (97 <= b <= 122) || b == 45 || b == 95 || b == 46
        || b == 126
}

pub open spec fn hex_upper_digit(d: int) -> char {
    if d < 10 {
        ('0' as int + d) as char
    } else {
        ('A' as int + d - 10) as char
    }
}

/// `%` and the byte in two upper-case hexadecimal digits.
pub open spec fn percent_byte_text(b: u8) -> Seq<char> {
    seq!['%', hex_upper_digit(b as int / 16), hex_upper_digit(b as int % 16)]
}

pub open spec fn uri_byte_encoded(b: u8) -> Seq<char> {
    if uri_unreserved(b) {
        seq![b as char]
    } else {
        percent_byte_text(b)
    }
}

/// The percent-encoding of a byte string, byte by byte.
pub open spec fn uri_path_encoded(bytes: Seq<u8>) -> Seq<char>
    decreases bytes.len(),
{
    if bytes.len() == 0 {
        Seq::empty()
    } else {
        uri_path_encoded(bytes.drop_last()) + uri_byte_encoded(bytes.last())
    }
}

/// `percent_encoding::percent_encode_byte`. Trusted: the text is `%` and the
/// byte in two upper-case hexadecimal digits, as the crate's table holds.
#[verifier::external_body]
fn percent_byte(b: u8) -> (r: &'static str)
    ensures
        r@ == percent_byte_text(b),
{
    percent_encoding::percent_encode_byte(b)
}

fn is_uri_unreserved(b: u8) -> (r: bool)
    ensures
        r == uri_unreserved(b),
{
    (48 <= b && b <= 57) || (65 <= b && b <= 90) || (97 <= b && b <= 122) || b == 45 || b == 95
        || b == 46 || b == 126
}

/// Percent-encodes the UTF-8 bytes of `path`: every byte but ASCII letters,
/// digits and `-_.~` becomes `%XX`.
pub fn encode_uri_path(path: &str) -> (r: String)
    ensures
        r@ == uri_path_encoded(path.spec_bytes()),
{
    let bytes = path.as_bytes();
    let mut out = String::new();
    let mut i: usize = 0;
    while i < bytes.len()
        invariant
            i <= bytes@.len(),
            bytes@ == path.spec_bytes(),
            out@ == uri_path_encoded(bytes@.take(i as int)),
        decreases bytes@.len() - i,
    {
        let b = bytes[i];
        assert(bytes@.take(i + 1).drop_last() =~= bytes@.take(i as int));
        if is_uri_unreserved(b) {
            push_char(&mut out, b as char);
            assert(out@ =~= uri_path_encoded(bytes@.take(i + 1)));
        } else {
            push_str(&mut out, percent_byte(b));
        }
        i += 1;
    }
    assert(bytes@.take(bytes@.len() as int) =~= bytes@);
    out
}

// ---------------------------------------------------------------------------
// HTML text escaping
// ---------------------------------------------------------------------------

pub open spec fn html_char_escaped(c: char) -> Seq<char> {
    if c == '&' {
        seq!['&', 'a', 'm', 'p', ';']
    } else if c == '<' {
        seq!['&', 'l', 't', ';']
    } else if c == '>' {
        seq!['&', 'g', 't', ';']
    } else {
        seq![c]
    }
}

/// Text with `&`, `<` and `>` replaced by their entities.
pub open spec fn html_text_escaped(s: Seq<char>) -> Seq<char>
    decreases s.len(),
{
    if s.len() == 0 {
        Seq::empty()
    } else {
        html_text_escaped(s.drop_last()) + html_char_escaped(s.last())
    }
}

/// `html_escape::encode_text`. Trusted: `&`, `<` and `>` become `&amp;`,
/// `&lt;` and `&gt;` and every other character stays, as the crate documents.
#[verifier::external_body]
fn escape_html_text(s: &str) -> (r: String)
    ensures
        r@ == html_text_escaped(s@),
{
    html_escape::encode_text(s).into_owned()
}


// ---------------------------------------------------------------------------
// Entries and their order
// ---------------------------------------------------------------------------

/// One line of a listing.
#[derive(Debug, Clone)]
pub struct DirEntry {
    pub name: String,
    pub is_dir: bool,
    pub size: u64,
    pub mtime_secs: u64,
}

/// Byte order of names, which for UTF-8 text is the order of code points,
/// character by character, a prefix first.
pub open spec fn name_lt(a: Seq<char>, b: Seq<char>) -> bool
    decreases a.len(),
{
    if b.len() == 0 {
        false
    } else if a.len() == 0 {
        true
    } else if a[0] != b[0] {
        (a[0] as u32) < (b[0] as u32)
    } else {
        name_lt(a.drop_first(), b.drop_first())
    }
}

pub open spec fn parent_name() -> Seq<char> {
    seq!['.', '.']
}

/// The parent link comes first, then directories, then files.
pub open spec fn entry_rank(e: DirEntry) -> int {
    if e.name@ == parent_name() {
        0
    } else if e.is_dir {
        1
    } else {
        2
    }
}

/// Whether `a` is listed before `b`: by rank, then by name.
pub open spec fn entry_lt(a: DirEntry, b: DirEntry) -> bool {
    entry_rank(a) < entry_rank(b) || (entry_rank(a) == entry_rank(b) && name_lt(a.name@, b.name@))
}

/// No entry is listed after one that it should precede.
pub open spec fn listing_sorted(s: Seq<DirEntry>) -> bool {
    forall|i: int, j: int| 0 <= i < j < s.len() ==> !entry_lt(#[trigger] s[j], #[trigger] s[i])
}

proof fn lemma_name_lt_irreflexive(a: Seq<char>)
    ensures
        !name_lt(a, a),
    decreases a.len(),
{
    if a.len() > 0 {
        lemma_name_lt_irreflexive(a.drop_first());
    }
}

proof fn lemma_name_lt_transitive(a: Seq<char>, b: Seq<char>, c: Seq<char>)
    requires
        name_lt(a, b),
        name_lt(b, c),
    ensures
        name_lt(a, c),
    decreases a.len(),
{
    if a.len() > 0 && b.len() > 0 && c.len() > 0 && a[0] == b[0] && b[0] == c[0] {
        lemma_name_lt_transitive(a.drop_first(), b.drop_first(), c.drop_first());
    }
}

proof fn lemma_entry_lt_irreflexive(a: DirEntry)
    ensures
        !entry_lt(a, a),
{
    lemma_name_lt_irreflexive(a.name@);
}

proof fn lemma_entry_lt_transitive(a: DirEntry, b: DirEntry, c: DirEntry)
    requires
        entry_lt(a, b),
        entry_lt(b, c),
    ensures
        entry_lt(a, c),
{
    if entry_rank(a) == entry_rank(b) && entry_rank(b) == entry_rank(c) {
        lemma_name_lt_transitive(a.name@, b.name@, c.name@);
    }
}

fn name_less(a: &str, b: &str) -> (r: bool)
    ensures
        r == name_lt(a@, b@),
{
    let x = chars_of(a);
    let y = chars_of(b);
    let mut i: usize = 0;
    while i < x.len() && i < y.len() && x[i] == y[i]
        invariant
            i <= x@.len(),
            i <= y@.len(),
            name_lt(a@, b@) == name_lt(x@.skip(i as int), y@.skip(i as int)),
            x@ == a@,
            y@ == b@,
        decreases x@.len() - i,
    {
        assert(x@.skip(i as int).drop_first() =~= x@.skip(i + 1));
        assert(y@.skip(i as int).drop_first() =~= y@.skip(i + 1));
        i += 1;
    }
    if i == y.len() {
        false
    } else if i == x.len() {
        true
    } else {
        (x[i] as u32) < (y[i] as u32)
    }
}

fn is_parent_name(name: &str) -> (r: bool)
    ensures
        r == (name@ == parent_name()),
{
    proof {
        reveal_strlit("..");
        assert(".."@ =~= parent_name());
    }
    str_eq(name, "..")
}

fn entry_rank_of(e: &DirEntry) -> (r: u8)
    ensures
        r == entry_rank(*e),
{
    if is_parent_name(e.name.as_str()) {
        0
    } else if e.is_dir {
        1
    } else {
        2
    }
}

fn entry_less(a: &DirEntry, b: &DirEntry) -> (r: bool)
    ensures
        r == entry_lt(*a, *b),
{
    let ra = entry_rank_of(a);
    let rb = entry_rank_of(b);
    if ra != rb {
        ra < rb
    } else {
        name_less(a.name.as_str(), b.name.as_str())
    }
}

/// Puts `e` into the sorted `out` after every entry that it does not precede.
fn insert_sorted(out: &mut Vec<DirEntry>, e: DirEntry)
    requires
        listing_sorted(old(out)@),
    ensures
        listing_sorted(final(out)@),
        final(out)@.to_multiset() == old(out)@.to_multiset().insert(e),
{
    let mut p: usize = 0;
    while p < out.len() && !entry_less(&e, &out[p])
        invariant
            p <= out@.len(),
            forall|i: int| 0 <= i < p ==> !entry_lt(e, #[trigger] out@[i]),
        decreases out@.len() - p,
    {
        p += 1;
    }
    let ghost before = out@;
    proof {
        vstd::seq_lib::to_multiset_insert(before, p as int, e);
    }
    out.insert(p, e);
    assert forall|i: int, j: int| 0 <= i < j < out@.len() implies !entry_lt(
        #[trigger] out@[j],
        #[trigger] out@[i],
    ) by {
        if j == p {
        } else if i == p {
            // out@[j] == before[j - 1] and e precedes before[p]
            if entry_lt(out@[j], e) {
                lemma_entry_lt_transitive(out@[j], e, before[p as int]);
                if j - 1 == p {
                    lemma_entry_lt_irreflexive(before[p as int]);
                } else {
                    assert(!entry_lt(before[j - 1], before[p as int]));
                }
            }
        } else {
            let oi = if i < p { i } else { i - 1 };
            let oj = if j < p { j } else { j - 1 };
            assert(out@[i] == before[oi]);
            assert(out@[j] == before[oj]);
        }
    }
}

pub open spec fn needs_parent_link(uri_path: Seq<char>) -> bool {
    uri_path != seq!['/'] && uri_path.len() > 0
}

pub open spec fn is_parent_entry(e: DirEntry) -> bool {
    e.name@ == parent_name() && e.is_dir && e.size == 0 && e.mtime_secs == 0
}

/// The entries of a listing in order: those found in the directory and,
/// below the root, a link to the parent, `..`, which comes first.
pub fn listing_entries(uri_path: &str, found: Vec<DirEntry>) -> (r: Vec<DirEntry>)
    ensures
        listing_sorted(r@),
        needs_parent_link(uri_path@) ==> exists|p: DirEntry|
            is_parent_entry(p) && r@.to_multiset() == found@.to_multiset().insert(p),
        !needs_parent_link(uri_path@) ==> r@.to_multiset() == found@.to_multiset(),
{
    let mut pending = found;
    let ghost original = pending@;
    proof {
        reveal_strlit("/");
        assert("/"@ =~= seq!['/']);
    }
    if !str_eq(uri_path, "/") && uri_path.unicode_len() > 0 {
        proof {
            reveal_strlit("..");
            assert(".."@ =~= parent_name());
        }
        let parent = DirEntry { name: to_owned(".."), is_dir: true, size: 0, mtime_secs: 0 };
        assert(is_parent_entry(parent));
        let ghost before = pending@;
        pending.push(parent);
        proof {
            vstd::seq_lib::to_multiset_build(before, parent);
        }
    }
    let ghost start = pending@;
    let mut out: Vec<DirEntry> = Vec::new();
    assert(out@.to_multiset() =~= Multiset::<DirEntry>::empty());
    while pending.len() > 0
        invariant
            listing_sorted(out@),
            out@.to_multiset().add(pending@.to_multiset()) == start.to_multiset(),
        decreases pending@.len(),
    {
        let ghost before = pending@;
        let e = pending.pop().unwrap();
        proof {
            assert(before =~= pending@.push(e));
            vstd::seq_lib::to_multiset_build(pending@, e);
        }
        insert_sorted(&mut out, e);
        assert(out@.to_multiset().add(pending@.to_multiset()) =~= start.to_multiset());
    }
    assert(pending@.to_multiset() =~= Multiset::<DirEntry>::empty());
    assert(out@.to_multiset() =~= start.to_multiset());
    out
}

// ---------------------------------------------------------------------------
// The HTML page
// ---------------------------------------------------------------------------

/// A second as `%Y-%m-%d %H:%M:%S` in UTC.
pub uninterp spec fn listing_time_text(secs: int) -> Seq<char>;

/// `chrono::DateTime::from_timestamp` then `format("%Y-%m-%d %H:%M:%S")`.
/// Trusted: the text is named `listing_time_text` of the second; the calendar
/// arithmetic is not stated.
#[verifier::external_body]
fn listing_time(secs: i64) -> (r: String)
    requires
        LOG_TIME_MIN <= secs <= LOG_TIME_MAX,
    ensures
        r@ == listing_time_text(secs as int),
{
    match chrono::DateTime::from_timestamp(secs, 0) {
        Some(dt) => dt.format("%Y-%m-%d %H:%M:%S").to_string(),
        None => String::new(),
    }
}

/// The date column: `-` for an unknown time; a second outside the calendar
/// shows the epoch.
pub open spec fn listing_date(mtime_secs: u64) -> Seq<char> {
    if mtime_secs == 0 {
        "-"@
    } else if LOG_TIME_MIN <= (mtime_secs as i64) <= LOG_TIME_MAX {
        listing_time_text((mtime_secs as i64) as int)
    } else {
        "1970-01-01 00:00:00"@
    }
}

/// The prefix of links: the path with one `/` at its end.
pub open spec fn listing_base_href(uri_path: Seq<char>) -> Seq<char> {
    if uri_path.len() > 0 && uri_path.last() == '/' {
        uri_path
    } else if uri_path.len() == 0 {
        "/"@
    } else {
        uri_path + "/"@
    }
}

pub open spec fn listing_href(e: DirEntry, base: Seq<char>) -> Seq<char> {
    if e.name@ == parent_name() {
        "../"@
    } else {
        base + uri_path_encoded(vstd::utf8::encode_utf8(e.name@)) + (if e.is_dir {
            "/"@
        } else {
            Seq::empty()
        })
    }
}

pub open spec fn listing_row(e: DirEntry, base: Seq<char>) -> Seq<char> {
    "<tr><td><a href=\""@ + listing_href(e, base) + "\">"@ + html_text_escaped(e.name@) + (if e.is_dir
        && e.name@ != parent_name() {
        "/"@
    } else {
        Seq::empty()
    }) + "</a></td><td>"@ + listing_date(e.mtime_secs) + "</td><td>"@ + (if e.is_dir {
        "-"@
    } else {
        dec_str(e.size as nat)
    }) + "</td></tr>"@
}

pub open spec fn listing_rows(es: Seq<DirEntry>, base: Seq<char>) -> Seq<char>
    decreases es.len(),
{
    if es.len() == 0 {
        Seq::empty()
    } else {
        listing_rows(es.drop_last(), base) + listing_row(es.last(), base)
    }
}

pub open spec fn listing_html(es: Seq<DirEntry>, uri_path: Seq<char>) -> Seq<char> {
    let shown = html_text_escaped(uri_path);
    "<!DOCTYPE html><html><head><title>Index of "@ + shown
        + "</title><style>body{font-family:monospace} th{text-align:left} table{width:100%} td{padding:2px 10px}</style></head><body><h1>Index of "@
        + shown + "</h1><hr><table>"@ + "<tr><th>Name</th><th>Last Modified</th><th>Size</th></tr>"@
        + listing_rows(es, listing_base_href(uri_path)) + "</table><hr></body></html>"@
}

fn push_listing_row(out: &mut String, e: &DirEntry, base: &str)
    ensures
        final(out)@ == old(out)@ + listing_row(*e, base@),
{
    let parent = is_parent_name(e.name.as_str());
    let ghost start = out@;
    push_str(out, "<tr><td><a href=\"");
    let ghost at_href = out@;
    if parent {
        push_str(out, "../");
    } else {
        push_str(out, base);
        let encoded = encode_uri_path(e.name.as_str());
        push_str(out, encoded.as_str());
        if e.is_dir {
            push_str(out, "/");
        }
    }
    assert(out@ =~= at_href + listing_href(*e, base@));
    push_str(out, "\">");
    let shown = escape_html_text(e.name.as_str());
    push_str(out, shown.as_str());
    if e.is_dir && !parent {
        push_str(out, "/");
    }
    push_str(out, "</a></td><td>");
    let ghost at_date = out@;
    if e.mtime_secs > 0 {
        let secs = e.mtime_secs as i64;
        if LOG_TIME_MIN <= secs && secs <= LOG_TIME_MAX {
            let t = listing_time(secs);
            push_str(out, t.as_str());
        } else {
            push_str(out, "1970-01-01 00:00:00");
        }
    } else {
        push_str(out, "-");
    }
    assert(out@ =~= at_date + listing_date(e.mtime_secs));
    push_str(out, "</td><td>");
    if e.is_dir {
        push_str(out, "-");
    } else {
        push_dec(out, e.size);
    }
    push_str(out, "</td></tr>");
    assert(out@ =~= start + listing_row(*e, base@));
}

/// The HTML page that lists `entries` under the title `Index of <uri_path>`.
pub fn generate_html(entries: &[DirEntry], uri_path: &str) -> (r: String)
    ensures
        r@ == listing_html(entries@, uri_path@),
{
    let shown = escape_html_text(uri_path);
    let chars = chars_of(uri_path);
    let base = if chars.len() > 0 && chars[chars.len() - 1] == '/' {
        to_owned(uri_path)
    } else if chars.len() == 0 {
        to_owned("/")
    } else {
        let mut b = to_owned(uri_path);
        push_str(&mut b, "/");
        b
    };
    assert(base@ == listing_base_href(uri_path@));
    let mut out = String::new();
    push_str(&mut out, "<!DOCTYPE html><html><head><title>Index of ");
    push_str(&mut out, shown.as_str());
    push_str(
        &mut out,
        "</title><style>body{font-family:monospace} th{text-align:left} table{width:100%} td{padding:2px 10px}</style></head><body><h1>Index of ",
    );
    push_str(&mut out, shown.as_str());
    push_str(&mut out, "</h1><hr><table>");
    push_str(&mut out, "<tr><th>Name</th><th>Last Modified</th><th>Size</th></tr>");
    let ghost head = out@;
    let mut i: usize = 0;
    while i < entries.len()
        invariant
            i <= entries@.len(),
            out@ == head + listing_rows(entries@.take(i as int), base@),
        decreases entries@.len() - i,
    {
        push_listing_row(&mut out, &entries[i], base.as_str());
        assert(entries@.take(i + 1).drop_last() =~= entries@.take(i as int));
        assert(out@ =~= head + listing_rows(entries@.take(i + 1), base@));
        i += 1;
    }
    assert(entries@.take(entries@.len() as int) =~= entries@);
    push_str(&mut out, "</table><hr></body></html>");
    assert(out@ =~= listing_html(entries@, uri_path@));
    out
}

/// The content type of an HTML listing.
pub const LISTING_HTML_TYPE: &'static str = "text/html; charset=utf-8";

/// The content type of a JSON listing.
pub const LISTING_JSON_TYPE: &'static str = "application/json";

} // verus!
