//! HTTP `Range` request headers (RFC 7233 byte ranges).

use vstd::prelude::*;
use crate::text::{chars_of, chars_parse_u64, chars_slice, chars_split, chars_trim, parse_u64, split, trim};

verus! {

/// One byte range of a `Range: bytes=...` header.
#[derive(Debug, PartialEq, Eq, Clone, Copy)]
pub enum HttpRange {
    /// Range `start-end` (both inclusive)
    Range(u64, u64),
    /// Range `start-` (to end of file)
    StartOnly(u64),
    /// Range `-suffix` (last N bytes)
    Suffix(u64),
}

/// The unit prefix every accepted header starts with.
pub open spec fn bytes_unit() -> Seq<char> {
    seq!['b', 'y', 't', 'e', 's', '=']
}

/// How one comma-separated piece reads: `None` when it is malformed,
/// `Some(None)` when it is blank and skipped, `Some(Some(r))` otherwise.
pub open spec fn parse_range_part(raw: Seq<char>) -> Option<Option<HttpRange>> {
    let p = trim(raw);
    if p.len() == 0 {
        Some(None)
    } else if p[0] == '-' {
        match parse_u64(p.drop_first()) {
            Some(n) => Some(Some(HttpRange::Suffix(n))),
            None => None,
        }
    } else if p.last() == '-' {
        match parse_u64(p.drop_last()) {
            Some(n) => Some(Some(HttpRange::StartOnly(n))),
            None => None,
        }
    } else {
        let halves = split(p, '-');
        if halves.len() == 2 {
            match (parse_u64(halves[0]), parse_u64(halves[1])) {
                (Some(a), Some(b)) => if a <= b {
                    Some(Some(HttpRange::Range(a, b)))
                } else {
                    None
                },
                _ => None,
            }
        } else {
            None
        }
    }
}

/// The ranges of a list of pieces, or `None` if one piece is malformed.
pub open spec fn parse_range_parts(parts: Seq<Seq<char>>) -> Option<Seq<HttpRange>>
    decreases parts.len(),
{
    if parts.len() == 0 {
        Some(Seq::empty())
    } else {
        match parse_range_parts(parts.drop_last()) {
            None => None,
            Some(acc) => match parse_range_part(parts.last()) {
                None => None,
                Some(None) => Some(acc),
                Some(Some(r)) => Some(acc.push(r)),
            },
        }
    }
}

/// What `HttpRange::parse` returns for a header value: the ranges in order,
/// or `None` when the unit is not `bytes=`, a piece is malformed, or no
/// range remains.
pub open spec fn spec_parse_ranges(h: Seq<char>) -> Option<Seq<HttpRange>> {
    if h.len() < 6 || h.take(6) != bytes_unit() {
        None
    } else {
        match parse_range_parts(split(h.skip(6), ',')) {
            Some(rs) => if rs.len() > 0 {
                Some(rs)
            } else {
                None
            },
            None => None,
        }
    }
}

/// The absolute inclusive bounds that `r` selects in a body of `total` bytes.
pub open spec fn spec_resolve(r: HttpRange, total: u64) -> Option<(u64, u64)> {
    if total == 0 {
        None
    } else {
        match r {
            HttpRange::Range(start, end) => if start >= total {
                None
            } else {
                Some((start, if end < total - 1 { end } else { (total - 1) as u64 }))
            },
            HttpRange::StartOnly(start) => if start >= total {
                None
            } else {
                Some((start, (total - 1) as u64))
            },
            HttpRange::Suffix(suffix) => if suffix == 0 {
                None
            } else {
                Some((if suffix >= total { 0 } else { (total - suffix) as u64 }, (total - 1) as u64))
            },
        }
    }
}

fn parse_part(raw: &[char]) -> (r: Option<Option<HttpRange>>)
    ensures
        r == parse_range_part(raw@),
{
    let p = chars_trim(raw);
    let n = p.len();
    if n == 0 {
        return Some(None);
    }
    if p[0] == '-' {
        let rest = chars_slice(p.as_slice(), 1, n);
        assert(rest@ =~= p@.drop_first());
        return match chars_parse_u64(rest.as_slice()) {
            Some(v) => Some(Some(HttpRange::Suffix(v))),
            None => None,
        };
    }
    if p[n - 1] == '-' {
        let rest = chars_slice(p.as_slice(), 0, n - 1);
        assert(rest@ =~= p@.drop_last());
        return match chars_parse_u64(rest.as_slice()) {
            Some(v) => Some(Some(HttpRange::StartOnly(v))),
            None => None,
        };
    }
    let halves = chars_split(p.as_slice(), '-');
    if halves.len() == 2 {
        let a = chars_parse_u64(halves[0].as_slice());
        let b = chars_parse_u64(halves[1].as_slice());
        match (a, b) {
            (Some(x), Some(y)) => {
                if x <= y {
                    Some(Some(HttpRange::Range(x, y)))
                } else {
                    None
                }
            },
            _ => None,
        }
    } else {
        None
    }
}

impl HttpRange {
    /// Parse the `Range` HTTP header value (e.g., "bytes=0-499").
    pub fn parse(header_value: &str) -> (r: Option<Vec<HttpRange>>)
        ensures
            match r {
                Some(v) => spec_parse_ranges(header_value@) == Some(v@),
                None => spec_parse_ranges(header_value@) is None,
            },
    {
        let h = chars_of(header_value);
        if h.len() < 6 || !(h[0] == 'b' && h[1] == 'y' && h[2] == 't' && h[3] == 'e' && h[4] == 's'
            && h[5] == '=') {
            proof {
                if h@.len() >= 6 && h@.take(6) == bytes_unit() {
                    assert(h@.take(6)[0] == 'b' && h@.take(6)[1] == 'y' && h@.take(6)[2] == 't'
                        && h@.take(6)[3] == 'e' && h@.take(6)[4] == 's' && h@.take(6)[5] == '=');
                }
            }
            return None;
        }
        assert(h@.take(6) =~= bytes_unit());
        let body = chars_slice(h.as_slice(), 6, h.len());
        assert(body@ =~= h@.skip(6));
        let parts = chars_split(body.as_slice(), ',');
        let ghost sp = split(body@, ',');
        let mut ranges: Vec<HttpRange> = Vec::new();
        let mut i: usize = 0;
        assert(sp.take(0) =~= Seq::<Seq<char>>::empty());
        while i < parts.len()
            invariant
                i <= parts.len(),
                h@ == header_value@,
                h@.len() >= 6,
                h@.take(6) == bytes_unit(),
                body@ == h@.skip(6),
                sp == split(body@, ','),
                parts@.len() == sp.len(),
                forall|k: int| 0 <= k < parts@.len() ==> #[trigger] parts@[k]@ == sp[k],
                parse_range_parts(sp.take(i as int)) == Some(ranges@),
            decreases parts.len() - i,
        {
            assert(sp.take(i + 1).drop_last() =~= sp.take(i as int));
            assert(sp.take(i + 1).last() == parts@[i as int]@);
            match parse_part(parts[i].as_slice()) {
                None => {
                    assert(parse_range_parts(sp.take(i + 1)) is None);
                    proof {
                        lemma_parts_none_sticky(sp, i + 1);
                    }
                    assert(sp.take(sp.len() as int) =~= sp);
                    return None;
                },
                Some(None) => {},
                Some(Some(r)) => {
                    ranges.push(r);
                },
            }
            i += 1;
        }
        assert(sp.take(parts.len() as int) =~= sp);
        if ranges.len() == 0 {
            None
        } else {
            Some(ranges)
        }
    }

    /// Resolve against a specific content size, returning absolute inclusive
    /// byte bounds. Returns None if the range is unsatisfiable.
    pub fn resolve(&self, total_size: u64) -> (r: Option<(u64, u64)>)
        ensures
            r == spec_resolve(*self, total_size),
            r matches Some((a, b)) ==> b < total_size,
    {
        if total_size == 0 {
            return None;
        }
        match self {
            HttpRange::Range(start, end) => {
                if *start >= total_size {
                    None
                } else {
                    let actual_end = if *end < total_size - 1 {
                        *end
                    } else {
                        total_size - 1
                    };
                    Some((*start, actual_end))
                }
            },
            HttpRange::StartOnly(start) => {
                if *start >= total_size {
                    None
                } else {
                    Some((*start, total_size - 1))
                }
            },
            HttpRange::Suffix(suffix) => {
                if *suffix == 0 {
                    None
                } else {
                    let start = if *suffix >= total_size {
                        0
                    } else {
                        total_size - *suffix
                    };
                    Some((start, total_size - 1))
                }
            },
        }
    }
}

/// Once a prefix of the pieces holds a malformed one, so does every longer
/// prefix.
proof fn lemma_parts_none_sticky(sp: Seq<Seq<char>>, k: int)
    requires
        0 <= k <= sp.len(),
        parse_range_parts(sp.take(k)) is None,
    ensures
        parse_range_parts(sp) is None,
    decreases sp.len() - k,
{
    if k < sp.len() {
        assert(sp.take(k + 1).drop_last() =~= sp.take(k));
        lemma_parts_none_sticky(sp, k + 1);
    } else {
        assert(sp.take(k) =~= sp);
    }
}

/// Every range that a parsed header yields can be resolved against a body
/// large enough to hold its first byte, and a `start-end` range always has
/// its start before its end.
pub proof fn law_parsed_ranges_are_ordered(h: Seq<char>, i: int)
    requires
        spec_parse_ranges(h) is Some,
        0 <= i < spec_parse_ranges(h)->0.len(),
    ensures
        spec_parse_ranges(h)->0[i] matches HttpRange::Range(a, b) ==> a <= b,
{
    lemma_parts_ordered(split(h.skip(6), ','), i);
}

proof fn lemma_parts_ordered(parts: Seq<Seq<char>>, i: int)
    requires
        parse_range_parts(parts) is Some,
        0 <= i < parse_range_parts(parts)->0.len(),
    ensures
        parse_range_parts(parts)->0[i] matches HttpRange::Range(a, b) ==> a <= b,
    decreases parts.len(),
{
    if parts.len() > 0 {
        let acc = parse_range_parts(parts.drop_last())->0;
        if i < acc.len() {
            lemma_parts_ordered(parts.drop_last(), i);
        }
    }
}

/// Resolving a well-formed range (one whose `start-end` bounds are in
/// order, as every parsed range is) never yields bounds outside the body:
/// the first byte comes before or at the last one, and the last one is inside
/// the body.
pub proof fn law_resolve_in_bounds(r: HttpRange, total: u64)
    requires
        r matches HttpRange::Range(a, b) ==> a <= b,
    ensures
        spec_resolve(r, total) matches Some((a, b)) ==> a <= b < total,
{
}

/// What a resolved range covers, for every range and body size:
/// - `start-end` with the start inside the body yields the requested start
///   and, as its end, the requested end clipped to the body's last byte (the
///   smaller of the two); a start outside the body (or an empty body) yields
///   nothing;
/// - `start-` with the start inside the body runs from the start to the last
///   byte;
/// - `-n` (n > 0) covers exactly the last n bytes, or the whole body when it
///   is shorter; `-0` yields nothing.
pub proof fn law_resolve_selects_requested_bytes(r: HttpRange, total: u64)
    ensures
        r matches HttpRange::Range(a, b) ==> (if total > 0 && a < total {
            spec_resolve(r, total) matches Some((s, e)) && s == a && e <= b && e < total && (e == b || e
                == total - 1)
        } else {
            spec_resolve(r, total) is None
        }),
        r matches HttpRange::StartOnly(a) ==> (if total > 0 && a < total {
            spec_resolve(r, total) == Some((a, (total - 1) as u64))
        } else {
            spec_resolve(r, total) is None
        }),
        r matches HttpRange::Suffix(n) ==> (if total > 0 && n > 0 {
            spec_resolve(r, total) matches Some((s, e)) && e == total - 1 && e - s + 1 == (if n < total {
                n as int
            } else {
                total as int
            })
        } else {
            spec_resolve(r, total) is None
        }),
{
}

} // verus!
