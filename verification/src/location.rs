//! `location` blocks and the nginx rule that picks one for a URI: exact
//! match, then the longest `^~` prefix (when no plain prefix is longer),
//! then the first matching pattern, then the longest plain prefix.

use vstd::prelude::*;
use crate::limit_except::LimitExceptConfig;
use crate::pattern::{regex_is_match, regex_valid, Pattern};
use crate::rewrite::{ReturnDirective, RewriteRule};

verus! {

#[derive(Debug)]
pub enum LocationError {
    InvalidRegex(regex::Error),
}

#[derive(Debug, Clone, Copy, PartialEq, Eq, Structural)]
pub enum LocationMatchType {
    /// `=`
    Exact,
    /// no modifier
    Prefix,
    /// `^~`
    PreferredPrefix,
    /// `~`
    Regex,
    /// `~*`
    RegexCaseInsensitive,
}

impl Default for LocationMatchType {
    fn default() -> (r: Self)
        ensures
            r == LocationMatchType::Prefix,
    {
        LocationMatchType::Prefix
    }
}

#[derive(Debug, Clone)]
pub struct LocationBlock {
    pub path: String,
    pub match_type: LocationMatchType,
    pub proxy_pass: Option<String>,
    pub root: Option<String>,
    pub try_files: Vec<String>,
    pub return_directive: Option<ReturnDirective>,
    pub rewrite: Vec<RewriteRule>,
    pub auth_request: Option<String>,
    pub auth_request_set: Vec<(String, String)>,
    pub limit_except: LimitExceptConfig,
}

pub struct ParsedLocationBlock {
    pub config: LocationBlock,
    pub regex: Option<Pattern>,
}

/// The pattern of a block: its path, with `(?i)` in front for `~*`.
pub open spec fn block_pattern(config: &LocationBlock) -> Option<Seq<char>> {
    match config.match_type {
        LocationMatchType::Regex => Some(config.path@),
        LocationMatchType::RegexCaseInsensitive => Some("(?i)"@ + config.path@),
        _ => None,
    }
}

/// What the matcher reads of a block: its kind, path and pattern.
pub struct LocView {
    pub kind: LocationMatchType,
    pub path: Seq<char>,
    pub pattern: Option<Seq<char>>,
}

impl ParsedLocationBlock {
    pub open spec fn wf(&self) -> bool {
        match (self.regex, block_pattern(&self.config)) {
            (Some(p), Some(s)) => p.spec_source() == s,
            (None, None) => true,
            _ => false,
        }
    }

    pub open spec fn loc_view(&self) -> LocView {
        LocView {
            kind: self.config.match_type,
            path: self.config.path@,
            pattern: match self.regex {
                Some(p) => Some(p.spec_source()),
                None => None,
            },
        }
    }

    /// Compiles the block's pattern, if it has one.
    pub fn parse(config: LocationBlock) -> (r: Result<Self, LocationError>)
        ensures
            match block_pattern(&config) {
                Some(p) => r is Ok <==> regex_valid(p),
                None => r is Ok,
            },
            r matches Ok(b) ==> b.wf() && b.config == config,
    {
        let regex = match config.match_type {
            LocationMatchType::Regex => match Pattern::new(config.path.as_str()) {
                Ok(p) => Some(p),
                Err(e) => return Err(LocationError::InvalidRegex(e)),
            },
            LocationMatchType::RegexCaseInsensitive => {
                let mut s = crate::text::to_owned("(?i)");
                crate::text::push_str(&mut s, config.path.as_str());
                match Pattern::new(s.as_str()) {
                    Ok(p) => Some(p),
                    Err(e) => return Err(LocationError::InvalidRegex(e)),
                }
            },
            _ => None,
        };
        Ok(ParsedLocationBlock { config, regex })
    }
}

pub open spec fn is_prefix_of(p: Seq<char>, s: Seq<char>) -> bool {
    p.len() <= s.len() && s.take(p.len() as int) == p
}

pub open spec fn views(locs: Seq<ParsedLocationBlock>) -> Seq<LocView> {
    locs.map_values(|l: ParsedLocationBlock| l.loc_view())
}

/// The first block of kind `Exact` whose path is the URI.
pub open spec fn exact_pick(ls: Seq<LocView>, uri: Seq<char>, n: nat) -> Option<int>
    decreases n,
{
    if n == 0 {
        None
    } else {
        match exact_pick(ls, uri, (n - 1) as nat) {
            Some(i) => Some(i),
            None => if ls[n - 1].kind == LocationMatchType::Exact && ls[n - 1].path == uri {
                Some(n - 1)
            } else {
                None
            },
        }
    }
}

/// Among the first `n` blocks of `kind` whose path starts the URI, the
/// first of the longest.
pub open spec fn prefix_pick(ls: Seq<LocView>, uri: Seq<char>, kind: LocationMatchType, n: nat) -> Option<int>
    decreases n,
{
    if n == 0 {
        None
    } else {
        let prev = prefix_pick(ls, uri, kind, (n - 1) as nat);
        if ls[n - 1].kind == kind && is_prefix_of(ls[n - 1].path, uri) && (match prev {
            Some(j) => ls[n - 1].path.len() > ls[j].path.len(),
            None => true,
        }) {
            Some(n - 1)
        } else {
            prev
        }
    }
}

pub open spec fn is_pattern_kind(k: LocationMatchType) -> bool {
    k == LocationMatchType::Regex || k == LocationMatchType::RegexCaseInsensitive
}

/// The first pattern block whose pattern matches the URI.
pub open spec fn pattern_pick(ls: Seq<LocView>, uri: Seq<char>, n: nat) -> Option<int>
    decreases n,
{
    if n == 0 {
        None
    } else {
        match pattern_pick(ls, uri, (n - 1) as nat) {
            Some(i) => Some(i),
            None => if is_pattern_kind(ls[n - 1].kind) && (ls[n - 1].pattern matches Some(p)
                && regex_is_match(p, uri)) {
                Some(n - 1)
            } else {
                None
            },
        }
    }
}

/// The block for a URI (see the module comment).
pub open spec fn location_for(ls: Seq<LocView>, uri: Seq<char>) -> Option<int> {
    let n = ls.len();
    match exact_pick(ls, uri, n) {
        Some(i) => Some(i),
        None => {
            let pref = prefix_pick(ls, uri, LocationMatchType::PreferredPrefix, n);
            let long = prefix_pick(ls, uri, LocationMatchType::Prefix, n);
            let long_len: int = match long {
                Some(j) => ls[j].path.len() as int,
                None => 0,
            };
            if pref is Some && ls[pref->0].path.len() >= long_len {
                pref
            } else if pattern_pick(ls, uri, n) is Some {
                pattern_pick(ls, uri, n)
            } else {
                long
            }
        },
    }
}

proof fn lemma_picks_in_range(ls: Seq<LocView>, uri: Seq<char>, n: nat)
    ensures
        exact_pick(ls, uri, n) matches Some(i) ==> 0 <= i < n,
        prefix_pick(ls, uri, LocationMatchType::PreferredPrefix, n) matches Some(i) ==> 0 <= i < n,
        prefix_pick(ls, uri, LocationMatchType::Prefix, n) matches Some(i) ==> 0 <= i < n,
        pattern_pick(ls, uri, n) matches Some(i) ==> 0 <= i < n,
    decreases n,
{
    if n > 0 {
        lemma_picks_in_range(ls, uri, (n - 1) as nat);
    }
}

pub open spec fn as_int_opt(o: Option<usize>) -> Option<int> {
    match o {
        Some(x) => Some(x as int),
        None => None,
    }
}

fn starts_with_chars(s: &str, p: &str) -> (r: bool)
    ensures
        r == is_prefix_of(p@, s@),
{
    crate::text::str_starts_with(s, p)
}

/// Nginx location priority:
/// 1. Exact match (= /path)
/// 2. Preferred prefix match (^~ /static/)
/// 3. Regex match (~, ~*) (in order of appearance)
/// 4. Longest prefix match (/api/)
pub fn match_location<'a>(locations: &'a [ParsedLocationBlock], uri: &str) -> (r: Option<
    &'a ParsedLocationBlock,
>)
    ensures
        match location_for(views(locations@), uri@) {
            Some(i) => r == Some(&locations@[i]),
            None => r is None,
        },
{
    let ghost ls = views(locations@);
    let mut pref: Option<usize> = None;
    let mut pref_len: usize = 0;
    let mut long: Option<usize> = None;
    let mut long_len: usize = 0;
    let mut pat: Option<usize> = None;
    let mut i: usize = 0;
    while i < locations.len()
        invariant
            i <= locations@.len(),
            ls == views(locations@),
            ls.len() == locations@.len(),
            exact_pick(ls, uri@, i as nat) is None,
            as_int_opt(pref) == prefix_pick(ls, uri@, LocationMatchType::PreferredPrefix, i as nat),
            pref matches Some(j) ==> j < i && pref_len == ls[j as int].path.len(),
            as_int_opt(long) == prefix_pick(ls, uri@, LocationMatchType::Prefix, i as nat),
            long matches Some(j) ==> j < i && long_len == ls[j as int].path.len(),
            long is None ==> long_len == 0,
            as_int_opt(pat) == pattern_pick(ls, uri@, i as nat),
            pat matches Some(j) ==> j < i,
        decreases locations@.len() - i,
    {
        let loc = &locations[i];
        assert(ls[i as int] == loc.loc_view());
        match loc.config.match_type {
            LocationMatchType::Exact => {
                if crate::text::str_eq(loc.config.path.as_str(), uri) {
                    assert(exact_pick(ls, uri@, (i + 1) as nat) == Some(i as int));
                    proof {
                        lemma_exact_stays(ls, uri@, (i + 1) as nat, ls.len());
                    }
                    return Some(loc);
                }
            },
            LocationMatchType::PreferredPrefix => {
                if starts_with_chars(uri, loc.config.path.as_str()) {
                    let len = loc.config.path.unicode_len();
                    if pref.is_none() || len > pref_len {
                        pref = Some(i);
                        pref_len = len;
                    }
                }
            },
            LocationMatchType::Regex | LocationMatchType::RegexCaseInsensitive => {
                if pat.is_none() {
                    match &loc.regex {
                        Some(re) => {
                            if re.is_match(uri) {
                                pat = Some(i);
                            }
                        },
                        None => {},
                    }
                }
            },
            LocationMatchType::Prefix => {
                if starts_with_chars(uri, loc.config.path.as_str()) {
                    let len = loc.config.path.unicode_len();
                    if long.is_none() || len > long_len {
                        long = Some(i);
                        long_len = len;
                    }
                }
            },
        }
        i += 1;
    }
    proof {
        lemma_picks_in_range(ls, uri@, ls.len());
    }
    if locations.len() == 0 {
        return None;
    }
    if pref.is_some() && pref_len >= long_len {
        return Some(&locations[pref.unwrap()]);
    }
    if let Some(j) = pat {
        return Some(&locations[j]);
    }
    if let Some(j) = long {
        return Some(&locations[j]);
    }
    None
}

/// Once an exact block is found, later blocks do not change the pick.
proof fn lemma_exact_stays(ls: Seq<LocView>, uri: Seq<char>, n: nat, m: nat)
    requires
        n <= m,
        exact_pick(ls, uri, n) is Some,
    ensures
        exact_pick(ls, uri, m) == exact_pick(ls, uri, n),
    decreases m - n,
{
    if n < m {
        lemma_exact_stays(ls, uri, n, (m - 1) as nat);
    }
}


/// A prefix pick is a block of that kind whose path starts the URI, and no
/// block of that kind among the first `n` whose path starts the URI has a
/// longer path; there is no pick only when no such block exists.
proof fn lemma_prefix_pick_longest(ls: Seq<LocView>, uri: Seq<char>, kind: LocationMatchType, n: nat)
    requires
        n <= ls.len(),
    ensures
        prefix_pick(ls, uri, kind, n) matches Some(i) ==> 0 <= i < n && ls[i].kind == kind
            && is_prefix_of(ls[i].path, uri) && forall|j: int|
            0 <= j < n && ls[j].kind == kind && is_prefix_of(ls[j].path, uri) ==> ls[j].path.len()
                <= ls[i].path.len(),
        prefix_pick(ls, uri, kind, n) is None ==> forall|j: int|
            0 <= j < n ==> !(ls[j].kind == kind && is_prefix_of(ls[j].path, uri)),
    decreases n,
{
    if n > 0 {
        lemma_prefix_pick_longest(ls, uri, kind, (n - 1) as nat);
    }
}

/// Longest prefix wins: when the block for a URI is a plain prefix block,
/// its path starts the URI and no other plain prefix block whose path
/// starts the URI has a longer path. And when some plain prefix block
/// matches, the URI always gets a block.
pub proof fn law_longest_prefix_wins(ls: Seq<LocView>, uri: Seq<char>)
    ensures
        location_for(ls, uri) matches Some(i) ==> (ls[i].kind == LocationMatchType::Prefix ==> (
        is_prefix_of(ls[i].path, uri) && forall|j: int|
            #![trigger ls[j]]
            0 <= j < ls.len() && ls[j].kind == LocationMatchType::Prefix && is_prefix_of(ls[j].path, uri)
                ==> ls[j].path.len() <= ls[i].path.len())),
        (exists|j: int|
            #![trigger ls[j]]
            0 <= j < ls.len() && ls[j].kind == LocationMatchType::Prefix && is_prefix_of(ls[j].path, uri))
            ==> location_for(ls, uri) is Some,
{
    let n = ls.len();
    lemma_picks_in_range(ls, uri, n);
    lemma_prefix_pick_longest(ls, uri, LocationMatchType::Prefix, n);
    lemma_prefix_pick_longest(ls, uri, LocationMatchType::PreferredPrefix, n);
    lemma_exact_pick_kind(ls, uri, n);
    lemma_pattern_pick_kind(ls, uri, n);
}

/// A preferred prefix (`^~`) wins over every plain prefix block no longer
/// than it, and among preferred prefix blocks the longest matching one is
/// chosen.
pub proof fn law_preferred_prefix_is_longest(ls: Seq<LocView>, uri: Seq<char>)
    ensures
        location_for(ls, uri) matches Some(i) ==> (ls[i].kind == LocationMatchType::PreferredPrefix ==> (
        is_prefix_of(ls[i].path, uri) && forall|j: int|
            #![trigger ls[j]]
            0 <= j < ls.len() && (ls[j].kind == LocationMatchType::PreferredPrefix || ls[j].kind
                == LocationMatchType::Prefix) && is_prefix_of(ls[j].path, uri) ==> ls[j].path.len()
                <= ls[i].path.len())),
{
    let n = ls.len();
    lemma_picks_in_range(ls, uri, n);
    lemma_prefix_pick_longest(ls, uri, LocationMatchType::Prefix, n);
    lemma_prefix_pick_longest(ls, uri, LocationMatchType::PreferredPrefix, n);
    lemma_exact_pick_kind(ls, uri, n);
    lemma_pattern_pick_kind(ls, uri, n);
}

proof fn lemma_exact_pick_kind(ls: Seq<LocView>, uri: Seq<char>, n: nat)
    ensures
        exact_pick(ls, uri, n) matches Some(i) ==> ls[i].kind == LocationMatchType::Exact,
    decreases n,
{
    if n > 0 {
        lemma_exact_pick_kind(ls, uri, (n - 1) as nat);
    }
}

proof fn lemma_pattern_pick_kind(ls: Seq<LocView>, uri: Seq<char>, n: nat)
    ensures
        pattern_pick(ls, uri, n) matches Some(i) ==> is_pattern_kind(ls[i].kind),
    decreases n,
{
    if n > 0 {
        lemma_pattern_pick_kind(ls, uri, (n - 1) as nat);
    }
}

/// The exact pick is the first block of kind `Exact` whose path is the URI.
proof fn lemma_exact_pick_first(ls: Seq<LocView>, uri: Seq<char>, n: nat)
    requires
        n <= ls.len(),
    ensures
        exact_pick(ls, uri, n) matches Some(i) ==> 0 <= i < n && ls[i].kind == LocationMatchType::Exact
            && ls[i].path == uri && forall|j: int|
            0 <= j < i ==> !(ls[j].kind == LocationMatchType::Exact && ls[j].path == uri),
        exact_pick(ls, uri, n) is None ==> forall|j: int|
            0 <= j < n ==> !(ls[j].kind == LocationMatchType::Exact && ls[j].path == uri),
    decreases n,
{
    if n > 0 {
        lemma_exact_pick_first(ls, uri, (n - 1) as nat);
    }
}

/// The pattern pick is the first pattern block whose pattern matches.
proof fn lemma_pattern_pick_first(ls: Seq<LocView>, uri: Seq<char>, n: nat)
    requires
        n <= ls.len(),
    ensures
        pattern_pick(ls, uri, n) matches Some(i) ==> 0 <= i < n && is_pattern_kind(ls[i].kind)
            && (ls[i].pattern matches Some(p) && regex_is_match(p, uri)) && forall|j: int|
            0 <= j < i ==> !(is_pattern_kind(ls[j].kind) && (ls[j].pattern matches Some(p)
                && regex_is_match(p, uri))),
        pattern_pick(ls, uri, n) is None ==> forall|j: int|
            0 <= j < n ==> !(is_pattern_kind(ls[j].kind) && (ls[j].pattern matches Some(p)
                && regex_is_match(p, uri))),
    decreases n,
{
    if n > 0 {
        lemma_pattern_pick_first(ls, uri, (n - 1) as nat);
    }
}

/// Whether block `j` applies to the URI by its own kind: an exact block
/// whose path is the URI, a prefix block (either kind) whose path starts
/// it, or a pattern block whose pattern matches it.
pub open spec fn block_applies(l: LocView, uri: Seq<char>) -> bool {
    match l.kind {
        LocationMatchType::Exact => l.path == uri,
        LocationMatchType::PreferredPrefix => is_prefix_of(l.path, uri),
        LocationMatchType::Prefix => is_prefix_of(l.path, uri),
        _ => l.pattern matches Some(p) && regex_is_match(p, uri),
    }
}

/// Nginx priority between kinds: the chosen block applies to the URI; an
/// exact block wins outright (the first one); a preferred prefix wins over
/// patterns unless a plain prefix is strictly longer; a pattern (the first
/// matching, in order) wins over plain prefixes; a plain prefix is chosen
/// only when no exact block or pattern applies; and a URI gets no block
/// only when none applies.
pub proof fn law_location_priority(ls: Seq<LocView>, uri: Seq<char>)
    ensures
        location_for(ls, uri) matches Some(i) ==> 0 <= i < ls.len() && block_applies(ls[i], uri),
        location_for(ls, uri) is None ==> forall|j: int|
            #![trigger ls[j]]
            0 <= j < ls.len() ==> !block_applies(ls[j], uri),
        (exists|j: int|
            #![trigger ls[j]]
            0 <= j < ls.len() && ls[j].kind == LocationMatchType::Exact && ls[j].path == uri)
            ==> (location_for(ls, uri) matches Some(i) && ls[i].kind == LocationMatchType::Exact && forall|
            j: int|
            #![trigger ls[j]]
            0 <= j < i ==> !(ls[j].kind == LocationMatchType::Exact && ls[j].path == uri)),
        location_for(ls, uri) matches Some(i) ==> (is_pattern_kind(ls[i].kind) ==> (forall|j: int|
            #![trigger ls[j]]
            0 <= j < ls.len() ==> !(ls[j].kind == LocationMatchType::Exact && ls[j].path == uri)) && (
        forall|j: int|
            #![trigger ls[j]]
            0 <= j < i ==> !(is_pattern_kind(ls[j].kind) && block_applies(ls[j], uri))) && (forall|
            j: int|
            #![trigger ls[j]]
            0 <= j < ls.len() && ls[j].kind == LocationMatchType::PreferredPrefix && is_prefix_of(
                ls[j].path,
                uri,
            ) ==> exists|k: int|
                #![trigger ls[k]]
                0 <= k < ls.len() && ls[k].kind == LocationMatchType::Prefix && is_prefix_of(
                    ls[k].path,
                    uri,
                ) && ls[k].path.len() > ls[j].path.len())),
        location_for(ls, uri) matches Some(i) ==> (ls[i].kind == LocationMatchType::Prefix ==> forall|
            j: int|
            #![trigger ls[j]]
            0 <= j < ls.len() && ls[j].kind != LocationMatchType::Prefix && ls[j].kind
                != LocationMatchType::PreferredPrefix ==> !block_applies(ls[j], uri)),
{
    let n = ls.len();
    lemma_picks_in_range(ls, uri, n);
    lemma_exact_pick_first(ls, uri, n);
    lemma_pattern_pick_first(ls, uri, n);
    lemma_prefix_pick_longest(ls, uri, LocationMatchType::Prefix, n);
    lemma_prefix_pick_longest(ls, uri, LocationMatchType::PreferredPrefix, n);
    lemma_exact_pick_kind(ls, uri, n);
    lemma_pattern_pick_kind(ls, uri, n);
    let long = prefix_pick(ls, uri, LocationMatchType::Prefix, n);
    match location_for(ls, uri) {
        Some(i) => {
            if is_pattern_kind(ls[i].kind) {
                assert forall|j: int|
                    #![trigger ls[j]]
                    0 <= j < ls.len() && ls[j].kind == LocationMatchType::PreferredPrefix && is_prefix_of(
                        ls[j].path,
                        uri,
                    ) implies exists|k: int|
                    #![trigger ls[k]]
                    0 <= k < ls.len() && ls[k].kind == LocationMatchType::Prefix && is_prefix_of(
                        ls[k].path,
                        uri,
                    ) && ls[k].path.len() > ls[j].path.len() by {
                    let pj = prefix_pick(ls, uri, LocationMatchType::PreferredPrefix, n)->0;
                    let k = long->0;
                    assert(ls[k].path.len() > ls[pj].path.len());
                }
            }
        },
        None => {
            assert forall|j: int| #![trigger ls[j]] 0 <= j < ls.len() implies !block_applies(ls[j], uri) by {
                if block_applies(ls[j], uri) {
                    match ls[j].kind {
                        LocationMatchType::Exact => {},
                        LocationMatchType::PreferredPrefix => {},
                        LocationMatchType::Prefix => {},
                        _ => {},
                    }
                }
            }
        },
    }
}

} // verus!
