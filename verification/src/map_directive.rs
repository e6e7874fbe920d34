//! The `map` directive: a variable's value looked up by exact keys, then by
//! patterns, then a default.

use vstd::prelude::*;
use crate::pattern::{regex_is_match, regex_valid, Pattern};
use crate::proxy_cache::{fnv1a, md5_simple};
use crate::text::str_eq;

verus! {

#[derive(Debug, Clone)]
pub struct MapConfig {
    pub source_var: String,
    pub target_var: String,
    pub default_value: Option<String>,
    pub mapping: Vec<(String, String)>,
}

pub enum MapValue {
    String(String),
    /// A pattern and the value it gives.
    Regex(Pattern, String),
}

pub struct MapBlock {
    pub source_var: String,
    pub target_var: String,
    pub default: Option<String>,
    /// Exact keys, in order.
    pub entries: Vec<(String, String)>,
    /// Patterns, in order.
    pub regex_entries: Vec<(Pattern, String)>,
}

/// The value of the first exact entry for `input`.
pub open spec fn first_exact(entries: Seq<(Seq<char>, Seq<char>)>, input: Seq<char>) -> Option<Seq<char>>
    decreases entries.len(),
{
    if entries.len() == 0 {
        None
    } else if entries[0].0 == input {
        Some(entries[0].1)
    } else {
        first_exact(entries.drop_first(), input)
    }
}

/// The value of the first pattern entry that matches `input`.
pub open spec fn first_pattern(entries: Seq<(Seq<char>, Seq<char>)>, input: Seq<char>) -> Option<Seq<char>>
    decreases entries.len(),
{
    if entries.len() == 0 {
        None
    } else if regex_is_match(entries[0].0, input) {
        Some(entries[0].1)
    } else {
        first_pattern(entries.drop_first(), input)
    }
}

impl MapBlock {
    pub open spec fn spec_entries(&self) -> Seq<(Seq<char>, Seq<char>)> {
        self.entries@.map_values(|e: (String, String)| (e.0@, e.1@))
    }

    pub open spec fn spec_patterns(&self) -> Seq<(Seq<char>, Seq<char>)> {
        self.regex_entries@.map_values(|e: (Pattern, String)| (e.0.spec_source(), e.1@))
    }

    /// What `resolve` answers: exact entries first, then patterns, then the
    /// default.
    pub open spec fn spec_resolve(&self, input: Seq<char>) -> Option<Seq<char>> {
        match first_exact(self.spec_entries(), input) {
            Some(v) => Some(v),
            None => match first_pattern(self.spec_patterns(), input) {
                Some(v) => Some(v),
                None => match self.default {
                    Some(d) => Some(d@),
                    None => None,
                },
            },
        }
    }

    pub fn new(source_var: &str, target_var: &str) -> (r: Self)
        ensures
            r.source_var@ == source_var@,
            r.target_var@ == target_var@,
            r.default is None,
            r.entries@.len() == 0,
            r.regex_entries@.len() == 0,
    {
        MapBlock {
            source_var: crate::text::to_owned(source_var),
            target_var: crate::text::to_owned(target_var),
            default: None,
            entries: Vec::new(),
            regex_entries: Vec::new(),
        }
    }

    pub fn with_default(self, default: &str) -> (r: Self)
        ensures
            r.source_var == self.source_var,
            r.target_var == self.target_var,
            r.entries == self.entries,
            r.regex_entries == self.regex_entries,
            (r.default matches Some(d) && d@ == default@),
    {
        MapBlock { default: Some(crate::text::to_owned(default)), ..self }
    }

    pub fn add_exact(&mut self, key: &str, value: &str)
        ensures
            final(self).spec_entries() == old(self).spec_entries().push((key@, value@)),
            final(self).regex_entries == old(self).regex_entries,
            final(self).default == old(self).default,
    {
        self.entries.push((crate::text::to_owned(key), crate::text::to_owned(value)));
        assert(self.spec_entries() =~= old(self).spec_entries().push((key@, value@)));
    }

    /// Adds a pattern entry; a pattern that the `regex` crate refuses is
    /// ignored.
    pub fn add_regex(&mut self, pattern: &str, value: &str)
        ensures
            regex_valid(pattern@) ==> final(self).spec_patterns() == old(self).spec_patterns().push(
                (pattern@, value@),
            ),
            !regex_valid(pattern@) ==> final(self).spec_patterns() == old(self).spec_patterns(),
            final(self).entries == old(self).entries,
            final(self).default == old(self).default,
    {
        if let Ok(re) = Pattern::new(pattern) {
            self.regex_entries.push((re, crate::text::to_owned(value)));
            assert(self.spec_patterns() =~= old(self).spec_patterns().push((pattern@, value@)));
        }
    }

    pub fn resolve(&self, input: &str) -> (r: Option<String>)
        ensures
            match r {
                Some(v) => self.spec_resolve(input@) == Some(v@),
                None => self.spec_resolve(input@) is None,
            },
    {
        let ghost es = self.spec_entries();
        let mut i: usize = 0;
        assert(es.skip(0) =~= es);
        while i < self.entries.len()
            invariant
                i <= self.entries@.len(),
                es == self.spec_entries(),
                first_exact(es, input@) == first_exact(es.skip(i as int), input@),
            decreases self.entries@.len() - i,
        {
            assert(es.skip(i as int)[0] == (self.entries@[i as int].0@, self.entries@[i as int].1@));
            assert(es.skip(i as int).drop_first() =~= es.skip(i + 1));
            if str_eq(self.entries[i].0.as_str(), input) {
                return Some(crate::text::to_owned(self.entries[i].1.as_str()));
            }
            i += 1;
        }
        assert(es.skip(self.entries@.len() as int) =~= Seq::<(Seq<char>, Seq<char>)>::empty());
        let ghost ps = self.spec_patterns();
        let mut j: usize = 0;
        assert(ps.skip(0) =~= ps);
        while j < self.regex_entries.len()
            invariant
                j <= self.regex_entries@.len(),
                ps == self.spec_patterns(),
                first_exact(self.spec_entries(), input@) is None,
                first_pattern(ps, input@) == first_pattern(ps.skip(j as int), input@),
            decreases self.regex_entries@.len() - j,
        {
            assert(ps.skip(j as int)[0] == (
                self.regex_entries@[j as int].0.spec_source(),
                self.regex_entries@[j as int].1@,
            ));
            assert(ps.skip(j as int).drop_first() =~= ps.skip(j + 1));
            if self.regex_entries[j].0.is_match(input) {
                return Some(crate::text::to_owned(self.regex_entries[j].1.as_str()));
            }
            j += 1;
        }
        assert(ps.skip(self.regex_entries@.len() as int) =~= Seq::<(Seq<char>, Seq<char>)>::empty());
        match &self.default {
            Some(d) => Some(crate::text::to_owned(d.as_str())),
            None => None,
        }
    }
}

/// The bucket hash of split clients: FNV-1a over the key's UTF-8 bytes.
pub fn simple_hash(s: &str) -> (r: u64)
    ensures
        r == fnv1a(vstd::utf8::encode_utf8(s@)),
{
    md5_simple(s)
}

} // verus!
