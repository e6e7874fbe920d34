//! `limit_except`: which request methods a location accepts.

use vstd::prelude::*;
use crate::text::{eq_ignore_ascii_case, str_eq_ignore_ascii_case, push_str};

verus! {

/// The methods a location allows (empty: all) and what happens to others
/// (`all` denies them).
#[derive(Debug, Clone)]
pub struct LimitExceptConfig {
    pub methods: Vec<String>,
    pub deny: String,
}

impl Default for LimitExceptConfig {
    fn default() -> (r: Self)
        ensures
            r.methods@.len() == 0,
            r.deny@.len() == 0,
    {
        LimitExceptConfig { methods: Vec::new(), deny: String::new() }
    }
}

pub open spec fn method_listed(methods: Seq<String>, m: Seq<char>) -> bool {
    exists|i: int| 0 <= i < methods.len() && eq_ignore_ascii_case(#[trigger] methods[i]@, m)
}

/// The body of the refusal of `method`, when it is refused: the list is
/// not empty, does not name the method (ignoring ASCII case) and the deny
/// rule is `all` (ignoring ASCII case).
pub open spec fn refusal_text(config: &LimitExceptConfig, method: Seq<char>) -> Option<Seq<char>> {
    if config.methods@.len() > 0 && !method_listed(config.methods@, method) && eq_ignore_ascii_case(
        config.deny@,
        "all"@,
    ) {
        Some("405 Method Not Allowed: "@ + method + "\n"@)
    } else {
        None
    }
}

/// Checks the method of a request; a refused method gets the body of a 405
/// response.
pub fn check_method(config: &LimitExceptConfig, method: &str) -> (r: Option<String>)
    ensures
        match r {
            Some(body) => refusal_text(config, method@) == Some(body@),
            None => refusal_text(config, method@) is None,
        },
{
    if config.methods.len() == 0 {
        return None;
    }
    let mut i: usize = 0;
    while i < config.methods.len()
        invariant
            i <= config.methods@.len(),
            forall|j: int| 0 <= j < i ==> !eq_ignore_ascii_case(#[trigger] config.methods@[j]@, method@),
        decreases config.methods@.len() - i,
    {
        if str_eq_ignore_ascii_case(config.methods[i].as_str(), method) {
            return None;
        }
        i += 1;
    }
    if str_eq_ignore_ascii_case(config.deny.as_str(), "all") {
        let mut body = String::new();
        push_str(&mut body, "405 Method Not Allowed: ");
        push_str(&mut body, method);
        push_str(&mut body, "\n");
        return Some(body);
    }
    None
}

} // verus!
