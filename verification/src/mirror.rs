//! Method allow lists (`limit_except`) and the stub status page.

use vstd::prelude::*;
use crate::geoip::views_of;
use crate::text::{dec_str, push_dec, push_str, str_eq, to_uppercase, unicode_upper};

verus! {

/// Method-based access control (nginx `limit_except`): methods are kept
/// upper-cased.
#[derive(Debug, Clone)]
pub struct LimitExcept {
    pub allowed_methods: Vec<String>,
    pub deny_status: u16,
}

impl LimitExcept {
    pub fn new(allowed_methods: Vec<&str>, deny_status: u16) -> (r: Self)
        ensures
            views_of(r.allowed_methods@) == allowed_methods@.map_values(|m: &str| unicode_upper(m@)),
            r.deny_status == deny_status,
    {
        let mut methods: Vec<String> = Vec::new();
        let mut i: usize = 0;
        while i < allowed_methods.len()
            invariant
                i <= allowed_methods@.len(),
                views_of(methods@) == allowed_methods@.take(i as int).map_values(
                    |m: &str| unicode_upper(m@),
                ),
            decreases allowed_methods@.len() - i,
        {
            let u = to_uppercase(allowed_methods[i]);
            let ghost before = methods@;
            methods.push(u);
            proof {
                assert(views_of(methods@) =~= views_of(before).push(u@));
                assert(allowed_methods@.take(i + 1).drop_last() =~= allowed_methods@.take(i as int));
                assert(views_of(methods@) =~= allowed_methods@.take(i + 1).map_values(
                    |m: &str| unicode_upper(m@),
                ));
            }
            i += 1;
        }
        assert(allowed_methods@.take(allowed_methods@.len() as int) =~= allowed_methods@);
        LimitExcept { allowed_methods: methods, deny_status }
    }

    /// Whether the method, upper-cased, is in the list.
    pub fn is_allowed(&self, method: &str) -> (r: bool)
        ensures
            r == views_of(self.allowed_methods@).contains(unicode_upper(method@)),
    {
        let m = to_uppercase(method);
        let mut i: usize = 0;
        while i < self.allowed_methods.len()
            invariant
                i <= self.allowed_methods@.len(),
                m@ == unicode_upper(method@),
                forall|j: int| 0 <= j < i ==> self.allowed_methods@[j]@ != m@,
            decreases self.allowed_methods@.len() - i,
        {
            if str_eq(self.allowed_methods[i].as_str(), m.as_str()) {
                assert(views_of(self.allowed_methods@)[i as int] == m@);
                return true;
            }
            i += 1;
        }
        proof {
            if views_of(self.allowed_methods@).contains(m@) {
                let k = choose|k: int|
                    0 <= k < views_of(self.allowed_methods@).len() && views_of(
                        self.allowed_methods@,
                    )[k] == m@;
                assert(self.allowed_methods@[k]@ == m@);
            }
        }
        false
    }
}

/// Stub status counters.
#[derive(Debug, Clone, Copy)]
pub struct StubStatus {
    pub active_connections: u64,
    pub total_accepts: u64,
    pub total_requests: u64,
    pub reading: u64,
    pub writing: u64,
    pub waiting: u64,
}

impl Default for StubStatus {
    fn default() -> (r: Self)
        ensures
            r.active_connections == 0 && r.total_accepts == 0 && r.total_requests == 0
                && r.reading == 0 && r.writing == 0 && r.waiting == 0,
    {
        StubStatus {
            active_connections: 0,
            total_accepts: 0,
            total_requests: 0,
            reading: 0,
            writing: 0,
            waiting: 0,
        }
    }
}

impl StubStatus {
    pub open spec fn html_text(&self) -> Seq<char> {
        "<html><body><pre>Active connections: "@ + dec_str(self.active_connections as nat)
            + "\nserver accepts handled requests\n "@ + dec_str(self.total_accepts as nat) + " "@
            + dec_str(self.total_accepts as nat) + " "@ + dec_str(self.total_requests as nat)
            + "\nReading: "@ + dec_str(self.reading as nat) + " Writing: "@ + dec_str(
            self.writing as nat,
        ) + " Waiting: "@ + dec_str(self.waiting as nat) + "\n</pre></body></html>"@
    }

    /// The status page (accepted connections are reported as handled too).
    pub fn to_html(&self) -> (r: String)
        ensures
            r@ == self.html_text(),
    {
        let mut s = String::new();
        push_str(&mut s, "<html><body><pre>Active connections: ");
        push_dec(&mut s, self.active_connections);
        push_str(&mut s, "\nserver accepts handled requests\n ");
        push_dec(&mut s, self.total_accepts);
        push_str(&mut s, " ");
        push_dec(&mut s, self.total_accepts);
        push_str(&mut s, " ");
        push_dec(&mut s, self.total_requests);
        push_str(&mut s, "\nReading: ");
        push_dec(&mut s, self.reading);
        push_str(&mut s, " Writing: ");
        push_dec(&mut s, self.writing);
        push_str(&mut s, " Waiting: ");
        push_dec(&mut s, self.waiting);
        push_str(&mut s, "\n</pre></body></html>");
        assert(s@ =~= self.html_text());
        s
    }
}

} // verus!
