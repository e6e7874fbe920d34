//! Address-based access control: an ordered list of allow/deny rules over
//! networks, where the first rule that covers an address decides.

use vstd::prelude::*;
use crate::net::{network_of_text, InvalidNetwork, IpAddress, IpNetwork};
use crate::text::str_eq;

verus! {

#[derive(Debug, Clone, Copy, PartialEq, Eq, Structural)]
pub enum AclAction {
    Allow,
    Deny,
}

#[derive(Debug, Clone, Copy, PartialEq, Eq, Structural)]
pub struct AclRule {
    /// `None` stands for "all".
    pub network: Option<IpNetwork>,
    pub action: AclAction,
}

impl AclRule {
    pub open spec fn wf(self) -> bool {
        self.network matches Some(n) ==> n.wf()
    }

    /// Whether the rule covers the address.
    pub open spec fn covers(self, ip: IpAddress) -> bool {
        match self.network {
            Some(n) => n.spec_contains(ip),
            None => true,
        }
    }
}

/// The action of the first rule that covers `ip`; `Deny` when none does.
pub open spec fn acl_decision(rules: Seq<AclRule>, ip: IpAddress) -> AclAction
    decreases rules.len(),
{
    if rules.len() == 0 {
        AclAction::Deny
    } else if rules[0].covers(ip) {
        rules[0].action
    } else {
        acl_decision(rules.drop_first(), ip)
    }
}

/// The rule that `add_rule` makes of a text, or `None` where the text is
/// neither `all` nor a network.
pub open spec fn rule_of_text(cidr: Seq<char>, action: AclAction) -> Option<AclRule> {
    if cidr == "all"@ {
        Some(AclRule { network: None, action })
    } else {
        match network_of_text(cidr) {
            Some(n) => Some(AclRule { network: Some(n), action }),
            None => None,
        }
    }
}

pub struct AclEngine {
    rules: Vec<AclRule>,
}

impl View for AclEngine {
    type V = Seq<AclRule>;

    closed spec fn view(&self) -> Seq<AclRule> {
        self.rules@
    }
}

impl AclEngine {
    pub open spec fn wf(&self) -> bool {
        forall|i: int| 0 <= i < self@.len() ==> (#[trigger] self@[i]).wf()
    }

    pub fn new() -> (r: Self)
        ensures
            r@ == Seq::<AclRule>::empty(),
            r.wf(),
    {
        AclEngine { rules: Vec::new() }
    }

    /// Appends a rule for `cidr` (`all`, a network, or a single address);
    /// a text that is none of these is refused and nothing changes.
    pub fn add_rule(&mut self, cidr: &str, action: AclAction) -> (r: Result<(), InvalidNetwork>)
        requires
            old(self).wf(),
        ensures
            final(self).wf(),
            match rule_of_text(cidr@, action) {
                Some(rule) => r is Ok && final(self)@ == old(self)@.push(rule),
                None => r is Err && final(self)@ == old(self)@,
            },
    {
        proof {
            reveal_strlit("all");
        }
        if str_eq(cidr, "all") {
            self.rules.push(AclRule { network: None, action });
            proof {
                assert forall|i: int| 0 <= i < self@.len() implies (#[trigger] self@[i]).wf() by {
                    if i < old(self)@.len() {
                        assert(self@[i] == old(self)@[i]);
                    }
                }
            }
            return Ok(());
        }
        match IpNetwork::parse(cidr) {
            Ok(network) => {
                self.rules.push(AclRule { network: Some(network), action });
                proof {
                    assert forall|i: int| 0 <= i < self@.len() implies (#[trigger] self@[i]).wf() by {
                        if i < old(self)@.len() {
                            assert(self@[i] == old(self)@[i]);
                        }
                    }
                }
                Ok(())
            },
            Err(e) => Err(e),
        }
    }

    /// The action of the first rule that covers `ip`, or `Deny`.
    pub fn check_ip(&self, ip: IpAddress) -> (r: AclAction)
        requires
            self.wf(),
        ensures
            r == acl_decision(self@, ip),
    {
        let mut i: usize = 0;
        assert(self@.skip(0) =~= self@);
        while i < self.rules.len()
            invariant
                self.wf(),
                i <= self@.len(),
                acl_decision(self@, ip) == acl_decision(self@.skip(i as int), ip),
            decreases self@.len() - i,
        {
            let rule = self.rules[i];
            proof {
                assert(self@.skip(i as int)[0] == rule);
                assert(self@.skip(i as int).drop_first() =~= self@.skip(i + 1));
                assert(rule.wf());
            }
            let hit = match rule.network {
                Some(net) => net.contains(ip),
                None => true,
            };
            if hit {
                return rule.action;
            }
            i += 1;
        }
        AclAction::Deny
    }
}

/// Whether `ip` may pass: always without an engine, else when the engine
/// allows it.
pub fn check_access(acl: Option<&AclEngine>, ip: IpAddress) -> (r: bool)
    requires
        acl matches Some(e) ==> e.wf(),
    ensures
        r == match acl {
            Some(e) => acl_decision(e@, ip) == AclAction::Allow,
            None => true,
        },
{
    match acl {
        Some(engine) => match engine.check_ip(ip) {
            AclAction::Allow => true,
            AclAction::Deny => false,
        },
        None => true,
    }
}

/// An address that no rule covers is denied.
pub proof fn law_uncovered_is_denied(rules: Seq<AclRule>, ip: IpAddress)
    requires
        forall|i: int| 0 <= i < rules.len() ==> !(#[trigger] rules[i]).covers(ip),
    ensures
        acl_decision(rules, ip) == AclAction::Deny,
    decreases rules.len(),
{
    if rules.len() > 0 {
        assert(!rules[0].covers(ip));
        let rest = rules.drop_first();
        assert forall|i: int| 0 <= i < rest.len() implies !(#[trigger] rest[i]).covers(ip) by {
            assert(rest[i] == rules[i + 1]);
        }
        law_uncovered_is_denied(rest, ip);
    }
}

/// Rules after the first one that covers an address never change its
/// decision: appending rules keeps every decision already made.
pub proof fn law_first_match_wins(rules: Seq<AclRule>, more: Seq<AclRule>, ip: IpAddress)
    requires
        exists|i: int| 0 <= i < rules.len() && (#[trigger] rules[i]).covers(ip),
    ensures
        acl_decision(rules + more, ip) == acl_decision(rules, ip),
    decreases rules.len(),
{
    if rules[0].covers(ip) {
        assert((rules + more)[0] == rules[0]);
    } else {
        let i = choose|i: int| 0 <= i < rules.len() && (#[trigger] rules[i]).covers(ip);
        let rest = rules.drop_first();
        assert(rest[i - 1] == rules[i]);
        assert((rules + more).drop_first() =~= rest + more);
        law_first_match_wins(rest, more, ip);
    }
}

} // verus!
