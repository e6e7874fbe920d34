//! Per-key connection limits (nginx `limit_conn`).

use vstd::prelude::*;

verus! {

/// A named connection-limit zone.
pub struct ConnLimitZone {
    pub name: String,
    /// e.g., "$remote_addr"
    pub key_type: String,
    pub max_connections: u64,
}

/// The number of open connections of one key.
pub struct ActiveConnections {
    count: u64,
}

impl ActiveConnections {
    pub closed spec fn value(&self) -> u64 {
        self.count
    }

    pub fn new() -> (r: Self)
        ensures
            r.value() == 0,
    {
        Self { count: 0 }
    }

    pub fn current(&self) -> (r: u64)
        ensures
            r == self.value(),
    {
        self.count
    }

    /// Counts one more connection and returns the new count (wrapping, as
    /// the atomic counter did).
    pub fn increment(&mut self) -> (r: u64)
        ensures
            r == vstd::wrapping::u64_specs::wrapping_add(old(self).value(), 1),
            final(self).value() == r,
    {
        self.count = self.count.wrapping_add(1);
        self.count
    }

    /// Counts one connection less (wrapping, as the atomic counter did).
    pub fn decrement(&mut self)
        ensures
            final(self).value() == vstd::wrapping::u64_specs::wrapping_sub(old(self).value(), 1),
    {
        self.count = self.count.wrapping_sub(1);
    }

    /// Admits one more connection when the count stays within `max`; the
    /// count is unchanged on refusal.
    pub fn try_admit(&mut self, max: u64) -> (r: bool)
        ensures
            r == (vstd::wrapping::u64_specs::wrapping_add(old(self).value(), 1) <= max),
            final(self).value() == (if r {
                vstd::wrapping::u64_specs::wrapping_add(old(self).value(), 1)
            } else {
                old(self).value()
            }),
    {
        let current = self.increment();
        if current > max {
            self.decrement();
            false
        } else {
            true
        }
    }
}

/// An increment followed by a decrement restores the count.
pub proof fn law_increment_decrement_restores(v: u64)
    ensures
        vstd::wrapping::u64_specs::wrapping_sub(vstd::wrapping::u64_specs::wrapping_add(v, 1), 1)
            == v,
{
}

} // verus!
