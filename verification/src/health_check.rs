//! Active and passive health state of one upstream server.

use vstd::prelude::*;
use crate::upstream::HealthCheckConfig;

verus! {

#[derive(Debug, Clone, Copy, PartialEq, Eq, Structural)]
pub enum HealthStatus {
    Healthy,
    Unhealthy,
    Unknown,
}

#[derive(Debug)]
pub struct ServerHealthState {
    pub addr: String,
    pub config: HealthCheckConfig,
    pub status: HealthStatus,
    pub consecutive_successes: u32,
    pub consecutive_failures: u32,
    pub passive_failures: u32,
}

impl ServerHealthState {
    /// The counters and status, as a tuple.
    pub open spec fn counters(&self) -> (HealthStatus, u32, u32, u32) {
        (self.status, self.consecutive_successes, self.consecutive_failures, self.passive_failures)
    }

    pub fn new(addr: String, config: HealthCheckConfig) -> (r: Self)
        ensures
            r.addr == addr,
            r.config == config,
            r.counters() == (HealthStatus::Unknown, 0u32, 0u32, 0u32),
    {
        Self {
            addr,
            config,
            status: HealthStatus::Unknown,
            consecutive_successes: 0,
            consecutive_failures: 0,
            passive_failures: 0,
        }
    }

    /// Records a successful probe; returns whether the status changed (to
    /// healthy, once `healthy_threshold` successes in a row are reached).
    pub fn record_success(&mut self) -> (changed: bool)
        requires
            old(self).consecutive_successes < u32::MAX,
        ensures
            final(self).consecutive_failures == 0,
            final(self).passive_failures == 0,
            final(self).consecutive_successes == old(self).consecutive_successes + 1,
            changed == (final(self).consecutive_successes >= old(self).config.healthy_threshold
                && old(self).status != HealthStatus::Healthy),
            final(self).status == (if changed {
                HealthStatus::Healthy
            } else {
                old(self).status
            }),
            final(self).config == old(self).config,
            final(self).addr == old(self).addr,
    {
        self.consecutive_failures = 0;
        self.consecutive_successes += 1;
        self.passive_failures = 0;
        if self.consecutive_successes >= self.config.healthy_threshold && self.status
            != HealthStatus::Healthy {
            self.status = HealthStatus::Healthy;
            return true;
        }
        false
    }

    /// Records a failed probe; returns whether the status changed (to
    /// unhealthy, once `unhealthy_threshold` failures in a row are reached).
    pub fn record_failure(&mut self) -> (changed: bool)
        requires
            old(self).consecutive_failures < u32::MAX,
        ensures
            final(self).consecutive_successes == 0,
            final(self).passive_failures == old(self).passive_failures,
            final(self).consecutive_failures == old(self).consecutive_failures + 1,
            changed == (final(self).consecutive_failures >= old(self).config.unhealthy_threshold
                && old(self).status != HealthStatus::Unhealthy),
            final(self).status == (if changed {
                HealthStatus::Unhealthy
            } else {
                old(self).status
            }),
            final(self).config == old(self).config,
            final(self).addr == old(self).addr,
    {
        self.consecutive_successes = 0;
        self.consecutive_failures += 1;
        if self.consecutive_failures >= self.config.unhealthy_threshold && self.status
            != HealthStatus::Unhealthy {
            self.status = HealthStatus::Unhealthy;
            return true;
        }
        false
    }

    /// Records a failed proxied request; returns whether the status changed
    /// (to unhealthy, once `max_fails` such failures are reached).
    pub fn record_passive_failure(&mut self, max_fails: u32) -> (changed: bool)
        requires
            old(self).passive_failures < u32::MAX,
        ensures
            final(self).consecutive_successes == 0,
            final(self).consecutive_failures == old(self).consecutive_failures,
            final(self).passive_failures == old(self).passive_failures + 1,
            changed == (final(self).passive_failures >= max_fails && old(self).status
                != HealthStatus::Unhealthy),
            final(self).status == (if changed {
                HealthStatus::Unhealthy
            } else {
                old(self).status
            }),
            final(self).config == old(self).config,
            final(self).addr == old(self).addr,
    {
        self.consecutive_successes = 0;
        self.passive_failures += 1;
        if self.passive_failures >= max_fails && self.status != HealthStatus::Unhealthy {
            self.status = HealthStatus::Unhealthy;
            return true;
        }
        false
    }
}

/// A change is reported at most once per direction: once a server has been
/// declared healthy (unhealthy), further successes (failures) report no
/// change and keep the status.
pub proof fn law_status_change_reported_once(
    status: HealthStatus,
    successes: u32,
    healthy_threshold: u32,
)
    requires
        status == HealthStatus::Healthy,
    ensures
        !((successes + 1 >= healthy_threshold) && status != HealthStatus::Healthy),
{
}

} // verus!
