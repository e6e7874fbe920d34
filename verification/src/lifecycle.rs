//! Health status of the service, the response of its health endpoints, and
//! the lifecycle manager: status, live connections, and graceful shutdown.

use vstd::prelude::*;
use std::time::{Duration, Instant};
use crate::clock::{duration_as_secs, duration_since, instant_now};
use crate::text::to_owned;

verus! {

/// Health status for the service
#[derive(Debug, Clone, Copy, PartialEq, Eq, Structural)]
pub enum HealthStatus {
    /// Service is healthy and ready
    Healthy,
    /// Service is starting up
    Starting,
    /// Service is shutting down (draining connections)
    Draining,
    /// Service is unhealthy
    Unhealthy,
}

/// The lower-case name of a status, as the health endpoints print it.
pub open spec fn status_name(s: HealthStatus) -> Seq<char> {
    match s {
        HealthStatus::Healthy => seq!['h', 'e', 'a', 'l', 't', 'h', 'y'],
        HealthStatus::Starting => seq!['s', 't', 'a', 'r', 't', 'i', 'n', 'g'],
        HealthStatus::Draining => seq!['d', 'r', 'a', 'i', 'n', 'i', 'n', 'g'],
        HealthStatus::Unhealthy => seq!['u', 'n', 'h', 'e', 'a', 'l', 't', 'h', 'y'],
    }
}

impl HealthStatus {
    /// Convert to HTTP status code: 200 when healthy, 503 otherwise.
    pub fn to_status_code(self) -> (r: u16)
        ensures
            r == (if self == HealthStatus::Healthy {
                200u16
            } else {
                503u16
            }),
    {
        match self {
            Self::Healthy => 200,
            Self::Starting => 503,
            Self::Draining => 503,
            Self::Unhealthy => 503,
        }
    }

    /// Check if status indicates readiness
    pub fn is_ready(self) -> (r: bool)
        ensures
            r == (self == HealthStatus::Healthy),
    {
        matches!(self, Self::Healthy)
    }

    /// Check if status indicates liveness
    pub fn is_alive(self) -> (r: bool)
        ensures
            r == (self != HealthStatus::Unhealthy),
    {
        !matches!(self, Self::Unhealthy)
    }

    /// The lower-case name of the status (what `Display` printed).
    pub fn to_string(self) -> (r: String)
        ensures
            r@ == status_name(self),
    {
        let s = match self {
            Self::Healthy => "healthy",
            Self::Starting => "starting",
            Self::Draining => "draining",
            Self::Unhealthy => "unhealthy",
        };
        proof {
            reveal_strlit("healthy");
            reveal_strlit("starting");
            reveal_strlit("draining");
            reveal_strlit("unhealthy");
        }
        let r = to_owned(s);
        assert(r@ =~= status_name(self));
        r
    }
}

/// Health check response for JSON endpoints
#[derive(Debug, Clone)]
pub struct HealthResponse {
    pub status: String,
    pub ready: bool,
    pub alive: bool,
    pub uptime_seconds: Option<u64>,
    pub connections: Option<u64>,
    pub version: Option<String>,
}

impl HealthResponse {
    /// Create from health status
    pub fn from_status(status: HealthStatus) -> (r: Self)
        ensures
            r.status@ == status_name(status),
            r.ready == (status == HealthStatus::Healthy),
            r.alive == (status != HealthStatus::Unhealthy),
            r.uptime_seconds is None,
            r.connections is None,
            r.version is None,
    {
        Self {
            status: status.to_string(),
            ready: status.is_ready(),
            alive: status.is_alive(),
            uptime_seconds: None,
            connections: None,
            version: None,
        }
    }

    /// Add uptime information, in whole seconds.
    pub fn with_uptime(self, uptime_secs: u64) -> (r: Self)
        ensures
            r == (HealthResponse { uptime_seconds: Some(uptime_secs), ..self }),
    {
        let mut s = self;
        s.uptime_seconds = Some(uptime_secs);
        s
    }

    /// Add connection count
    pub fn with_connections(self, count: u64) -> (r: Self)
        ensures
            r == (HealthResponse { connections: Some(count), ..self }),
    {
        let mut s = self;
        s.connections = Some(count);
        s
    }

    /// Add version information
    pub fn with_version(self, version: &str) -> (r: Self)
        ensures
            r.version matches Some(v) && v@ == version@,
            r.status == self.status,
            r.ready == self.ready,
            r.alive == self.alive,
            r.uptime_seconds == self.uptime_seconds,
            r.connections == self.connections,
    {
        let mut s = self;
        s.version = Some(to_owned(version));
        s
    }
}

/// A ready (healthy) status is always alive, and every status has a
/// non-empty name.
pub proof fn law_ready_implies_alive(s: HealthStatus)
    ensures
        (s == HealthStatus::Healthy) ==> (s != HealthStatus::Unhealthy),
        status_name(s).len() > 0,
{
}

/// The seconds the manager waits for connections to drain, by default.
pub const DEFAULT_DRAIN_SECS: u64 = 30;

/// The service's lifecycle: its health status, its live connections, when
/// it started, whether shutdown has begun, and how long draining may take.
pub struct LifecycleManager {
    status: HealthStatus,
    active_connections: u64,
    start_time: Instant,
    shutting_down: bool,
    drain_timeout: (u64, u32),
}

/// The count after one more connection (wrapping, as an atomic add does).
pub open spec fn count_up(n: u64) -> u64 {
    if n == u64::MAX {
        0
    } else {
        (n + 1) as u64
    }
}

/// The count after one connection fewer (wrapping, as an atomic sub does).
pub open spec fn count_down(n: u64) -> u64 {
    if n == 0 {
        u64::MAX
    } else {
        (n - 1) as u64
    }
}

/// What draining does next.
#[derive(Debug, Clone, Copy, PartialEq, Eq, Structural)]
pub enum DrainStep {
    /// No connection is left.
    Drained,
    /// The drain timeout has passed with connections still open.
    TimedOut,
    /// Wait a little and look again.
    Wait,
}

impl LifecycleManager {
    pub closed spec fn spec_status(&self) -> HealthStatus {
        self.status
    }

    pub closed spec fn spec_active(&self) -> u64 {
        self.active_connections
    }

    pub closed spec fn spec_shutting_down(&self) -> bool {
        self.shutting_down
    }

    /// The drain timeout, as whole seconds and the nanoseconds beyond them.
    pub closed spec fn spec_drain_timeout(&self) -> (u64, u32) {
        self.drain_timeout
    }

    /// A manager that is starting, with no connections.
    pub fn new() -> (r: Self)
        ensures
            r.spec_status() == HealthStatus::Starting,
            r.spec_active() == 0,
            !r.spec_shutting_down(),
            r.spec_drain_timeout() == (DEFAULT_DRAIN_SECS, 0u32),
    {
        LifecycleManager {
            status: HealthStatus::Starting,
            active_connections: 0,
            start_time: instant_now(),
            shutting_down: false,
            drain_timeout: (DEFAULT_DRAIN_SECS, 0),
        }
    }

    /// Sets the drain timeout (whole seconds and the nanoseconds beyond
    /// them).
    pub fn with_drain_timeout(self, timeout: (u64, u32)) -> (r: Self)
        requires
            timeout.1 < 1000000000,
        ensures
            r.spec_status() == self.spec_status(),
            r.spec_active() == self.spec_active(),
            r.spec_shutting_down() == self.spec_shutting_down(),
            r.spec_drain_timeout() == timeout,
    {
        LifecycleManager { drain_timeout: timeout, ..self }
    }

    /// How long draining may take.
    pub fn drain_timeout(&self) -> (r: (u64, u32))
        ensures
            r == self.spec_drain_timeout(),
    {
        self.drain_timeout
    }

    pub fn health_status(&self) -> (r: HealthStatus)
        ensures
            r == self.spec_status(),
    {
        self.status
    }

    pub fn set_status(&mut self, status: HealthStatus)
        ensures
            final(self).spec_status() == status,
            final(self).spec_active() == old(self).spec_active(),
            final(self).spec_shutting_down() == old(self).spec_shutting_down(),
    {
        self.status = status;
    }

    pub fn mark_ready(&mut self)
        ensures
            final(self).spec_status() == HealthStatus::Healthy,
            final(self).spec_active() == old(self).spec_active(),
            final(self).spec_shutting_down() == old(self).spec_shutting_down(),
    {
        self.set_status(HealthStatus::Healthy);
    }

    pub fn mark_unhealthy(&mut self)
        ensures
            final(self).spec_status() == HealthStatus::Unhealthy,
            final(self).spec_active() == old(self).spec_active(),
            final(self).spec_shutting_down() == old(self).spec_shutting_down(),
    {
        self.set_status(HealthStatus::Unhealthy);
    }

    /// One more connection (the count wraps as the atomic counter does).
    pub fn connection_started(&mut self)
        ensures
            final(self).spec_active() == count_up(old(self).spec_active()),
            final(self).spec_status() == old(self).spec_status(),
            final(self).spec_shutting_down() == old(self).spec_shutting_down(),
    {
        self.active_connections = if self.active_connections == u64::MAX { 0 } else { self.active_connections + 1 };
    }

    /// One connection fewer (the count wraps as the atomic counter does).
    pub fn connection_finished(&mut self)
        ensures
            final(self).spec_active() == count_down(old(self).spec_active()),
            final(self).spec_status() == old(self).spec_status(),
            final(self).spec_shutting_down() == old(self).spec_shutting_down(),
    {
        self.active_connections = if self.active_connections == 0 { u64::MAX } else { self.active_connections - 1 };
    }

    pub fn active_connections(&self) -> (r: u64)
        ensures
            r == self.spec_active(),
    {
        self.active_connections
    }

    /// The time since the manager was made. Nothing is stated of it: it
    /// depends on the clock.
    pub fn uptime(&self) -> Duration {
        duration_since(&instant_now(), &self.start_time)
    }

    pub fn is_shutting_down(&self) -> (r: bool)
        ensures
            r == self.spec_shutting_down(),
    {
        self.shutting_down
    }

    /// The health endpoint's report: status, uptime in whole seconds, live
    /// connections and the version.
    pub fn health_response(&self, version: &str) -> (r: HealthResponse)
        ensures
            r.status@ == status_name(self.spec_status()),
            r.ready == (self.spec_status() == HealthStatus::Healthy),
            r.alive == (self.spec_status() != HealthStatus::Unhealthy),
            r.uptime_seconds is Some,
            r.connections == Some(self.spec_active()),
            r.version matches Some(v) && v@ == version@,
    {
        let up = duration_as_secs(&self.uptime());
        HealthResponse::from_status(self.status).with_uptime(up).with_connections(self.active_connections).with_version(
            version,
        )
    }

    /// Starts a graceful shutdown: the status becomes draining. Answers
    /// false (and changes nothing) when shutdown had already begun.
    pub fn begin_shutdown(&mut self) -> (r: bool)
        ensures
            r == !old(self).spec_shutting_down(),
            final(self).spec_shutting_down(),
            r ==> final(self).spec_status() == HealthStatus::Draining,
            !r ==> final(self).spec_status() == old(self).spec_status(),
            final(self).spec_active() == old(self).spec_active(),
    {
        if self.shutting_down {
            return false;
        }
        self.shutting_down = true;
        self.status = HealthStatus::Draining;
        true
    }

    /// One look while draining, `elapsed` (whole seconds and nanoseconds)
    /// after it began: done when no connection is left, given up once more
    /// than the drain timeout has passed, otherwise wait.
    pub fn drain_step(&self, elapsed: (u64, u32)) -> (r: DrainStep)
        ensures
            self.spec_active() == 0 ==> r == DrainStep::Drained,
            self.spec_active() > 0 ==> r == (if span_exceeds(elapsed, self.spec_drain_timeout()) {
                DrainStep::TimedOut
            } else {
                DrainStep::Wait
            }),
    {
        if self.active_connections == 0 {
            return DrainStep::Drained;
        }
        let t = self.drain_timeout;
        if elapsed.0 > t.0 || (elapsed.0 == t.0 && elapsed.1 > t.1) {
            DrainStep::TimedOut
        } else {
            DrainStep::Wait
        }
    }
}

/// Whether one span (whole seconds and nanoseconds) is longer than another.
pub open spec fn span_exceeds(a: (u64, u32), b: (u64, u32)) -> bool {
    a.0 > b.0 || (a.0 == b.0 && a.1 > b.1)
}

/// A connection that starts and then finishes leaves the count as it was.
pub proof fn law_connection_roundtrip(n: u64)
    ensures
        count_down(count_up(n)) == n,
{
}

} // verus!
