//! Circuit breaker for an upstream: closes, opens on a high error rate,
//! and probes recovery through a single half-open request.

use std::time::Instant;
use vstd::prelude::*;
use crate::clock::{instant_now, span_between};

verus! {

#[derive(Debug, Clone, Copy, PartialEq, Eq, Structural)]
pub enum CircuitState {
    /// Normal operation
    Closed,
    /// Error rate too high, rejecting
    Open,
    /// Testing if the upstream recovered
    HalfOpen,
}

pub struct CircuitBreaker {
    pub state: CircuitState,
    pub error_threshold_percent: u8,
    /// The counting window, in milliseconds.
    pub window_size: u64,
    /// How long the circuit stays open before a probe, in milliseconds.
    pub open_time: u64,
    pub total_requests: u64,
    pub total_errors: u64,
    pub last_state_change: Instant,
    pub window_start: Instant,
}

/// The part of a breaker that its decisions read and change.
pub struct CircuitView {
    pub state: CircuitState,
    pub total_requests: u64,
    pub total_errors: u64,
}

/// Minimum number of requests in the window before the error rate counts.
pub open spec fn min_requests() -> u64 {
    5
}

impl CircuitBreaker {
    pub open spec fn view_of(&self) -> CircuitView {
        CircuitView {
            state: self.state,
            total_requests: self.total_requests,
            total_errors: self.total_errors,
        }
    }

    /// The configuration a call leaves untouched.
    pub open spec fn same_config(&self, other: &Self) -> bool {
        &&& self.error_threshold_percent == other.error_threshold_percent
        &&& self.window_size == other.window_size
        &&& self.open_time == other.open_time
    }
}

/// The answer of an admission check and the state it leaves, given whether
/// the counting window and the open period have run out.
pub open spec fn spec_acquire(v: CircuitView, window_elapsed: bool, open_elapsed: bool) -> (
    CircuitView,
    bool,
) {
    let counted = if window_elapsed {
        CircuitView { state: v.state, total_requests: 0, total_errors: 0 }
    } else {
        v
    };
    match v.state {
        CircuitState::Closed => (counted, true),
        CircuitState::Open => if open_elapsed {
            (CircuitView { state: CircuitState::HalfOpen, ..counted }, true)
        } else {
            (counted, false)
        },
        CircuitState::HalfOpen => (counted, false),
    }
}

/// The state after a successful request.
pub open spec fn spec_success(v: CircuitView) -> CircuitView {
    if v.state == CircuitState::HalfOpen {
        CircuitView { state: CircuitState::Closed, total_requests: 0, total_errors: 0 }
    } else {
        CircuitView { total_requests: (v.total_requests + 1) as u64, ..v }
    }
}

/// The state after a failed request, for an error threshold in percent.
pub open spec fn spec_failure(v: CircuitView, threshold: u8) -> CircuitView {
    if v.state == CircuitState::HalfOpen {
        CircuitView { state: CircuitState::Open, ..v }
    } else {
        let req = (v.total_requests + 1) as u64;
        let err = (v.total_errors + 1) as u64;
        let opens = req > min_requests() && (err * 100) / (req as int) >= threshold;
        CircuitView {
            state: if opens { CircuitState::Open } else { v.state },
            total_requests: req,
            total_errors: err,
        }
    }
}

/// Whether a span (whole seconds and nanoseconds) is at least a number of
/// milliseconds.
pub open spec fn reaches(span: (u64, u32), ms: u64) -> bool {
    span.0 * 1000000000 + span.1 >= ms * 1000000
}

pub fn span_reaches(span: (u64, u32), ms: u64) -> (r: bool)
    ensures
        r == reaches(span, ms),
{
    (span.0 as u128) * 1000000000 + (span.1 as u128) >= (ms as u128) * 1000000
}

impl CircuitBreaker {
    pub fn new(error_threshold_percent: u8, window_size_ms: u64, open_time_ms: u64) -> (r: Self)
        ensures
            r.state == CircuitState::Closed,
            r.error_threshold_percent == error_threshold_percent,
            r.total_requests == 0,
            r.total_errors == 0,
            r.window_size == window_size_ms,
            r.open_time == open_time_ms,
    {
        let now = instant_now();
        Self {
            state: CircuitState::Closed,
            error_threshold_percent,
            window_size: window_size_ms,
            open_time: open_time_ms,
            total_requests: 0,
            total_errors: 0,
            last_state_change: now,
            window_start: now,
        }
    }

    /// One admission decision at time `now`, given whether the counting
    /// window (since `window_start`) and the open period (since
    /// `last_state_change`) have run out at that time.
    pub fn acquire_at(&mut self, now: Instant, window_elapsed: bool, open_elapsed: bool) -> (r:
        bool)
        ensures
            (final(self).view_of(), r) == spec_acquire(old(self).view_of(), window_elapsed, open_elapsed),
            final(self).same_config(old(self)),
            final(self).window_start == (if window_elapsed {
                now
            } else {
                old(self).window_start
            }),
            final(self).last_state_change == (if old(self).state == CircuitState::Open
                && open_elapsed {
                now
            } else {
                old(self).last_state_change
            }),
    {
        if window_elapsed {
            self.total_requests = 0;
            self.total_errors = 0;
            self.window_start = now;
        }
        match self.state {
            CircuitState::Closed => true,
            CircuitState::Open => {
                if open_elapsed {
                    self.state = CircuitState::HalfOpen;
                    self.last_state_change = now;
                    true
                } else {
                    false
                }
            },
            CircuitState::HalfOpen => false,
        }
    }

    /// Whether a request may go to the upstream now. In the half-open state
    /// only the single probe admitted on leaving the open state passes.
    pub fn acquire(&mut self) -> (r: bool)
        ensures
            final(self).same_config(old(self)),
            exists|window_elapsed: bool, open_elapsed: bool|
                (final(self).view_of(), r) == spec_acquire(
                    old(self).view_of(),
                    window_elapsed,
                    open_elapsed,
                ),
    {
        let now = instant_now();
        let since_window = span_between(&now, &self.window_start);
        let window_elapsed = span_reaches(since_window, self.window_size);
        let since_change = span_between(&now, &self.last_state_change);
        let open_elapsed = span_reaches(since_change, self.open_time);
        let r = self.acquire_at(now, window_elapsed, open_elapsed);
        assert((self.view_of(), r) == spec_acquire(old(self).view_of(), window_elapsed, open_elapsed));
        r
    }

    /// Records a successful request at time `now`: a successful probe closes
    /// the circuit and starts a fresh window there; otherwise only the count
    /// grows and the times stay.
    pub fn record_success_at(&mut self, now: Instant)
        requires
            old(self).state != CircuitState::HalfOpen ==> old(self).total_requests < u64::MAX,
        ensures
            final(self).view_of() == spec_success(old(self).view_of()),
            final(self).same_config(old(self)),
            old(self).state == CircuitState::HalfOpen ==> final(self).last_state_change == now
                && final(self).window_start == now,
            old(self).state != CircuitState::HalfOpen ==> final(self).last_state_change
                == old(self).last_state_change && final(self).window_start == old(self).window_start,
    {
        if self.state == CircuitState::HalfOpen {
            self.state = CircuitState::Closed;
            self.last_state_change = now;
            self.total_requests = 0;
            self.total_errors = 0;
            self.window_start = now;
        } else {
            self.total_requests += 1;
        }
    }

    /// Records a successful request now (one clock reading for both times).
    pub fn record_success(&mut self)
        requires
            old(self).state != CircuitState::HalfOpen ==> old(self).total_requests < u64::MAX,
        ensures
            final(self).view_of() == spec_success(old(self).view_of()),
            final(self).same_config(old(self)),
            old(self).state == CircuitState::HalfOpen ==> final(self).last_state_change
                == final(self).window_start,
            old(self).state != CircuitState::HalfOpen ==> final(self).last_state_change
                == old(self).last_state_change && final(self).window_start == old(self).window_start,
    {
        self.record_success_at(instant_now());
    }

    /// Records a failed request at time `now`: a failed probe reopens the
    /// circuit; otherwise the circuit opens once more than five requests
    /// were counted and the error rate reaches the threshold. The time of
    /// the last change becomes `now` where the circuit (re)opens; the window
    /// start stays.
    pub fn record_failure_at(&mut self, now: Instant)
        requires
            old(self).state != CircuitState::HalfOpen ==> old(self).total_requests < u64::MAX
                && old(self).total_errors < u64::MAX,
            old(self).state != CircuitState::HalfOpen && old(self).total_requests + 1 > 5 ==> (
            old(self).total_errors + 1) * 100 <= u64::MAX,
        ensures
            final(self).view_of() == spec_failure(old(self).view_of(), old(self).error_threshold_percent),
            final(self).same_config(old(self)),
            final(self).last_state_change == (if failure_opens(
                old(self).view_of(),
                old(self).error_threshold_percent,
            ) {
                now
            } else {
                old(self).last_state_change
            }),
            final(self).window_start == old(self).window_start,
    {
        if self.state == CircuitState::HalfOpen {
            self.state = CircuitState::Open;
            self.last_state_change = now;
            return;
        }
        self.total_requests += 1;
        self.total_errors += 1;
        if self.total_requests > 5 {
            let err_rate = (self.total_errors * 100) / self.total_requests;
            if err_rate >= (self.error_threshold_percent as u64) {
                self.state = CircuitState::Open;
                self.last_state_change = now;
            }
        }
    }

    /// Records a failed request now.
    pub fn record_failure(&mut self)
        requires
            old(self).state != CircuitState::HalfOpen ==> old(self).total_requests < u64::MAX
                && old(self).total_errors < u64::MAX,
            old(self).state != CircuitState::HalfOpen && old(self).total_requests + 1 > 5 ==> (
            old(self).total_errors + 1) * 100 <= u64::MAX,
        ensures
            final(self).view_of() == spec_failure(old(self).view_of(), old(self).error_threshold_percent),
            final(self).same_config(old(self)),
            !failure_opens(old(self).view_of(), old(self).error_threshold_percent) ==> final(self).last_state_change
                == old(self).last_state_change,
            final(self).window_start == old(self).window_start,
    {
        self.record_failure_at(instant_now());
    }
}

/// Whether a failure (re)opens the circuit: a failed probe, or more than
/// five requests with the error rate at the threshold.
pub open spec fn failure_opens(v: CircuitView, threshold: u8) -> bool {
    v.state == CircuitState::HalfOpen || {
        let req = v.total_requests + 1;
        let err = v.total_errors + 1;
        req > min_requests() && (err * 100) / req >= threshold
    }
}

/// While the circuit is half-open, every further admission check is
/// refused: the probe that opened it is the only request let through.
pub proof fn law_half_open_admits_no_second_probe(
    v: CircuitView,
    window_elapsed: bool,
    open_elapsed: bool,
)
    requires
        v.state == CircuitState::HalfOpen,
    ensures
        spec_acquire(v, window_elapsed, open_elapsed) == (
            CircuitView {
                total_requests: if window_elapsed { 0 } else { v.total_requests },
                total_errors: if window_elapsed { 0 } else { v.total_errors },
                ..v
            },
            false,
        ),
{
}

/// A closed circuit admits every request, and an open one admits nothing
/// until its open period has run out.
pub proof fn law_closed_admits_open_refuses(v: CircuitView, window_elapsed: bool, open_elapsed: bool)
    ensures
        v.state == CircuitState::Closed ==> spec_acquire(v, window_elapsed, open_elapsed).1,
        v.state == CircuitState::Open && !open_elapsed ==> !spec_acquire(
            v,
            window_elapsed,
            open_elapsed,
        ).1,
{
}

/// The probe decides: from an open circuit whose open period has run out,
/// an admitted probe that succeeds closes the circuit with empty counters,
/// and one that fails opens it again.
pub proof fn law_probe_decides(v: CircuitView, window_elapsed: bool, threshold: u8)
    requires
        v.state == CircuitState::Open,
    ensures
        ({
            let (after, admitted) = spec_acquire(v, window_elapsed, true);
            &&& admitted
            &&& after.state == CircuitState::HalfOpen
            &&& spec_success(after) == CircuitView {
                state: CircuitState::Closed,
                total_requests: 0,
                total_errors: 0,
            }
            &&& spec_failure(after, threshold).state == CircuitState::Open
        }),
{
}

/// A closed circuit does not open while at most five requests have been
/// counted in the window, whatever they were.
pub proof fn law_no_trip_below_minimum(v: CircuitView, threshold: u8)
    requires
        v.state == CircuitState::Closed,
        v.total_requests < min_requests(),
    ensures
        spec_failure(v, threshold).state == CircuitState::Closed,
        spec_success(v).state == CircuitState::Closed,
{
}

} // verus!
