//! The monotonic clock, as the state machines of this crate see it: points
//! in time and spans between them are opaque values handed through; only
//! the comparisons that the machines branch on come back as plain values.

use std::time::{Duration, Instant};
use vstd::prelude::*;

verus! {

/// `std::time::Instant`, carried through the state machines unopened.
#[verifier::external_type_specification]
#[verifier::external_body]
pub struct ExInstant(Instant);

/// `Instant::now`. Nothing is stated of the reading: it depends on the clock.
#[verifier::external_body]
pub fn instant_now() -> Instant {
    Instant::now()
}

/// `Instant::duration_since` (saturating at zero). Nothing is stated of the
/// span: the instants are opaque here.
#[verifier::external_body]
pub fn duration_since(now: &Instant, earlier: &Instant) -> Duration {
    now.duration_since(*earlier)
}

/// `Instant::duration_since` (saturating at zero), as whole seconds and the
/// nanoseconds beyond them. Trusted: only that the nanoseconds are below a
/// second (what `Duration::subsec_nanos` documents); the instants are opaque
/// here.
#[verifier::external_body]
pub fn span_between(now: &Instant, earlier: &Instant) -> (r: (u64, u32))
    ensures
        r.1 < 1000000000,
{
    let d = now.duration_since(*earlier);
    (d.as_secs(), d.subsec_nanos())
}

/// `Instant::elapsed`, as whole seconds and the nanoseconds beyond them.
/// Trusted: only that the nanoseconds are below a second (what
/// `Duration::subsec_nanos` documents); the reading depends on the clock.
#[verifier::external_body]
pub fn elapsed_since(earlier: &Instant) -> (r: (u64, u32))
    ensures
        r.1 < 1000000000,
{
    let d = earlier.elapsed();
    (d.as_secs(), d.subsec_nanos())
}



/// `Duration::as_secs` (whole seconds). Nothing is stated of the number:
/// durations are opaque here.
#[verifier::external_body]
pub fn duration_as_secs(d: &Duration) -> u64 {
    d.as_secs()
}



} // verus!
