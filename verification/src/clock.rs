//! A clock that counts from the moment at which it was started.
use std::time::Instant;
use vstd::prelude::*;

verus! {

/// A reading of the system's monotonic clock.
#[verifier::external_type_specification]
#[verifier::external_body]
pub struct ExInstant(Instant);

/// Where an instant lies on the time line of the system's monotonic clock, in nanoseconds.
pub uninterp spec fn moment(instant: Instant) -> int;

/// The nanoseconds from `origin` to the instant; none if the instant comes before.
pub open spec fn reading(origin: int, instant: Instant) -> int {
    if moment(instant) < origin {
        0
    } else {
        moment(instant) - origin
    }
}

/// Whether a clock that was started at `origin` shows `now` at some instant from then on.
pub open spec fn shows(origin: int, now: u128) -> bool {
    exists|instant: Instant|
        origin <= moment(instant) && now == #[trigger] reading(origin, instant)
}

/// Whether the system's monotonic clock has come to the instant. One made by calculation may lie
/// ahead of it.
pub uninterp spec fn measured(instant: Instant) -> bool;

/// Calls `std::time::Instant::now`. Which moment comes back is up to the system; it is one to
/// which the clock has come, and no less than that of an instant measured before.
#[verifier::external_body]
fn instant_now(earlier: Option<&Instant>) -> (now: Instant)
    requires
        earlier matches Some(instant) ==> measured(*instant),
    ensures
        measured(now),
        earlier matches Some(instant) ==> moment(*instant) <= moment(now),
{
    Instant::now()
}

/// Calls `std::time::Instant::saturating_duration_since` and gives the duration in nanoseconds:
/// the time from `earlier` to `later`, or zero if `later` comes before `earlier`.
#[verifier::external_body]
fn nanos_between(earlier: &Instant, later: &Instant) -> (nanos: u128)
    ensures
        nanos == reading(moment(*earlier), *later),
{
    later.saturating_duration_since(*earlier).as_nanos()
}

/// A clock that counts nanoseconds from the moment at which it was started.
#[derive(Clone, Copy, Debug)]
pub struct Clock {
    start: Instant,
}

impl Clock {
    /// The moment at which the clock was started.
    pub closed spec fn origin(self) -> int {
        moment(self.start)
    }

    /// The clock was started at an instant that was measured.
    #[verifier::type_invariant]
    spec fn started(self) -> bool {
        measured(self.start)
    }

    /// Starts a clock.
    pub(crate) fn begin() -> Clock {
        Clock { start: instant_now(None) }
    }

    /// The nanoseconds that have passed since the clock was started.
    pub(crate) fn now(&self) -> (now: u128)
        ensures
            shows(self.origin(), now),
    {
        proof {
            use_type_invariant(self);
        }
        let instant = instant_now(Some(&self.start));
        nanos_between(&self.start, &instant)
    }
}

} // verus!
