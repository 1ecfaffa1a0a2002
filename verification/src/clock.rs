//! Monotonic time, as a number of nanoseconds since a starting point.

use std::time::Instant;
use vstd::prelude::*;

verus! {

/// Declares std's monotonic instant to the verifier; nothing inside it is visible.
#[verifier::external_type_specification]
#[verifier::external_body]
pub struct ExInstant(std::time::Instant);

/// `std::time::Instant::now`: the present instant. What it is depends on the machine,
/// so nothing is claimed of it.
#[verifier::external_body]
fn instant_now() -> Instant {
    Instant::now()
}

/// `std::time::Instant::elapsed`: the time that has passed since `start`, handed over in
/// nanoseconds. What it is depends on the machine, so nothing is claimed of it.
#[verifier::external_body]
fn nanos_since(start: &Instant) -> u128 {
    start.elapsed().as_nanos()
}

/// A running clock, and the time that it was last read to show.
pub struct Clock {
    start: Instant,
    latest: u128,
}

impl Clock {
    /// The time that the clock was last read to show.
    pub closed spec fn view(&self) -> nat {
        self.latest as nat
    }

    /// `reading` is a number of nanoseconds that the monotonic clock gave as the time passed
    /// since this clock was started.
    pub closed spec fn reads(&self, reading: u128) -> bool {
        call_ensures(nanos_since, (&self.start,), reading)
    }

    /// A clock that starts now, at zero.
    pub fn start() -> (clock: Clock)
        ensures
            clock@ == 0,
    {
        Clock { start: instant_now(), latest: 0 }
    }

    /// Sets the clock by a reading. Time does not run backwards: a reading that is earlier
    /// than the time that the clock shows leaves it as it is.
    pub fn advance(&mut self, reading: u128) -> (now: u128)
        ensures
            now == if old(self)@ < reading {
                reading as nat
            } else {
                old(self)@
            },
            final(self)@ == now,
            forall|r: u128| #[trigger] final(self).reads(r) == old(self).reads(r),
    {
        if self.latest < reading {
            self.latest = reading;
        }
        self.latest
    }

    /// Nanoseconds since the clock was started: what the monotonic clock gives, or the time
    /// that was shown before, if that is later.
    pub fn now(&mut self) -> (now: u128)
        ensures
            old(self)@ <= now,
            final(self)@ == now,
            exists|reading: u128| #[trigger]
                old(self).reads(reading) && now == if old(self)@ < reading {
                    reading as nat
                } else {
                    old(self)@
                },
            forall|r: u128| #[trigger] final(self).reads(r) == old(self).reads(r),
    {
        let reading = nanos_since(&self.start);
        assert(old(self).reads(reading));
        self.advance(reading)
    }
}

/// The time between two readings of a clock is the time that passed between them: where the
/// monotonic clock gave `first` and then `second`, and neither lies before what was shown,
/// the times shown lie exactly as far apart.
pub proof fn law_differences_are_the_time_passed(
    before: &Clock,
    between: &Clock,
    after: &Clock,
    first: u128,
    second: u128,
)
    requires
        before@ <= first <= second,
        between@ == if before@ < first {
            first as nat
        } else {
            before@
        },
        after@ == if between@ < second {
            second as nat
        } else {
            between@
        },
    ensures
        after@ - between@ == second - first,
{
}

/// What a clock reads is what a call of `nanos_since` on its starting point has returned,
/// and nothing else: neither another unit nor another starting point.
proof fn law_a_reading_is_the_time_passed(clock: &Clock, reading: u128)
    ensures
        clock.reads(reading) <==> call_ensures(nanos_since, (&clock.start,), reading),
        clock@ == clock.latest,
{
}

} // verus!
