//! Readings of the monotonic clock, and the times that are measured from them.
use std::time::Duration;
use std::time::Instant;

use vstd::prelude::*;

verus! {

/// `std::time::Instant`, a reading of the monotonic clock.
#[verifier::external_type_specification]
#[verifier::external_body]
pub struct ExInstant(std::time::Instant);

/// The number of whole microseconds in a duration, as `Duration::as_micros` has it.
pub uninterp spec fn whole_micros_of(time: Duration) -> u128;

/// A duration that was measured from a reading of the clock on. Outside of this module one is had
/// only by measuring it.
pub(crate) struct Elapsed {
    time: Duration,
    since: Ghost<Instant>,
}

impl Elapsed {
    /// How long it was.
    pub closed spec fn time(self) -> Duration {
        self.time
    }

    /// The reading of the clock that it was measured from.
    pub closed spec fn since(self) -> Instant {
        self.since@
    }
}

/// A measured time as it is counted, in microseconds. Outside of this module one is had only by
/// measuring it.
pub struct Lapse {
    us: u64,
    time: Ghost<Duration>,
    since: Ghost<Instant>,
}

impl Lapse {
    /// How long it was, in microseconds.
    pub closed spec fn value(self) -> u64 {
        self.us
    }

    /// The duration that was measured.
    pub closed spec fn time(self) -> Duration {
        self.time@
    }

    /// The reading of the clock that it was measured from.
    pub closed spec fn since(self) -> Instant {
        self.since@
    }

    /// Whether it was measured from this reading of the clock on, and is what that duration comes
    /// to in microseconds.
    pub open spec fn measured_from(self, since: Instant) -> bool {
        &&& self.since() == since
        &&& self.value() == whole_micros_of(self.time()) as u64
    }

    /// How long it was, in microseconds.
    pub fn us(&self) -> (us: u64)
        ensures
            us == self.value(),
    {
        self.us
    }
}

/// Calls `Instant::now`. What the clock shows is left open.
#[verifier::external_body]
pub(crate) fn clock_now() -> (now: Instant) {
    Instant::now()
}

/// Calls `Instant::elapsed`: the time since this reading of the clock. What the clock shows now is
/// left open.
#[verifier::external_body]
pub(crate) fn elapsed(since: &Instant) -> (elapsed: Elapsed)
    ensures
        elapsed.since() == *since,
{
    Elapsed { time: since.elapsed(), since: Ghost(*since) }
}

/// Calls `Duration::as_micros`. The result is named [`whole_micros_of`].
#[verifier::external_body]
fn whole_micros(time: &Duration) -> (us: u128)
    ensures
        us == whole_micros_of(*time),
{
    time.as_micros()
}

/// A number of microseconds as it is counted: its low 64 bits.
pub fn counted_micros(us: u128) -> (counted: u64)
    ensures
        counted == us as u64,
        us <= u64::MAX ==> counted == us,
{
    #[verifier::truncate]
    (us as u64)
}

/// A measured time as it is counted.
pub(crate) fn counted(elapsed: Elapsed) -> (lapse: Lapse)
    ensures
        lapse.since() == elapsed.since(),
        lapse.time() == elapsed.time(),
        lapse.value() == whole_micros_of(elapsed.time()) as u64,
{
    let us: u64 = counted_micros(whole_micros(&elapsed.time));
    Lapse { us, time: Ghost(elapsed.time), since: elapsed.since }
}

} // verus!
