//! The end-to-end barrier of a batch: when its last shard has finished sending.
use std::sync::atomic::AtomicU32;
use std::sync::Arc;
use std::time::Instant;

use vstd::prelude::*;

use crate::clock::clock_now;
use crate::clock::counted;
use crate::clock::elapsed;
use crate::clock::whole_micros_of;
use crate::clock::Lapse;
use crate::counter::count_down;
use crate::counter::counter_new;
use crate::counter::started_at;
use crate::counter::Counted;
use crate::counter::Ticket;

verus! {

/// Calls `Arc::clone`: another handle on the same value.
#[verifier::external_body]
pub(crate) fn share<T>(value: &Arc<T>) -> (handle: Arc<T>)
    ensures
        handle == *value,
{
    Arc::clone(value)
}

/// Reads the clock, if times are measured.
pub fn mark(trace_on: bool) -> (now: Option<Instant>)
    ensures
        now is Some <==> trace_on,
{
    if trace_on {
        Some(clock_now())
    } else {
        None
    }
}

/// Measures the time since a reading of the clock.
pub fn elapsed_us(since: &Instant) -> (lapse: Lapse)
    ensures
        lapse.measured_from(*since),
        lapse.since() == *since,
        whole_micros_of(lapse.time()) <= u64::MAX ==> lapse.value() == whole_micros_of(
            lapse.time(),
        ),
{
    counted(elapsed(since))
}

/// Latency trace of one batch, shared by the coordinator and every shard that the batch is
/// dispatched to.
///
/// Each shard counts itself off once its send is done, and the coordinator counts off a shard
/// that it could not reach. Whoever counts off the last one records the time since `t_start`.
pub struct BatchTrace {
    /// When the batch was received.
    pub t_start: Instant,
    /// Number of shards that have not been counted off yet.
    pub shard_remaining: AtomicU32,
}

impl BatchTrace {
    /// Starts a trace for a batch that is about to be dispatched to `num_shards` shards.
    pub fn new(t_start: Instant, num_shards: u32) -> (trace: BatchTrace)
        ensures
            trace.t_start == t_start,
            started_at(trace.shard_remaining) == num_shards,
    {
        BatchTrace { t_start, shard_remaining: counter_new(num_shards) }
    }
}

/// What counting one shard off a trace came to.
pub struct CountOff {
    /// The one that was taken off the number of shards that are left.
    pub counted: Counted,
    /// For the last shard, the time since the batch was received.
    pub e2e: Option<Lapse>,
}

impl CountOff {
    /// Number of shards that had not been counted off before.
    pub open spec fn prev(self) -> u32 {
        self.counted.spec_prev()
    }

    /// Number of shards that are left afterwards. Counting wraps around at zero.
    pub open spec fn left(self) -> u32 {
        self.prev().wrapping_sub(1)
    }

    /// Whether one shard was counted off this trace. The end-to-end time is measured by whoever
    /// counts off the last shard, and by nobody else, from when the batch was received.
    pub open spec fn of(self, trace: BatchTrace) -> bool {
        &&& self.counted.counter() == trace.shard_remaining
        &&& self.e2e is Some <==> self.prev() == 1
        &&& self.e2e matches Some(lapse) ==> lapse.measured_from(trace.t_start)
    }

    /// The end-to-end time in microseconds, where it was measured.
    pub open spec fn e2e_us(self) -> Option<u64> {
        match self.e2e {
            Some(lapse) => Some(lapse.value()),
            None => None,
        }
    }
}

/// Counts one shard off a trace, for which it gives up its ticket. How many shards were left before
/// depends on the other threads, and the time on the clock.
pub fn finish_shared(ticket: Ticket) -> (count: CountOff)
    ensures
        count.of(*ticket.trace()),
        count.counted.counter() == ticket.trace().shard_remaining,
        count.e2e is Some <==> count.counted.spec_prev() == 1,
        count.e2e matches Some(lapse) ==> lapse.since() == ticket.trace().t_start,
{
    let t_start = ticket.t_start();
    let counted = count_down(ticket);
    let e2e = if counted.prev() == 1 {
        Some(elapsed_us(&t_start))
    } else {
        None
    };
    CountOff { counted, e2e }
}

/// The end of a batch is measured where the one shard that was left is counted off, and nowhere
/// else, from when the batch was received; the time is the measured one in whole microseconds.
pub proof fn end_is_measured_with_the_last_shard(count: CountOff, trace: BatchTrace)
    requires
        count.of(trace),
    ensures
        count.e2e is Some <==> count.counted.spec_prev() == 1,
        count.e2e is Some ==> count.left() == 0,
        count.counted.counter() == trace.shard_remaining,
        count.e2e matches Some(lapse) ==> {
            &&& lapse.since() == trace.t_start
            &&& count.e2e_us() == Some(lapse.value())
            &&& whole_micros_of(lapse.time()) <= u64::MAX ==> lapse.value() == whole_micros_of(
                lapse.time(),
            )
        },
        count.e2e is None ==> count.e2e_us() is None,
{
}

} // verus!
