//! The counter of a trace, which several threads count down, and the right to take one off it.
use std::sync::atomic::AtomicU32;
use std::sync::atomic::Ordering;
use std::sync::Arc;
use std::time::Instant;

use vstd::prelude::*;

use crate::trace::share;
use crate::trace::BatchTrace;

verus! {

/// The number that a counter was made with.
pub uninterp spec fn started_at(counter: AtomicU32) -> u32;

/// The right to count one shard off a trace, once: counting uses it up, and it cannot be copied.
/// Outside of this module it is had only from the tickets that were made for the trace.
pub struct Ticket {
    trace: Arc<BatchTrace>,
}

/// The tickets of a trace: as many as it has shards.
pub struct TraceTickets {
    trace: Arc<BatchTrace>,
    left: usize,
}

/// One that was taken off a counter. Outside of this module one is had only by giving up a ticket.
pub struct Counted {
    prev: u32,
    counter: Ghost<AtomicU32>,
}

impl Ticket {
    /// The trace that it is for.
    pub closed spec fn trace(self) -> Arc<BatchTrace> {
        self.trace
    }

    /// When the batch of the trace was received.
    pub fn t_start(&self) -> (t_start: Instant)
        ensures
            t_start == self.trace().t_start,
    {
        self.trace.t_start
    }
}

impl TraceTickets {
    /// What each of the tickets is.
    pub closed spec fn ticket(self) -> Ticket {
        Ticket { trace: self.trace }
    }

    /// How many tickets have not been issued.
    pub closed spec fn left(self) -> nat {
        self.left as nat
    }

    /// The trace that they are for.
    pub open spec fn trace(self) -> Arc<BatchTrace> {
        self.ticket().trace()
    }

    /// Starts the trace of a batch that is about to be dispatched to `num_shards` shards, with a
    /// ticket for each.
    pub fn new(t_start: Instant, num_shards: usize) -> (tickets: Self)
        ensures
            tickets.left() == num_shards,
            tickets.trace().t_start == t_start,
            started_at(tickets.trace().shard_remaining) == num_shards as u32,
    {
        let start: u32 = #[verifier::truncate]
        (num_shards as u32);
        TraceTickets { trace: Arc::new(BatchTrace::new(t_start, start)), left: num_shards }
    }

    /// Hands one ticket out.
    pub fn issue(&mut self) -> (ticket: Ticket)
        requires
            old(self).left() > 0,
        ensures
            ticket == old(self).ticket(),
            final(self).ticket() == old(self).ticket(),
            final(self).left() == old(self).left() - 1,
    {
        self.left = self.left - 1;
        Ticket { trace: share(&self.trace) }
    }
}

impl Counted {
    /// What the counter was at before.
    pub closed spec fn spec_prev(self) -> u32 {
        self.prev
    }

    /// The counter that one was taken off.
    pub closed spec fn counter(self) -> AtomicU32 {
        self.counter@
    }

    /// What the counter was at before.
    pub fn prev(&self) -> (prev: u32)
        ensures
            prev == self.spec_prev(),
    {
        self.prev
    }
}

/// Calls `AtomicU32::new`: a counter that starts at `n`.
#[verifier::external_body]
pub(crate) fn counter_new(n: u32) -> (counter: AtomicU32)
    ensures
        started_at(counter) == n,
{
    AtomicU32::new(n)
}

/// Calls `AtomicU32::fetch_sub`, once, to take one off the counter of the ticket's trace, which
/// wraps around at zero. What it was at before depends on the other threads.
#[verifier::external_body]
pub(crate) fn count_down(ticket: Ticket) -> (counted: Counted)
    ensures
        counted.counter() == ticket.trace().shard_remaining,
{
    let counter = &ticket.trace.shard_remaining;
    Counted { prev: counter.fetch_sub(1, Ordering::AcqRel), counter: Ghost(*counter) }
}

} // verus!
