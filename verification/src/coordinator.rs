//! What a coordinator does with one received batch: deduplicate it and dispatch it to the
//! shards.
use std::sync::Arc;
use std::time::Instant;

use crossbeam_channel::RecvError;
use crossbeam_channel::Sender;
use solana_perf::deduper::Deduper;
use solana_perf::packet::PacketBatch;
use vstd::prelude::*;

use crate::channel::senders_of;
use crate::channel::Offer;
use crate::channel::Outlet;
use crate::channel::SendStatus;
use crate::clock::Lapse;
use crate::counter::started_at;
use crate::counter::Ticket;
use crate::counter::TraceTickets;
use crate::error::ShredstreamProxyError;
use crate::filter::Asker;
use crate::filter::DedupCount;
use crate::metrics::BatchTimings;
use crate::metrics::ShredMetrics;
use crate::packet::batch_clone;
use crate::packet::batch_len;
use crate::packet::count_discarded;
use crate::packet::dedup_batch;
use crate::packet::deduplicated;
use crate::packet::every_discarded_packet_counts;
use crate::packet::packets;
use crate::packet::PacketView;
use crate::sources::counted_packets;
use crate::sources::sources;
use crate::trace::elapsed_us;
use crate::trace::finish_shared;
use crate::trace::mark;
use crate::trace::share;
use crate::trace::CountOff;

verus! {

/// What a shard receives over its channel: a batch, and its ticket for the trace of the batch
/// where times are measured.
pub type ShardMsg = (Arc<PacketBatch>, Option<Ticket>);

/// The sending ends of the channels of all shards.
pub type ShardSenderList = Vec<Sender<ShardMsg>>;

/// What became of a batch at one shard.
pub struct Dispatch {
    /// The offer that was made to the shard.
    pub offer: Offer<ShardMsg>,
    /// Where the shard could not be reached, its count in place of the shard's own.
    pub count_off: Option<CountOff>,
}

impl Dispatch {
    /// Whether the shard could not be reached.
    pub open spec fn dropped(self) -> bool {
        self.offer.spec_status() != SendStatus::Sent
    }

    /// The end-to-end time, where the coordinator counted off the last shard.
    pub open spec fn e2e_us(self) -> Option<u64> {
        match self.count_off {
            Some(count) => count.e2e_us(),
            None => None,
        }
    }

    /// Whether this is the dispatch of `msg`: what was offered is `msg`, and a shard that could
    /// not be reached is counted off the trace of `msg`, if it has one.
    pub open spec fn of(self, msg: ShardMsg) -> bool {
        &&& self.offer.message() == msg
        &&& self.count_off is Some <==> self.dropped() && msg.1 is Some
        &&& self.count_off matches Some(count) ==> (msg.1 matches Some(ticket) ==> count.of(
            *ticket.trace(),
        ))
    }
}

/// The number of shards that could not be reached.
pub open spec fn count_dropped(dispatches: Seq<Dispatch>) -> nat
    decreases dispatches.len(),
{
    if dispatches.len() == 0 {
        0
    } else {
        count_dropped(dispatches.drop_last()) + if dispatches.last().dropped() {
            1nat
        } else {
            0nat
        }
    }
}

/// The number of shards that the coordinator counted off itself.
pub open spec fn count_counted_off(dispatches: Seq<Dispatch>) -> nat
    decreases dispatches.len(),
{
    if dispatches.len() == 0 {
        0
    } else {
        count_counted_off(dispatches.drop_last()) + if dispatches.last().count_off is Some {
            1nat
        } else {
            0nat
        }
    }
}

/// The counters after each end-to-end time that these dispatches measured is recorded.
pub open spec fn after_counts(metrics: ShredMetrics, dispatches: Seq<Dispatch>) -> ShredMetrics
    decreases dispatches.len(),
{
    if dispatches.len() == 0 {
        metrics
    } else {
        after_counts(metrics, dispatches.drop_last()).after_e2e_option(dispatches.last().e2e_us())
    }
}

/// The counters after a batch was dispatched. Where no shard could be reached nothing is sent, so
/// there is no end-to-end time to record.
pub open spec fn after_dispatches(metrics: ShredMetrics, dispatches: Seq<Dispatch>) -> ShredMetrics {
    let dropped = count_dropped(dispatches);
    if dropped < dispatches.len() {
        after_counts(metrics, dispatches).after_dispatch(dropped as u64)
    } else {
        metrics.after_dispatch(dropped as u64)
    }
}

/// A ticket, if there are any.
fn issue_option(tickets: &mut Option<TraceTickets>) -> (ticket: Option<Ticket>)
    requires
        *old(tickets) matches Some(tickets) ==> tickets.left() > 0,
    ensures
        ticket == ticket_of(*old(tickets)),
        ticket_of(*final(tickets)) == ticket_of(*old(tickets)),
        left_of(*final(tickets)) == (if *old(tickets) is Some {
            (left_of(*old(tickets)) - 1) as nat
        } else {
            0
        }),
{
    match tickets {
        Some(tickets) => Some(tickets.issue()),
        None => None,
    }
}

/// What each of these tickets is, if there are any.
pub open spec fn ticket_of(tickets: Option<TraceTickets>) -> Option<Ticket> {
    match tickets {
        Some(tickets) => Some(tickets.ticket()),
        None => None,
    }
}

/// How many of these tickets have not been issued.
pub open spec fn left_of(tickets: Option<TraceTickets>) -> nat {
    match tickets {
        Some(tickets) => tickets.left(),
        None => 0,
    }
}

/// Offers a message to one shard, once, and counts the shard off where it could not be reached: the
/// ticket then comes back with the message and is given up in place of the shard.
fn dispatch_to(outlet: &mut Outlet<'_, ShardMsg>, msg: ShardMsg) -> (d: Dispatch)
    ensures
        final(outlet).sender() == old(outlet).sender(),
        final(outlet).offered() == old(outlet).offered().push(msg),
        d.offer.sender() == old(outlet).sender(),
        d.of(msg),
{
    let (offer, back) = outlet.offer(msg);
    let count_off = match back {
        Some((_, Some(ticket))) => Some(finish_shared(ticket)),
        _ => None,
    };
    Dispatch { offer, count_off }
}

/// Records the end-to-end time where the coordinator counted off the last shard.
fn record_counts(dispatches: &Vec<Dispatch>, metrics: &mut ShredMetrics)
    ensures
        *final(metrics) == after_counts(*old(metrics), dispatches@),
{
    let mut i: usize = 0;
    assert(dispatches@.take(0) =~= Seq::empty());
    while i < dispatches.len()
        invariant
            i <= dispatches.len(),
            *metrics == after_counts(*old(metrics), dispatches@.take(i as int)),
        decreases dispatches.len() - i,
    {
        if let Some(count) = &dispatches[i].count_off {
            if let Some(lapse) = &count.e2e {
                metrics.record_e2e(lapse.us());
            }
        }
        proof {
            assert(dispatches@.take(i + 1).drop_last() =~= dispatches@.take(i as int));
            assert(dispatches@.take(i + 1).last() == dispatches@[i as int]);
        }
        i = i + 1;
    }
    assert(dispatches@.take(i as int) =~= dispatches@);
}

/// Whether through each of these outlets `msg` was offered since, once, and nothing else.
pub open spec fn offered_once(
    before: Seq<Outlet<'_, ShardMsg>>,
    after: Seq<Outlet<'_, ShardMsg>>,
    msg: ShardMsg,
) -> bool {
    &&& after.len() == before.len()
    &&& forall|i: int| #![trigger after[i]]
        0 <= i < before.len() ==> after[i].sender() == before[i].sender() && after[i].offered()
            == before[i].offered().push(msg)
}

/// Offers a batch to every shard, once, and records which shards could not be reached and, unless
/// none could, the end-to-end time where the coordinator counted off the last shard. Every shard
/// gets one ticket, where there are any.
pub fn fan_out(
    outlets: &mut Vec<Outlet<'_, ShardMsg>>,
    batch: &Arc<PacketBatch>,
    tickets: &mut Option<TraceTickets>,
    metrics: &mut ShredMetrics,
) -> (dispatches: Vec<Dispatch>)
    requires
        *old(tickets) is Some ==> left_of(*old(tickets)) == old(outlets).len(),
    ensures
        offered_once(old(outlets)@, final(outlets)@, (*batch, ticket_of(*old(tickets)))),
        ticket_of(*final(tickets)) == ticket_of(*old(tickets)),
        left_of(*final(tickets)) == 0,
        final(outlets).len() == old(outlets).len(),
        forall|i: int| #![trigger final(outlets)[i]]
            0 <= i < old(outlets).len() ==> {
                &&& final(outlets)[i].sender() == old(outlets)[i].sender()
                &&& final(outlets)[i].offered() == old(outlets)[i].offered().push(
                    (*batch, ticket_of(*old(tickets))),
                )
            },
        final(metrics).worker_dropped_batches == old(metrics).worker_dropped_batches.wrapping_add(
            dispatches@.filter(|d: Dispatch| d.offer.spec_status() != SendStatus::Sent).len() as u64,
        ),
        dispatches.len() == old(outlets).len(),
        forall|i: int|
            0 <= i < dispatches.len() ==> (#[trigger] dispatches[i]).offer.sender() == old(
                outlets
            )[i].sender() && dispatches[i].of((*batch, ticket_of(*old(tickets)))),
        *final(metrics) == after_dispatches(*old(metrics), dispatches@),
        count_dropped(dispatches@) <= dispatches.len(),
{
    let ghost start = outlets@;
    let ghost msg = (*batch, ticket_of(*tickets));
    let n: usize = outlets.len();
    let mut dispatches: Vec<Dispatch> = Vec::new();
    let mut dropped: u64 = 0;
    let mut i: usize = 0;
    while i < n
        invariant
            i <= n,
            n == start.len(),
            start == old(outlets)@,
            msg == (*batch, ticket_of(*old(tickets))),
            outlets.len() == n,
            ticket_of(*tickets) == msg.1,
            *tickets is Some ==> left_of(*tickets) == n - i,
            forall|k: int|
                0 <= k < i ==> (#[trigger] outlets[k]).sender() == start[k].sender()
                    && outlets[k].offered() == start[k].offered().push(msg),
            forall|k: int| i <= k < n ==> #[trigger] outlets[k] == start[k],
            dispatches.len() == i,
            forall|k: int|
                0 <= k < dispatches.len() ==> (#[trigger] dispatches[k]).offer.sender()
                    == start[k].sender() && dispatches[k].of(msg),
            dropped == count_dropped(dispatches@),
            dropped <= i,
        decreases n - i,
    {
        let ghost before = dispatches@;
        let ticket = issue_option(tickets);
        let d = dispatch_to(&mut outlets[i], (share(batch), ticket));
        match d.offer.status() {
            SendStatus::Sent => {},
            _ => {
                dropped = dropped + 1;
            },
        }
        dispatches.push(d);
        proof {
            assert(dispatches@.drop_last() =~= before);
        }
        i = i + 1;
    }
    proof {
        lemma_counts_leave_the_rest(*metrics, dispatches@);
        every_failed_offer_counts(dispatches@);
    }
    if dropped < n as u64 {
        record_counts(&dispatches, metrics);
    }
    metrics.record_dispatch(dropped);
    dispatches
}

/// When a coordinator got to each part of its work on a batch.
pub struct BatchMarks {
    pub reconstruct: Instant,
    pub dedup: Instant,
    pub stats: Instant,
    pub fanout: Instant,
}

/// Where the time that a coordinator spent on one batch went.
pub struct BatchLapses {
    pub total: Lapse,
    pub dedup: Lapse,
    pub fanout: Lapse,
    pub stats: Lapse,
    pub reconstruct: Lapse,
}

impl BatchLapses {
    /// Whether the whole was measured from the reception of the batch on, and each part from when
    /// the coordinator got to it.
    pub open spec fn of(self, t_batch_start: Instant, marks: BatchMarks) -> bool {
        &&& self.total.measured_from(t_batch_start)
        &&& self.dedup.measured_from(marks.dedup)
        &&& self.fanout.measured_from(marks.fanout)
        &&& self.stats.measured_from(marks.stats)
        &&& self.reconstruct.measured_from(marks.reconstruct)
    }

    /// The times in microseconds.
    pub open spec fn spec_micros(self) -> BatchTimings {
        BatchTimings {
            total_us: self.total.value(),
            dedup_us: self.dedup.value(),
            fanout_us: self.fanout.value(),
            stats_us: self.stats.value(),
            reconstruct_us: self.reconstruct.value(),
        }
    }

    /// The times in microseconds.
    pub fn micros(&self) -> (timings: BatchTimings)
        ensures
            timings == self.spec_micros(),
            timings.total_us == self.total.value(),
            timings.dedup_us == self.dedup.value(),
            timings.fanout_us == self.fanout.value(),
            timings.stats_us == self.stats.value(),
            timings.reconstruct_us == self.reconstruct.value(),
    {
        BatchTimings {
            total_us: self.total.us(),
            dedup_us: self.dedup.us(),
            fanout_us: self.fanout.us(),
            stats_us: self.stats.us(),
            reconstruct_us: self.reconstruct.us(),
        }
    }
}

/// What a coordinator did with one batch.
pub struct BatchOutcome {
    /// The batch as it was dispatched.
    pub batch: Arc<PacketBatch>,
    /// What the filter for duplicates said of it.
    pub dedup: DedupCount,
    /// What became of its copy for reconstruction, where one was made.
    pub reconstruct: Option<Offer<PacketBatch>>,
    /// The tickets of its trace, all of them issued, where times are measured.
    pub tickets: Option<TraceTickets>,
    /// What became of it at each shard.
    pub dispatches: Vec<Dispatch>,
    /// When the parts of the work on it began and how long they took, where times are measured.
    pub times: Option<(BatchMarks, BatchLapses)>,
}

impl BatchOutcome {
    /// Whether this is the outcome of a batch that came in as `received`: with this filter, these
    /// channels, and this reading of the clock at its reception.
    pub open spec fn of(
        self,
        received: PacketBatch,
        deduper: Deduper<2, [u8]>,
        shard_senders: Seq<Sender<ShardMsg>>,
        should_reconstruct_shreds: bool,
        reconstruct_tx: Sender<PacketBatch>,
        t_batch_start: Option<Instant>,
    ) -> bool {
        // this filter, asked about what came in, marks duplicates, and they are counted once
        // however many shards there are
        &&& deduplicated(packets(received), packets(*self.batch))
        &&& self.dedup.count() == count_discarded(packets(*self.batch))
        &&& self.dedup.deduper() == deduper
        &&& self.dedup.asked() == packets(received)
        &&& self.dedup.answered() == packets(*self.batch)
        // the copy for reconstruction is made before, and offered to its channel
        &&& self.reconstruct is Some <==> should_reconstruct_shreds
        &&& self.reconstruct matches Some(offer) ==> offer.sender() == reconstruct_tx && packets(
            offer.message(),
        ) == packets(received)
        // every shard is offered the same batch and a ticket for the same trace, over its own
        // channel
        &&& self.dispatches.len() == shard_senders.len()
        &&& forall|i: int|
            0 <= i < self.dispatches.len() ==> (#[trigger] self.dispatches[i]).offer.sender()
                == shard_senders[i] && self.dispatches[i].of(self.message())
        // nothing is traced or timed unless asked for
        &&& self.tickets is Some <==> t_batch_start is Some
        &&& self.tickets matches Some(tickets) ==> tickets.left() == 0 && started_at(
            tickets.trace().shard_remaining,
        ) == shard_senders.len() as u32 && Some(tickets.trace().t_start) == t_batch_start
        &&& self.times is Some <==> t_batch_start is Some
        &&& self.times matches Some(times) ==> (t_batch_start matches Some(t_start)
            ==> times.1.of(t_start, times.0))
    }

    /// The message that every shard is offered.
    pub open spec fn message(self) -> ShardMsg {
        (self.batch, ticket_of(self.tickets))
    }

    /// The packets of the batch as it was dispatched.
    pub open spec fn dispatched(self) -> Seq<PacketView> {
        packets(*self.batch)
    }

    /// The number of packets in the batch.
    pub open spec fn num_packets(self) -> u64 {
        packets(*self.batch).len() as u64
    }

    /// The counters after this batch, beside the table of sources.
    pub open spec fn recorded(self, metrics: ShredMetrics) -> ShredMetrics {
        let received = metrics.after_receive(self.num_packets()).after_dedup(self.dedup.count());
        let dispatched = after_dispatches(received, self.dispatches@);
        match self.times {
            Some(times) => dispatched.after_forward(
                self.num_packets(),
                self.dispatches.len() as u64,
                times.1.spec_micros(),
            ),
            None => dispatched,
        }
    }
}

/// The time since a mark, if there is one.
fn since(mark: &Option<Instant>) -> (lapse: Option<Lapse>)
    ensures
        lapse is Some <==> mark is Some,
        lapse matches Some(lapse) ==> (*mark matches Some(mark) ==> lapse.measured_from(mark)),
{
    match mark {
        Some(mark) => Some(elapsed_us(mark)),
        None => None,
    }
}

/// Offers a copy of a batch to the thread that reconstructs shreds, once, if there is one. Where its
/// channel has no room the copy is dropped.
fn offer_for_reconstruction(
    batch: &PacketBatch,
    should_reconstruct_shreds: bool,
    reconstruct_outlet: &mut Outlet<'_, PacketBatch>,
) -> (reconstruct: Option<Offer<PacketBatch>>)
    ensures
        reconstruct is Some <==> should_reconstruct_shreds,
        final(reconstruct_outlet).sender() == old(reconstruct_outlet).sender(),
        final(reconstruct_outlet).offered() == offered_copy(
            old(reconstruct_outlet).offered(),
            reconstruct,
        ),
        reconstruct matches Some(offer) ==> offer.sender() == old(reconstruct_outlet).sender()
            && packets(offer.message()) == packets(*batch),
{
    if should_reconstruct_shreds {
        let (offer, _back) = reconstruct_outlet.offer(batch_clone(batch));
        Some(offer)
    } else {
        None
    }
}

/// The account of offers for reconstruction once this offer is made, if it is.
pub open spec fn offered_copy(
    offered: Seq<PacketBatch>,
    reconstruct: Option<Offer<PacketBatch>>,
) -> Seq<PacketBatch> {
    match reconstruct {
        Some(offer) => offered.push(offer.message()),
        None => offered,
    }
}

/// Starts the trace of a batch, if its reception was timed.
fn start_trace(t_batch_start: &Option<Instant>, num_dest: usize) -> (tickets: Option<TraceTickets>)
    ensures
        tickets is Some <==> *t_batch_start is Some,
        tickets matches Some(tickets) ==> tickets.left() == num_dest && started_at(
            tickets.trace().shard_remaining,
        ) == num_dest as u32 && Some(tickets.trace().t_start) == *t_batch_start,
{
    match t_batch_start {
        Some(t_start) => Some(TraceTickets::new(*t_start, num_dest)),
        None => None,
    }
}

/// Takes what a listener received, deduplicates it, counts its packets by source and dispatches
/// it to all shards, without copying its packets and without waiting for any shard.
///
/// `t_batch_start` is the reading of the clock at reception, from which the end-to-end time and
/// the total count. Without one no clock is read, no trace is made and no time is recorded.
///
/// The filter is asked once, and every channel is offered one message, or for reconstruction none
/// where that is not asked for; where nothing was received neither is done at all.
pub fn recv_from_channel_and_send_multiple_dest(
    maybe_packet_batch: Result<PacketBatch, RecvError>,
    asker: &mut Asker<'_>,
    outlets: &mut Vec<Outlet<'_, ShardMsg>>,
    should_reconstruct_shreds: bool,
    reconstruct_outlet: &mut Outlet<'_, PacketBatch>,
    t_batch_start: Option<Instant>,
    metrics: &mut ShredMetrics,
) -> (result: Result<BatchOutcome, ShredstreamProxyError>)
    ensures
        final(asker).deduper() == old(asker).deduper(),
        final(reconstruct_outlet).sender() == old(reconstruct_outlet).sender(),
        match maybe_packet_batch {
            Err(e) => result == Err::<BatchOutcome, _>(ShredstreamProxyError::RecvError(e))
                && *final(metrics) == *old(metrics) && final(asker).asked() == old(asker).asked()
                && *final(outlets) == *old(outlets) && final(reconstruct_outlet).offered() == old(
                reconstruct_outlet
            ).offered(),
            Ok(received) => result matches Ok(outcome) && outcome.of(
                received,
                old(asker).deduper(),
                senders_of(old(outlets)@),
                should_reconstruct_shreds,
                old(reconstruct_outlet).sender(),
                t_batch_start,
            ) && final(asker).asked() == old(asker).asked().push(packets(received))
                && offered_once(old(outlets)@, final(outlets)@, outcome.message()) && final(
                reconstruct_outlet
            ).offered() == offered_copy(
                old(reconstruct_outlet).offered(),
                outcome.reconstruct,
            ) && sources(final(metrics).packets_received) == counted_packets(
                sources(old(metrics).packets_received),
                packets(*outcome.batch),
            ) && *final(metrics) == (ShredMetrics {
                packets_received: final(metrics).packets_received,
                ..outcome.recorded(*old(metrics))
            }),
        },
        maybe_packet_batch is Ok <==> result is Ok,
        maybe_packet_batch matches Ok(received) ==> (result matches Ok(outcome) ==> {
            let before = *old(metrics);
            let after = *final(metrics);
            let sent = packets(*outcome.batch);
            let num = packets(received).len() as u64;
            // every packet that came in counts as received, and every one that is discarded as a
            // duplicate
            &&& sent.len() == packets(received).len()
            &&& after.received == before.received.wrapping_add(num)
            &&& after.duplicate == before.duplicate.wrapping_add(
                sent.filter(|packet: PacketView| packet.discard).len() as u64,
            )
            // every packet keeps its place, its source and its bytes
            &&& forall|i: int| #![trigger sent[i]]
                0 <= i < sent.len() ==> {
                    &&& sent[i].source == packets(received)[i].source
                    &&& sent[i].stored == packets(received)[i].stored
                    &&& packets(received)[i].discard ==> sent[i].discard
                }
            // every shard is offered this batch, once, and a ticket exactly if times are measured
            &&& final(outlets).len() == old(outlets).len()
            &&& forall|i: int| #![trigger final(outlets)[i]]
                0 <= i < old(outlets).len() ==> {
                    &&& final(outlets)[i].sender() == old(outlets)[i].sender()
                    &&& final(outlets)[i].offered().len() == old(outlets)[i].offered().len() + 1
                    &&& final(outlets)[i].offered().drop_last() == old(outlets)[i].offered()
                    &&& final(outlets)[i].offered().last().0 == outcome.batch
                    &&& final(outlets)[i].offered().last().1 is Some <==> t_batch_start is Some
                }
            // reconstruction is offered what came in, once, if it is wanted
            &&& !should_reconstruct_shreds ==> final(reconstruct_outlet).offered() == old(
                reconstruct_outlet
            ).offered()
            &&& should_reconstruct_shreds ==> {
                &&& final(reconstruct_outlet).offered().len() == old(
                    reconstruct_outlet
                ).offered().len() + 1
                &&& final(reconstruct_outlet).offered().drop_last() == old(
                    reconstruct_outlet
                ).offered()
                &&& packets(final(reconstruct_outlet).offered().last()) == packets(received)
            }
            // a shard that could not be reached counts as a dropped batch
            &&& outcome.dispatches.len() == old(outlets).len()
            &&& after.worker_dropped_batches == before.worker_dropped_batches.wrapping_add(
                outcome.dispatches@.filter(
                    |d: Dispatch| d.offer.spec_status() != SendStatus::Sent,
                ).len() as u64,
            )
            // a timed batch counts, with its packets, its shards and its times
            &&& outcome.times is Some <==> t_batch_start is Some
            &&& outcome.times matches Some(times) ==> {
                &&& Some(times.1.total.since()) == t_batch_start
                &&& after.forward_batches == before.forward_batches.wrapping_add(1)
                &&& after.forward_packets_in_batches
                    == before.forward_packets_in_batches.wrapping_add(num)
                &&& after.forward_dest_send_count == before.forward_dest_send_count.wrapping_add(
                    old(outlets).len() as u64,
                )
                &&& after.forward_total_us_sum == before.forward_total_us_sum.wrapping_add(
                    times.1.total.value(),
                )
                &&& after.forward_dedup_us_sum == before.forward_dedup_us_sum.wrapping_add(
                    times.1.dedup.value(),
                )
                &&& after.forward_fanout_send_us_sum
                    == before.forward_fanout_send_us_sum.wrapping_add(times.1.fanout.value())
                &&& after.forward_stats_us_sum == before.forward_stats_us_sum.wrapping_add(
                    times.1.stats.value(),
                )
                &&& after.forward_reconstruct_clone_us_sum
                    == before.forward_reconstruct_clone_us_sum.wrapping_add(
                    times.1.reconstruct.value(),
                )
                &&& after.forward_total_us_max >= before.forward_total_us_max
                &&& after.forward_total_us_max >= times.1.total.value()
                &&& after.forward_total_us_max == before.forward_total_us_max
                    || after.forward_total_us_max == times.1.total.value()
                &&& after.forward_fanout_send_us_max >= before.forward_fanout_send_us_max
                &&& after.forward_fanout_send_us_max >= times.1.fanout.value()
                &&& after.forward_fanout_send_us_max == before.forward_fanout_send_us_max
                    || after.forward_fanout_send_us_max == times.1.fanout.value()
            }
            &&& outcome.times is None ==> after == (ShredMetrics {
                received: after.received,
                duplicate: after.duplicate,
                packets_received: after.packets_received,
                worker_dropped_batches: after.worker_dropped_batches,
                ..before
            })
            // and nothing else changes
            &&& after == (ShredMetrics {
                received: after.received,
                duplicate: after.duplicate,
                packets_received: after.packets_received,
                worker_dropped_batches: after.worker_dropped_batches,
                forward_batches: after.forward_batches,
                forward_packets_in_batches: after.forward_packets_in_batches,
                forward_dest_send_count: after.forward_dest_send_count,
                forward_total_us_sum: after.forward_total_us_sum,
                forward_total_us_max: after.forward_total_us_max,
                forward_dedup_us_sum: after.forward_dedup_us_sum,
                forward_fanout_send_us_sum: after.forward_fanout_send_us_sum,
                forward_fanout_send_us_max: after.forward_fanout_send_us_max,
                forward_stats_us_sum: after.forward_stats_us_sum,
                forward_reconstruct_clone_us_sum: after.forward_reconstruct_clone_us_sum,
                e2e_batches: after.e2e_batches,
                e2e_us_sum: after.e2e_us_sum,
                e2e_us_max: after.e2e_us_max,
                ..before
            })
        }),
{
    let trace_on = t_batch_start.is_some();
    let mut packet_batch = match maybe_packet_batch {
        Ok(packet_batch) => packet_batch,
        Err(e) => {
            return Err(ShredstreamProxyError::RecvError(e));
        },
    };
    let batch_packet_count: u64 = batch_len(&packet_batch) as u64;
    metrics.record_receive(batch_packet_count);

    let t_before_reconstruct = mark(trace_on);
    let reconstruct = offer_for_reconstruction(
        &packet_batch,
        should_reconstruct_shreds,
        reconstruct_outlet,
    );
    let reconstruct_lapse = since(&t_before_reconstruct);

    let t_before_dedup = mark(trace_on);
    let dedup = dedup_batch(asker, &mut packet_batch);
    let dedup_lapse = since(&t_before_dedup);
    metrics.record_dedup(dedup.num_discarded());

    let t_before_stats = mark(trace_on);
    metrics.record_sources(&packet_batch);
    let stats_lapse = since(&t_before_stats);

    let batch = Arc::new(packet_batch);
    let t_before_fanout = mark(trace_on);
    let num_dest: usize = outlets.len();
    let mut tickets = start_trace(&t_batch_start, num_dest);
    let ghost counted = *metrics;
    let dispatches = fan_out(outlets, &batch, &mut tickets, metrics);
    let fanout_lapse = since(&t_before_fanout);
    let total_lapse = since(&t_batch_start);

    let marks = match (t_before_reconstruct, t_before_dedup, t_before_stats, t_before_fanout) {
        (Some(reconstruct), Some(dedup), Some(stats), Some(fanout)) => Some(
            BatchMarks { reconstruct, dedup, stats, fanout },
        ),
        _ => None,
    };
    let times = match (
        marks,
        total_lapse,
        dedup_lapse,
        fanout_lapse,
        stats_lapse,
        reconstruct_lapse,
    ) {
        (
            Some(marks),
            Some(total),
            Some(dedup),
            Some(fanout),
            Some(stats),
            Some(reconstruct),
        ) => {
            let lapses = BatchLapses { total, dedup, fanout, stats, reconstruct };
            metrics.record_forward(batch_packet_count, num_dest as u64, &lapses.micros());
            Some((marks, lapses))
        },
        _ => None,
    };
    proof {
        lemma_counts_leave_table(
            old(metrics).after_receive(batch_packet_count).after_dedup(dedup.count()),
            counted.packets_received,
            dispatches@,
        );
        lemma_counts_leave_the_rest(
            old(metrics).after_receive(batch_packet_count).after_dedup(dedup.count()),
            dispatches@,
        );
        lemma_counts_leave_the_rest(counted, dispatches@);
        every_failed_offer_counts(dispatches@);
        if t_batch_start is None {
            lemma_untraced_dispatches(counted, dispatches@, (batch, None));
        }
    }
    Ok(BatchOutcome { batch, dedup, reconstruct, tickets, dispatches, times })
}

/// What counting off records does not depend on the table of sources, and leaves it alone.
proof fn lemma_counts_leave_table(
    metrics: ShredMetrics,
    packets_received: crate::sources::SourceTable,
    dispatches: Seq<Dispatch>,
)
    ensures
        after_counts(ShredMetrics { packets_received, ..metrics }, dispatches) == (ShredMetrics {
            packets_received,
            ..after_counts(metrics, dispatches)
        }),
    decreases dispatches.len(),
{
    if dispatches.len() > 0 {
        lemma_counts_leave_table(metrics, packets_received, dispatches.drop_last());
    }
}

/// Counting off records end-to-end times and nothing else: one batch for each count that measured
/// one.
proof fn lemma_counts_leave_the_rest(metrics: ShredMetrics, dispatches: Seq<Dispatch>)
    ensures
        after_counts(metrics, dispatches) == (ShredMetrics {
            e2e_batches: after_counts(metrics, dispatches).e2e_batches,
            e2e_us_sum: after_counts(metrics, dispatches).e2e_us_sum,
            e2e_us_max: after_counts(metrics, dispatches).e2e_us_max,
            ..metrics
        }),
    decreases dispatches.len(),
{
    if dispatches.len() > 0 {
        lemma_counts_leave_the_rest(metrics, dispatches.drop_last());
    }
}

/// The count of shards that could not be reached is the number of offers that did not get into
/// their channel.
pub proof fn every_failed_offer_counts(dispatches: Seq<Dispatch>)
    ensures
        count_dropped(dispatches) == dispatches.filter(
            |d: Dispatch| d.offer.spec_status() != SendStatus::Sent,
        ).len(),
        count_dropped(dispatches) <= dispatches.len(),
    decreases dispatches.len(),
{
    reveal(Seq::filter);
    if dispatches.len() > 0 {
        every_failed_offer_counts(dispatches.drop_last());
    }
}

/// A batch is counted packet by packet: `received` grows by the number of its packets and
/// `duplicate` by the number of those that are discarded, one for each, however many there are and
/// however many shards the batch goes to.
pub proof fn batches_are_counted_packet_by_packet(
    metrics: ShredMetrics,
    outcome: BatchOutcome,
    received: PacketBatch,
    deduper: Deduper<2, [u8]>,
    shard_senders: Seq<Sender<ShardMsg>>,
    should_reconstruct_shreds: bool,
    reconstruct_tx: Sender<PacketBatch>,
    t_batch_start: Option<Instant>,
)
    requires
        outcome.of(
            received,
            deduper,
            shard_senders,
            should_reconstruct_shreds,
            reconstruct_tx,
            t_batch_start,
        ),
        packets(received).len() <= u64::MAX,
    ensures
        outcome.recorded(metrics).received == metrics.received.wrapping_add(
            packets(received).len() as u64,
        ),
        outcome.recorded(metrics).duplicate == metrics.duplicate.wrapping_add(
            packets(*outcome.batch).filter(|packet: PacketView| packet.discard).len() as u64,
        ),
        outcome.recorded(metrics).worker_dropped_batches
            == metrics.worker_dropped_batches.wrapping_add(
            outcome.dispatches@.filter(
                |d: Dispatch| d.offer.spec_status() != SendStatus::Sent,
            ).len() as u64,
        ),
        outcome.recorded(metrics).success_forward == metrics.success_forward,
        outcome.recorded(metrics).fail_forward == metrics.fail_forward,
{
    every_discarded_packet_counts(outcome.dispatched());
    every_failed_offer_counts(outcome.dispatches@);
    lemma_counts_leave_the_rest(
        metrics.after_receive(outcome.num_packets()).after_dedup(outcome.dedup.count()),
        outcome.dispatches@,
    );
}

/// Of a batch that was timed the total and the end-to-end time both count from its reception, and
/// the trace starts with one shard for each channel; a batch that was not timed has neither.
pub proof fn times_count_from_reception(
    outcome: BatchOutcome,
    received: PacketBatch,
    deduper: Deduper<2, [u8]>,
    shard_senders: Seq<Sender<ShardMsg>>,
    should_reconstruct_shreds: bool,
    reconstruct_tx: Sender<PacketBatch>,
    t_batch_start: Option<Instant>,
)
    requires
        outcome.of(
            received,
            deduper,
            shard_senders,
            should_reconstruct_shreds,
            reconstruct_tx,
            t_batch_start,
        ),
    ensures
        t_batch_start is None ==> outcome.times is None && outcome.tickets is None,
        t_batch_start matches Some(t_start) ==> {
            &&& outcome.times matches Some(times) && times.1.total.since() == t_start
            &&& outcome.tickets matches Some(tickets) && tickets.trace().t_start == t_start
                && started_at(tickets.trace().shard_remaining) == shard_senders.len() as u32
        },
        forall|i: int| #![trigger outcome.dispatches[i]]
            0 <= i < outcome.dispatches.len() ==> {
                &&& outcome.dispatches[i].offer.sender() == shard_senders[i]
                &&& outcome.dispatches[i].offer.message().0 == outcome.batch
                &&& outcome.dispatches[i].offer.message().1 is Some <==> t_batch_start is Some
                &&& outcome.dispatches[i].count_off is Some <==> t_batch_start is Some
                    && outcome.dispatches[i].offer.spec_status() != SendStatus::Sent
            },
{
}

/// Where one count of the coordinator measured the end of a batch that reached a shard, and no other
/// did, that time is recorded: one batch more, its time in the sum, and in the maximum if it is
/// the longest.
pub proof fn measured_end_is_recorded(metrics: ShredMetrics, dispatches: Seq<Dispatch>, i: int, k: int)
    requires
        0 <= i < dispatches.len(),
        0 <= k < dispatches.len(),
        dispatches[k].offer.spec_status() == SendStatus::Sent,
        dispatches[i].count_off matches Some(count) && count.e2e is Some,
        forall|j: int|
            0 <= j < dispatches.len() && j != i ==> ((#[trigger] dispatches[j]).count_off matches Some(
                count,
            ) ==> count.e2e is None),
    ensures
        ({
            let us = dispatches[i].count_off.unwrap().e2e.unwrap().value();
            let after = after_dispatches(metrics, dispatches);
            &&& after.e2e_batches == metrics.e2e_batches.wrapping_add(1)
            &&& after.e2e_us_sum == metrics.e2e_us_sum.wrapping_add(us)
            &&& after.e2e_us_max >= metrics.e2e_us_max
            &&& after.e2e_us_max >= us
            &&& after.e2e_us_max == metrics.e2e_us_max || after.e2e_us_max == us
        }),
{
    lemma_one_end(metrics, dispatches, i);
    lemma_reached_is_not_dropped(dispatches, k);
}

/// Counts that measured nothing record nothing.
proof fn lemma_no_end(metrics: ShredMetrics, dispatches: Seq<Dispatch>)
    requires
        forall|j: int|
            0 <= j < dispatches.len() ==> ((#[trigger] dispatches[j]).count_off matches Some(count)
                ==> count.e2e is None),
    ensures
        after_counts(metrics, dispatches) == metrics,
    decreases dispatches.len(),
{
    if dispatches.len() > 0 {
        let rest = dispatches.drop_last();
        assert forall|j: int| 0 <= j < rest.len() implies ((#[trigger] rest[j]).count_off matches Some(
            count,
        ) ==> count.e2e is None) by {
            assert(rest[j] == dispatches[j]);
        }
        lemma_no_end(metrics, rest);
        assert(dispatches.last() == dispatches[dispatches.len() - 1]);
    }
}

/// The one count that measured the end is recorded.
proof fn lemma_one_end(metrics: ShredMetrics, dispatches: Seq<Dispatch>, i: int)
    requires
        0 <= i < dispatches.len(),
        dispatches[i].count_off matches Some(count) && count.e2e is Some,
        forall|j: int|
            0 <= j < dispatches.len() && j != i ==> ((#[trigger] dispatches[j]).count_off matches Some(
                count,
            ) ==> count.e2e is None),
    ensures
        after_counts(metrics, dispatches) == metrics.after_e2e(
            dispatches[i].count_off.unwrap().e2e.unwrap().value(),
        ),
    decreases dispatches.len(),
{
    let rest = dispatches.drop_last();
    assert(dispatches.last() == dispatches[dispatches.len() - 1]);
    if i == dispatches.len() - 1 {
        assert forall|j: int| 0 <= j < rest.len() implies ((#[trigger] rest[j]).count_off matches Some(
            count,
        ) ==> count.e2e is None) by {
            assert(rest[j] == dispatches[j]);
        }
        lemma_no_end(metrics, rest);
    } else {
        assert(rest[i] == dispatches[i]);
        assert forall|j: int| 0 <= j < rest.len() && j != i implies ((
        #[trigger] rest[j]).count_off matches Some(count) ==> count.e2e is None) by {
            assert(rest[j] == dispatches[j]);
        }
        lemma_one_end(metrics, rest, i);
    }
}

/// Where a shard was reached not all are counted as dropped.
proof fn lemma_reached_is_not_dropped(dispatches: Seq<Dispatch>, k: int)
    requires
        0 <= k < dispatches.len(),
        dispatches[k].offer.spec_status() == SendStatus::Sent,
    ensures
        count_dropped(dispatches) < dispatches.len(),
    decreases dispatches.len(),
{
    let rest = dispatches.drop_last();
    assert(dispatches.last() == dispatches[dispatches.len() - 1]);
    every_failed_offer_counts(rest);
    if k < rest.len() {
        assert(rest[k] == dispatches[k]);
        lemma_reached_is_not_dropped(rest, k);
    }
}

/// Of a traced batch exactly the shards that could not be reached are counted off by the
/// coordinator; with one count by each of the others, every shard is counted off exactly once.
pub proof fn every_shard_counted_off_once(dispatches: Seq<Dispatch>, msg: ShardMsg)
    requires
        msg.1 is Some,
        forall|i: int| 0 <= i < dispatches.len() ==> (#[trigger] dispatches[i]).of(msg),
    ensures
        count_counted_off(dispatches) == count_dropped(dispatches),
        count_dropped(dispatches) <= dispatches.len(),
    decreases dispatches.len(),
{
    if dispatches.len() > 0 {
        assert(dispatches.last() == dispatches[dispatches.len() - 1]);
        assert forall|i: int| 0 <= i < dispatches.drop_last().len() implies (
        #[trigger] dispatches.drop_last()[i]).of(msg) by {
            assert(dispatches.drop_last()[i] == dispatches[i]);
        }
        every_shard_counted_off_once(dispatches.drop_last(), msg);
    }
}

/// A batch that no shard could be reached with records no end-to-end time, although all of its
/// shards are counted off.
pub proof fn unreached_batch_records_no_end_to_end_time(
    metrics: ShredMetrics,
    dispatches: Seq<Dispatch>,
)
    requires
        forall|i: int| 0 <= i < dispatches.len() ==> (#[trigger] dispatches[i]).dropped(),
    ensures
        count_dropped(dispatches) == dispatches.len(),
        after_dispatches(metrics, dispatches) == metrics.after_dispatch(dispatches.len() as u64),
    decreases dispatches.len(),
{
    if dispatches.len() > 0 {
        let rest = dispatches.drop_last();
        assert(dispatches.last() == dispatches[dispatches.len() - 1]);
        assert forall|i: int| 0 <= i < rest.len() implies (#[trigger] rest[i]).dropped() by {
            assert(rest[i] == dispatches[i]);
        }
        unreached_batch_records_no_end_to_end_time(metrics, rest);
    }
}

/// Without a trace a batch leaves no mark on the times: the counters of the coordinators, of the
/// shards and of the barrier stay as they were, except for the count of shards that could not
/// be reached.
pub proof fn untraced_batch_records_no_times(
    metrics: ShredMetrics,
    outcome: BatchOutcome,
    received: PacketBatch,
    deduper: Deduper<2, [u8]>,
    shard_senders: Seq<Sender<ShardMsg>>,
    should_reconstruct_shreds: bool,
    reconstruct_tx: Sender<PacketBatch>,
)
    requires
        outcome.of(
            received,
            deduper,
            shard_senders,
            should_reconstruct_shreds,
            reconstruct_tx,
            None,
        ),
    ensures
        outcome.recorded(metrics) == (ShredMetrics {
            received: outcome.recorded(metrics).received,
            duplicate: outcome.recorded(metrics).duplicate,
            worker_dropped_batches: outcome.recorded(metrics).worker_dropped_batches,
            ..metrics
        }),
{
    lemma_untraced_dispatches(
        metrics.after_receive(outcome.num_packets()).after_dedup(outcome.dedup.count()),
        outcome.dispatches@,
        outcome.message(),
    );
}

/// Dispatches without a trace measure nothing.
proof fn lemma_untraced_dispatches(
    metrics: ShredMetrics,
    dispatches: Seq<Dispatch>,
    msg: ShardMsg,
)
    requires
        msg.1 is None,
        forall|i: int| 0 <= i < dispatches.len() ==> (#[trigger] dispatches[i]).of(msg),
    ensures
        after_counts(metrics, dispatches) == metrics,
    decreases dispatches.len(),
{
    if dispatches.len() > 0 {
        assert(dispatches.last() == dispatches[dispatches.len() - 1]);
        assert forall|i: int| 0 <= i < dispatches.drop_last().len() implies (
        #[trigger] dispatches.drop_last()[i]).of(msg) by {
            assert(dispatches.drop_last()[i] == dispatches[i]);
        }
        lemma_untraced_dispatches(metrics, dispatches.drop_last(), msg);
    }
}

} // verus!
