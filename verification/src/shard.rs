//! What a send shard does: poll its channel, and send each batch to its destinations.
use std::time::Instant;

use solana_perf::packet::PacketBatch;
use vstd::prelude::*;

use crate::clock::Lapse;
use crate::counter::Ticket;
use crate::metrics::ShredMetrics;
use crate::packet::batch_len;
use crate::packet::packets;
use crate::sendmmsg::SendReport;
use crate::trace::elapsed_us;
use crate::trace::finish_shared;
use crate::trace::CountOff;

verus! {

/// The fewest send shards.
pub const MIN_SEND_SHARDS: usize = 2;

/// The most send shards.
pub const MAX_SEND_SHARDS: usize = 16;

/// The parallelism to reckon with where that of the machine is not known.
pub const DEFAULT_PARALLELISM: usize = 8;

/// The number of send shards for a machine.
pub open spec fn send_shards(parallelism: Option<usize>) -> usize {
    let quarter = parallelism.unwrap_or(DEFAULT_PARALLELISM) / 4;
    if quarter < MIN_SEND_SHARDS {
        MIN_SEND_SHARDS
    } else if quarter > MAX_SEND_SHARDS {
        MAX_SEND_SHARDS
    } else {
        quarter
    }
}

/// Picks the number of send shards. Every shard keeps a core busy, so it is a quarter of the
/// parallelism that the machine offers, within limits.
pub fn compute_send_shards(parallelism: Option<usize>) -> (n: usize)
    ensures
        n == send_shards(parallelism),
        MIN_SEND_SHARDS <= n <= MAX_SEND_SHARDS,
        2 <= n <= 16,
        parallelism matches Some(cores) ==> {
            &&& cores < 12 ==> n == 2
            &&& 8 <= cores < 68 ==> 4 * n <= cores < 4 * n + 4
            &&& cores >= 64 ==> n == 16
        },
        parallelism is None ==> n == 2,
{
    let quarter: usize = parallelism.unwrap_or(DEFAULT_PARALLELISM) / 4;
    if quarter < MIN_SEND_SHARDS {
        MIN_SEND_SHARDS
    } else if quarter > MAX_SEND_SHARDS {
        MAX_SEND_SHARDS
    } else {
        quarter
    }
}

/// There are a quarter as many shards as cores, rounded down, as long as that is from 2 to 16, and
/// else the nearest of the two; more cores never mean fewer shards.
pub proof fn shards_are_a_quarter_of_the_cores(cores: usize, more: usize)
    requires
        cores <= more,
    ensures
        2 <= send_shards(Some(cores)) <= send_shards(Some(more)) <= 16,
        4 * send_shards(Some(cores)) > cores || send_shards(Some(cores)) == 16 || cores - 4
            * send_shards(Some(cores)) < 4,
        send_shards(Some(cores)) > 2 ==> 4 * send_shards(Some(cores)) <= cores,
        send_shards(Some(cores)) < 16 ==> cores < 4 * send_shards(Some(cores)) + 4,
        send_shards(None) == send_shards(Some(8)),
{
}

/// What a shard finds when it polls its channel.
#[derive(Clone, Copy, Debug, PartialEq, Eq, Structural)]
pub enum ShardPoll {
    Message,
    Empty,
    Disconnected,
}

/// What a shard does next.
#[derive(Clone, Copy, Debug, PartialEq, Eq, Structural)]
pub enum ShardAction {
    /// Send the batch of the message.
    Send,
    /// Poll again, without giving up the core.
    Spin,
    /// End the thread.
    Exit,
}

/// What a shard does next: it sends as long as there are messages, and ends once there are none
/// and it is asked to, or once none can come.
pub fn shard_action(poll: ShardPoll, exit: bool) -> (action: ShardAction)
    ensures
        action == ShardAction::Send <==> poll == ShardPoll::Message,
        action == ShardAction::Spin <==> poll == ShardPoll::Empty && !exit,
        action == ShardAction::Exit <==> poll == ShardPoll::Disconnected || (poll
            == ShardPoll::Empty && exit),
{
    match poll {
        ShardPoll::Message => ShardAction::Send,
        ShardPoll::Empty => if exit {
            ShardAction::Exit
        } else {
            ShardAction::Spin
        },
        ShardPoll::Disconnected => ShardAction::Exit,
    }
}

/// Progress of sending one batch to the destinations of a shard, one after the other.
pub struct ShardSend<E> {
    t_send: Option<Instant>,
    num_dests: usize,
    num_payloads: usize,
    counts: PairCounts,
    first_err: Option<E>,
}

/// How many destinations are done with, and how many pairs were sent to them and were not.
struct PairCounts {
    next_dest: usize,
    total_sent: u64,
    total_failed: u64,
}

/// What the progress of a shard stands for.
pub struct SendState<E> {
    /// When the batch was taken from the channel, where times are measured.
    pub t_send: Option<Instant>,
    /// Number of destinations.
    pub num_dests: nat,
    /// Number of payloads that each destination is to receive.
    pub num_payloads: nat,
    /// Number of destinations that are done with.
    pub next_dest: nat,
    /// Number of (packet, destination) pairs that were sent.
    pub total_sent: nat,
    /// Number of (packet, destination) pairs that were not.
    pub total_failed: nat,
    /// The first error of a destination.
    pub first_err: Option<E>,
}

/// What sending a batch came to at one shard.
pub struct ShardOutcome {
    /// The time that sending took, where times are measured.
    pub send: Option<Lapse>,
    /// The shard's count, where the batch has a trace.
    pub count_off: Option<CountOff>,
}

impl ShardOutcome {
    /// The time that sending took in microseconds, where times are measured.
    pub open spec fn send_us(self) -> Option<u64> {
        match self.send {
            Some(lapse) => Some(lapse.value()),
            None => None,
        }
    }

    /// Whether the shard gave up this ticket, if it had one, to count itself off.
    pub open spec fn counted_off(self, ticket: Option<Ticket>) -> bool {
        &&& self.count_off is Some <==> ticket is Some
        &&& self.count_off matches Some(count) ==> (ticket matches Some(ticket) ==> count.of(
            *ticket.trace(),
        ))
    }

    /// The end-to-end time, where this was the last shard of the batch.
    pub open spec fn e2e_us(self) -> Option<u64> {
        match self.count_off {
            Some(count) => count.e2e_us(),
            None => None,
        }
    }
}

impl<E> SendState<E> {
    /// Before the first destination.
    pub open spec fn at_start(t_send: Option<Instant>, num_dests: nat, num_payloads: nat) -> Self {
        SendState {
            t_send,
            num_dests,
            num_payloads,
            next_dest: 0,
            total_sent: 0,
            total_failed: 0,
            first_err: None,
        }
    }

    /// As many pairs are counted as there are payloads for the destinations that are done with, and
    /// all pairs together can be counted.
    pub open spec fn well_formed(self) -> bool {
        &&& self.next_dest <= self.num_dests
        &&& self.num_dests * self.num_payloads <= u64::MAX
        &&& self.total_sent + self.total_failed == self.next_dest * self.num_payloads
    }

    /// Whether nothing is left to send. Where there are no payloads no destination is served.
    pub open spec fn done(self) -> bool {
        self.num_payloads == 0 || self.next_dest == self.num_dests
    }

    /// The progress after one more destination: the payloads that were sent to it count as sent,
    /// and the others as failed.
    pub open spec fn after(self, report: SendReport<E>) -> Self {
        SendState {
            next_dest: self.next_dest + 1,
            total_sent: self.total_sent + report.sent as nat,
            total_failed: (self.total_failed + self.num_payloads - report.sent) as nat,
            first_err: if self.first_err is None {
                report.err
            } else {
                self.first_err
            },
            ..self
        }
    }

    /// The progress after these destinations.
    pub open spec fn replayed(
        t_send: Option<Instant>,
        num_dests: nat,
        num_payloads: nat,
        reports: Seq<SendReport<E>>,
    ) -> Self
        decreases reports.len(),
    {
        if reports.len() == 0 {
            SendState::at_start(t_send, num_dests, num_payloads)
        } else {
            SendState::replayed(t_send, num_dests, num_payloads, reports.drop_last()).after(
                reports.last(),
            )
        }
    }
}

impl<E> View for ShardSend<E> {
    type V = SendState<E>;

    closed spec fn view(&self) -> SendState<E> {
        SendState {
            t_send: self.t_send,
            num_dests: self.num_dests as nat,
            num_payloads: self.num_payloads as nat,
            next_dest: self.counts.next_dest as nat,
            total_sent: self.counts.total_sent as nat,
            total_failed: self.counts.total_failed as nat,
            first_err: self.first_err,
        }
    }
}

impl<E> ShardSend<E> {
    #[verifier::type_invariant]
    spec fn inv(self) -> bool {
        self@.well_formed()
    }

    /// Starts on a batch with so many payloads. `t_send` is the reading of the clock when the batch
    /// was taken from the channel, where times are measured.
    pub fn start(num_dests: usize, num_payloads: usize, t_send: Option<Instant>) -> (send: Self)
        requires
            num_dests * num_payloads <= u64::MAX,
        ensures
            send@ == SendState::<E>::at_start(t_send, num_dests as nat, num_payloads as nat),
            send@.t_send == t_send,
            send@.num_dests == num_dests,
            send@.num_payloads == num_payloads,
            send@.next_dest == 0,
            send@.total_sent == 0,
            send@.total_failed == 0,
            send@.first_err is None,
    {
        ShardSend {
            t_send,
            num_dests,
            num_payloads,
            counts: PairCounts { next_dest: 0, total_sent: 0, total_failed: 0 },
            first_err: None,
        }
    }

    /// The destination to send to next; `None` once nothing is left to send.
    pub fn next(&self) -> (dest: Option<usize>)
        ensures
            dest is None <==> self@.done(),
            dest is None <==> self@.num_payloads == 0 || self@.next_dest == self@.num_dests,
            dest matches Some(i) ==> i == self@.next_dest && i < self@.num_dests,
    {
        proof {
            use_type_invariant(self);
        }
        if self.num_payloads > 0 && self.counts.next_dest < self.num_dests {
            Some(self.counts.next_dest)
        } else {
            None
        }
    }

    /// Takes what sending to the next destination came to.
    pub fn on_sent(&mut self, report: SendReport<E>)
        requires
            !old(self)@.done(),
            report.sent <= old(self)@.num_payloads,
        ensures
            final(self)@ == old(self)@.after(report),
            final(self)@.t_send == old(self)@.t_send,
            final(self)@.num_dests == old(self)@.num_dests,
            final(self)@.num_payloads == old(self)@.num_payloads,
            final(self)@.next_dest == old(self)@.next_dest + 1,
            final(self)@.total_sent == old(self)@.total_sent + report.sent,
            final(self)@.total_failed + report.sent == old(self)@.total_failed + old(self)@.num_payloads,
            old(self)@.first_err is Some ==> final(self)@.first_err == old(self)@.first_err,
            old(self)@.first_err is None ==> final(self)@.first_err == report.err,
    {
        proof {
            use_type_invariant(&*self);
            let payloads = self.num_payloads as int;
            let done = self.counts.next_dest as int;
            let dests = self.num_dests as int;
            assert((done + 1) * payloads == done * payloads + payloads) by (nonlinear_arith);
            assert((done + 1) * payloads <= dests * payloads) by (nonlinear_arith)
                requires
                    0 <= payloads,
                    done + 1 <= dests,
            ;
        }
        let failed: u64 = (self.num_payloads - report.sent) as u64;
        self.counts = PairCounts {
            next_dest: self.counts.next_dest + 1,
            total_sent: self.counts.total_sent + report.sent as u64,
            total_failed: self.counts.total_failed + failed,
        };
        if self.first_err.is_none() {
            self.first_err = report.err;
        }
    }

    /// Number of (packet, destination) pairs that were sent.
    pub fn total_sent(&self) -> (n: u64)
        ensures
            n == self@.total_sent,
    {
        self.counts.total_sent
    }

    /// Number of (packet, destination) pairs that were not sent.
    pub fn total_failed(&self) -> (n: u64)
        ensures
            n == self@.total_failed,
    {
        self.counts.total_failed
    }

    /// The first error of a destination, if there is one.
    pub fn first_err(&self) -> (err: &Option<E>)
        ensures
            *err == self@.first_err,
    {
        &self.first_err
    }

    /// Records a batch that the shard is done with, and counts the shard off its trace, once: its
    /// ticket is used up.
    pub fn finish(
        &self,
        batch: &PacketBatch,
        ticket: Option<Ticket>,
        metrics: &mut ShredMetrics,
    ) -> (outcome: ShardOutcome)
        requires
            self@.done(),
        ensures
            outcome.send is Some <==> self@.t_send is Some,
            outcome.send matches Some(lapse) ==> (self@.t_send matches Some(t_send)
                ==> lapse.measured_from(t_send)),
            outcome.counted_off(ticket),
            outcome.count_off is Some <==> ticket is Some,
            self@.total_sent + self@.total_failed == self@.num_dests * self@.num_payloads,
            ({
                let before = *old(metrics);
                let after = *final(metrics);
                let num = packets(*batch).len() as u64;
                // every pair is counted, as sent or as failed
                &&& after.success_forward == before.success_forward.wrapping_add(
                    self@.total_sent as u64,
                )
                &&& after.fail_forward == before.fail_forward.wrapping_add(
                    self@.total_failed as u64,
                )
                // a timed shard counts its batch, its packets and its time
                &&& outcome.send matches Some(lapse) ==> {
                    &&& after.worker_batches == before.worker_batches.wrapping_add(1)
                    &&& after.worker_packets_sent == before.worker_packets_sent.wrapping_add(num)
                    &&& after.worker_send_us_sum == before.worker_send_us_sum.wrapping_add(
                        lapse.value(),
                    )
                    &&& is_larger(
                        after.worker_send_us_max,
                        before.worker_send_us_max,
                        lapse.value(),
                    )
                }
                &&& outcome.send is None ==> {
                    &&& after.worker_batches == before.worker_batches
                    &&& after.worker_packets_sent == before.worker_packets_sent
                    &&& after.worker_send_us_sum == before.worker_send_us_sum
                    &&& after.worker_send_us_max == before.worker_send_us_max
                }
                // the last shard counts the end of the batch
                &&& outcome.count_off matches Some(count) ==> after_e2e_of(before, after, count.e2e)
                &&& outcome.count_off is None ==> after_e2e_of(before, after, None)
                // and nothing else changes
                &&& after == (ShredMetrics {
                    success_forward: after.success_forward,
                    fail_forward: after.fail_forward,
                    worker_batches: after.worker_batches,
                    worker_packets_sent: after.worker_packets_sent,
                    worker_send_us_sum: after.worker_send_us_sum,
                    worker_send_us_max: after.worker_send_us_max,
                    e2e_batches: after.e2e_batches,
                    e2e_us_sum: after.e2e_us_sum,
                    e2e_us_max: after.e2e_us_max,
                    ..before
                })
            }),
            *final(metrics) == recorded_shard_batch(
                old(metrics).after_send(self@.total_sent as u64, self@.total_failed as u64),
                packets(*batch).len() as u64,
                outcome.send_us(),
            ).after_e2e_option(outcome.e2e_us()),
    {
        proof {
            use_type_invariant(self);
            if self.num_payloads == 0 {
                assert(self@.next_dest * self@.num_payloads == 0) by (nonlinear_arith)
                    requires
                        self@.num_payloads == 0,
                ;
                assert(self@.num_dests * self@.num_payloads == 0) by (nonlinear_arith)
                    requires
                        self@.num_payloads == 0,
                ;
            }
        }
        metrics.record_send(self.counts.total_sent, self.counts.total_failed);
        let send = match &self.t_send {
            Some(t_send) => {
                let lapse = elapsed_us(t_send);
                metrics.record_shard_batch(batch_len(batch) as u64, lapse.us());
                Some(lapse)
            },
            None => None,
        };
        let count_off = match ticket {
            Some(ticket) => {
                let count = finish_shared(ticket);
                if let Some(lapse) = &count.e2e {
                    metrics.record_e2e(lapse.us());
                }
                Some(count)
            },
            None => None,
        };
        ShardOutcome { send, count_off }
    }
}

/// Whether of two values this is the larger one.
pub open spec fn is_larger(max: u64, a: u64, b: u64) -> bool {
    &&& max >= a
    &&& max >= b
    &&& max == a || max == b
}

/// Whether the end of a batch was counted between the two: with this time, or not at all where
/// there is none.
pub open spec fn after_e2e_of(before: ShredMetrics, after: ShredMetrics, e2e: Option<Lapse>) -> bool {
    match e2e {
        Some(lapse) => {
            &&& after.e2e_batches == before.e2e_batches.wrapping_add(1)
            &&& after.e2e_us_sum == before.e2e_us_sum.wrapping_add(lapse.value())
            &&& is_larger(after.e2e_us_max, before.e2e_us_max, lapse.value())
        },
        None => {
            &&& after.e2e_batches == before.e2e_batches
            &&& after.e2e_us_sum == before.e2e_us_sum
            &&& after.e2e_us_max == before.e2e_us_max
        },
    }
}

/// The counters after a shard was timed, if it was.
pub open spec fn recorded_shard_batch(
    metrics: ShredMetrics,
    num_packets: u64,
    send_us: Option<u64>,
) -> ShredMetrics {
    match send_us {
        Some(us) => metrics.after_shard_batch(num_packets, us),
        None => metrics,
    }
}

/// A shard that does not measure times, and whose batch has no trace, records what it sent and
/// failed to send, and nothing else.
pub proof fn untimed_shard_records_no_times(
    metrics: ShredMetrics,
    sent: u64,
    failed: u64,
    num_packets: u64,
    outcome: ShardOutcome,
)
    requires
        outcome.send is None,
        outcome.count_off is None,
    ensures
        recorded_shard_batch(
            metrics.after_send(sent, failed),
            num_packets,
            outcome.send_us(),
        ).after_e2e_option(outcome.e2e_us()) == (ShredMetrics {
            success_forward: metrics.success_forward.wrapping_add(sent),
            fail_forward: metrics.fail_forward.wrapping_add(failed),
            ..metrics
        }),
{
}

/// The number of payloads that were sent to these destinations, all together.
pub open spec fn sum_sent<E>(reports: Seq<SendReport<E>>) -> nat
    decreases reports.len(),
{
    if reports.len() == 0 {
        0
    } else {
        sum_sent(reports.drop_last()) + reports.last().sent as nat
    }
}

/// The first error of these destinations.
pub open spec fn first_error<E>(reports: Seq<SendReport<E>>) -> Option<E>
    decreases reports.len(),
{
    if reports.len() == 0 {
        None
    } else if first_error(reports.drop_last()) is Some {
        first_error(reports.drop_last())
    } else {
        reports.last().err
    }
}

/// Destinations are served in order, each once, and every (packet, destination) pair is counted
/// exactly once: as sent where it was sent, and as failed otherwise.
pub proof fn every_pair_counted_once<E>(
    t_send: Option<Instant>,
    num_dests: nat,
    num_payloads: nat,
    reports: Seq<SendReport<E>>,
)
    requires
        forall|i: int| 0 <= i < reports.len() ==> (#[trigger] reports[i]).sent <= num_payloads,
    ensures
        ({
            let send = SendState::replayed(t_send, num_dests, num_payloads, reports);
            &&& send.next_dest == reports.len()
            &&& send.num_dests == num_dests
            &&& send.num_payloads == num_payloads
            &&& send.t_send == t_send
            &&& send.total_sent == sum_sent(reports)
            &&& send.total_sent + send.total_failed == reports.len() * num_payloads
            &&& send.first_err == first_error(reports)
        }),
    decreases reports.len(),
{
    if reports.len() > 0 {
        let rest = reports.drop_last();
        assert forall|i: int| 0 <= i < rest.len() implies (#[trigger] rest[i]).sent
            <= num_payloads by {
            assert(rest[i] == reports[i]);
        }
        every_pair_counted_once(t_send, num_dests, num_payloads, rest);
        assert(reports.last() == reports[reports.len() - 1]);
        let done = rest.len() as int;
        let payloads = num_payloads as int;
        assert((done + 1) * payloads == done * payloads + payloads) by (nonlinear_arith);
        assert(reports.len() * num_payloads == (done + 1) * payloads);
    }
}

/// A batch that has payloads is sent to every destination of a shard, whatever becomes of it at the
/// others: as long as a destination was not served there is something left to send, and once all
/// were served there is nothing. By then every (packet, destination) pair is counted.
pub proof fn every_destination_is_served<E>(
    t_send: Option<Instant>,
    num_dests: nat,
    num_payloads: nat,
    reports: Seq<SendReport<E>>,
)
    requires
        num_payloads > 0,
        reports.len() <= num_dests,
        forall|i: int| 0 <= i < reports.len() ==> (#[trigger] reports[i]).sent <= num_payloads,
    ensures
        ({
            let send = SendState::replayed(t_send, num_dests, num_payloads, reports);
            &&& send.done() <==> reports.len() == num_dests
            &&& send.done() ==> send.total_sent + send.total_failed == num_dests * num_payloads
        }),
{
    every_pair_counted_once(t_send, num_dests, num_payloads, reports);
}

/// What one destination more adds to the counts depends on how much of the batch it was sent, and
/// on nothing that was reported before; an error is kept unless there is an earlier one.
pub proof fn destinations_count_apart<E>(
    t_send: Option<Instant>,
    num_dests: nat,
    num_payloads: nat,
    reports: Seq<SendReport<E>>,
    report: SendReport<E>,
)
    requires
        forall|i: int| 0 <= i < reports.len() ==> (#[trigger] reports[i]).sent <= num_payloads,
        report.sent <= num_payloads,
    ensures
        ({
            let before = SendState::replayed(t_send, num_dests, num_payloads, reports);
            let after = SendState::replayed(t_send, num_dests, num_payloads, reports.push(report));
            &&& after.total_sent - before.total_sent == report.sent
            &&& after.total_failed - before.total_failed == num_payloads - report.sent
            &&& after.next_dest - before.next_dest == 1
            &&& after.first_err == (if before.first_err is Some {
                before.first_err
            } else {
                report.err
            })
        }),
{
    assert(reports.push(report).drop_last() =~= reports);
    assert(reports.push(report).last() == report);
    every_pair_counted_once(t_send, num_dests, num_payloads, reports);
}

} // verus!
