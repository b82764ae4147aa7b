//! Counters that a thread keeps for itself and hands over.
//!
//! A thread measures and records on counters of its own, and has them absorbed by the shared ones
//! afterwards, so that no time is measured while it waits for the others.
use vstd::prelude::*;

use crate::addr::SourceKey;
use crate::coordinator::after_counts;
use crate::coordinator::after_dispatches;
use crate::coordinator::count_dropped;
use crate::coordinator::BatchOutcome;
use crate::coordinator::Dispatch;
use crate::metrics::larger;
use crate::metrics::update_max;
use crate::metrics::BatchTimings;
use crate::metrics::ShredMetrics;
use crate::shard::recorded_shard_batch;
use crate::shard::ShardOutcome;
use crate::sources::absorb_sources;
use crate::sources::merged_sources;
use crate::sources::sources;
use crate::sources::SourceCounts;

verus! {

/// Moves a count into another one. Sums wrap around.
fn move_count(sum: &mut u64, count: &mut u64)
    ensures
        *final(sum) == old(sum).wrapping_add(*old(count)),
        *final(count) == 0,
{
    *sum = sum.wrapping_add(*count);
    *count = 0;
}

/// Moves a maximum into another one.
fn move_max(max: &mut u64, other: &mut u64)
    ensures
        *final(max) == larger(*old(max), *old(other)),
        *final(other) == 0,
{
    update_max(max, *other);
    *other = 0;
}

impl ShredMetrics {
    /// These counters and others put together, beside the table of sources: sums are added, and of
    /// maxima the larger one is kept. The number of destinations is no count and stays.
    #[verifier::opaque]
    pub open spec fn merged(self, other: ShredMetrics) -> ShredMetrics {
        ShredMetrics {
            received: self.received.wrapping_add(other.received),
            success_forward: self.success_forward.wrapping_add(other.success_forward),
            fail_forward: self.fail_forward.wrapping_add(other.fail_forward),
            duplicate: self.duplicate.wrapping_add(other.duplicate),
            recovered_count: self.recovered_count.wrapping_add(other.recovered_count),
            entry_count: self.entry_count.wrapping_add(other.entry_count),
            txn_count: self.txn_count.wrapping_add(other.txn_count),
            unknown_start_position_count: self.unknown_start_position_count.wrapping_add(other.unknown_start_position_count),
            fec_recovery_error_count: self.fec_recovery_error_count.wrapping_add(other.fec_recovery_error_count),
            bincode_deserialize_error_count: self.bincode_deserialize_error_count.wrapping_add(other.bincode_deserialize_error_count),
            unknown_start_position_error_count: self.unknown_start_position_error_count.wrapping_add(other.unknown_start_position_error_count),
            forward_batches: self.forward_batches.wrapping_add(other.forward_batches),
            forward_packets_in_batches: self.forward_packets_in_batches.wrapping_add(other.forward_packets_in_batches),
            forward_dest_send_count: self.forward_dest_send_count.wrapping_add(other.forward_dest_send_count),
            forward_total_us_sum: self.forward_total_us_sum.wrapping_add(other.forward_total_us_sum),
            forward_dedup_us_sum: self.forward_dedup_us_sum.wrapping_add(other.forward_dedup_us_sum),
            forward_fanout_send_us_sum: self.forward_fanout_send_us_sum.wrapping_add(other.forward_fanout_send_us_sum),
            forward_stats_us_sum: self.forward_stats_us_sum.wrapping_add(other.forward_stats_us_sum),
            forward_reconstruct_clone_us_sum: self.forward_reconstruct_clone_us_sum.wrapping_add(other.forward_reconstruct_clone_us_sum),
            forward_max_per_dest_us_sum: self.forward_max_per_dest_us_sum.wrapping_add(other.forward_max_per_dest_us_sum),
            worker_batches: self.worker_batches.wrapping_add(other.worker_batches),
            worker_send_us_sum: self.worker_send_us_sum.wrapping_add(other.worker_send_us_sum),
            worker_packets_sent: self.worker_packets_sent.wrapping_add(other.worker_packets_sent),
            worker_dropped_batches: self.worker_dropped_batches.wrapping_add(other.worker_dropped_batches),
            e2e_batches: self.e2e_batches.wrapping_add(other.e2e_batches),
            e2e_us_sum: self.e2e_us_sum.wrapping_add(other.e2e_us_sum),
            agg_received_cumulative: self.agg_received_cumulative.wrapping_add(other.agg_received_cumulative),
            agg_success_forward_cumulative: self.agg_success_forward_cumulative.wrapping_add(other.agg_success_forward_cumulative),
            agg_fail_forward_cumulative: self.agg_fail_forward_cumulative.wrapping_add(other.agg_fail_forward_cumulative),
            duplicate_cumulative: self.duplicate_cumulative.wrapping_add(other.duplicate_cumulative),
            forward_total_us_max: larger(self.forward_total_us_max, other.forward_total_us_max),
            forward_fanout_send_us_max: larger(self.forward_fanout_send_us_max, other.forward_fanout_send_us_max),
            forward_per_dest_us_max: larger(self.forward_per_dest_us_max, other.forward_per_dest_us_max),
            worker_send_us_max: larger(self.worker_send_us_max, other.worker_send_us_max),
            e2e_us_max: larger(self.e2e_us_max, other.e2e_us_max),
            ..self
        }
    }

    /// Moves everything that is counted in `other` into these counters.
    pub fn absorb(&mut self, other: &mut ShredMetrics)
        ensures
            *final(self) == (ShredMetrics {
                packets_received: final(self).packets_received,
                ..old(self).merged(*old(other))
            }),
            sources(final(self).packets_received) == merged_sources(
                sources(old(self).packets_received),
                sources(old(other).packets_received),
            ),
            *final(other) == (ShredMetrics {
                worker_count: old(other).worker_count,
                ..ShredMetrics::zeroed(
                    old(other).enabled_grpc_service,
                    final(other).packets_received,
                )
            }),
            sources(final(other).packets_received) == (Map::<SourceKey, SourceCounts>::empty()),
            final(self).received == old(self).received.wrapping_add(old(other).received),
            final(other).received == 0,
            final(self).success_forward == old(self).success_forward.wrapping_add(old(other).success_forward),
            final(other).success_forward == 0,
            final(self).fail_forward == old(self).fail_forward.wrapping_add(old(other).fail_forward),
            final(other).fail_forward == 0,
            final(self).duplicate == old(self).duplicate.wrapping_add(old(other).duplicate),
            final(other).duplicate == 0,
            final(self).recovered_count == old(self).recovered_count.wrapping_add(old(other).recovered_count),
            final(other).recovered_count == 0,
            final(self).entry_count == old(self).entry_count.wrapping_add(old(other).entry_count),
            final(other).entry_count == 0,
            final(self).txn_count == old(self).txn_count.wrapping_add(old(other).txn_count),
            final(other).txn_count == 0,
            final(self).unknown_start_position_count == old(self).unknown_start_position_count.wrapping_add(old(other).unknown_start_position_count),
            final(other).unknown_start_position_count == 0,
            final(self).fec_recovery_error_count == old(self).fec_recovery_error_count.wrapping_add(old(other).fec_recovery_error_count),
            final(other).fec_recovery_error_count == 0,
            final(self).bincode_deserialize_error_count == old(self).bincode_deserialize_error_count.wrapping_add(old(other).bincode_deserialize_error_count),
            final(other).bincode_deserialize_error_count == 0,
            final(self).unknown_start_position_error_count == old(self).unknown_start_position_error_count.wrapping_add(old(other).unknown_start_position_error_count),
            final(other).unknown_start_position_error_count == 0,
            final(self).forward_batches == old(self).forward_batches.wrapping_add(old(other).forward_batches),
            final(other).forward_batches == 0,
            final(self).forward_packets_in_batches == old(self).forward_packets_in_batches.wrapping_add(old(other).forward_packets_in_batches),
            final(other).forward_packets_in_batches == 0,
            final(self).forward_dest_send_count == old(self).forward_dest_send_count.wrapping_add(old(other).forward_dest_send_count),
            final(other).forward_dest_send_count == 0,
            final(self).forward_total_us_sum == old(self).forward_total_us_sum.wrapping_add(old(other).forward_total_us_sum),
            final(other).forward_total_us_sum == 0,
            final(self).forward_dedup_us_sum == old(self).forward_dedup_us_sum.wrapping_add(old(other).forward_dedup_us_sum),
            final(other).forward_dedup_us_sum == 0,
            final(self).forward_fanout_send_us_sum == old(self).forward_fanout_send_us_sum.wrapping_add(old(other).forward_fanout_send_us_sum),
            final(other).forward_fanout_send_us_sum == 0,
            final(self).forward_stats_us_sum == old(self).forward_stats_us_sum.wrapping_add(old(other).forward_stats_us_sum),
            final(other).forward_stats_us_sum == 0,
            final(self).forward_reconstruct_clone_us_sum == old(self).forward_reconstruct_clone_us_sum.wrapping_add(old(other).forward_reconstruct_clone_us_sum),
            final(other).forward_reconstruct_clone_us_sum == 0,
            final(self).forward_max_per_dest_us_sum == old(self).forward_max_per_dest_us_sum.wrapping_add(old(other).forward_max_per_dest_us_sum),
            final(other).forward_max_per_dest_us_sum == 0,
            final(self).worker_batches == old(self).worker_batches.wrapping_add(old(other).worker_batches),
            final(other).worker_batches == 0,
            final(self).worker_send_us_sum == old(self).worker_send_us_sum.wrapping_add(old(other).worker_send_us_sum),
            final(other).worker_send_us_sum == 0,
            final(self).worker_packets_sent == old(self).worker_packets_sent.wrapping_add(old(other).worker_packets_sent),
            final(other).worker_packets_sent == 0,
            final(self).worker_dropped_batches == old(self).worker_dropped_batches.wrapping_add(old(other).worker_dropped_batches),
            final(other).worker_dropped_batches == 0,
            final(self).e2e_batches == old(self).e2e_batches.wrapping_add(old(other).e2e_batches),
            final(other).e2e_batches == 0,
            final(self).e2e_us_sum == old(self).e2e_us_sum.wrapping_add(old(other).e2e_us_sum),
            final(other).e2e_us_sum == 0,
            final(self).agg_received_cumulative == old(self).agg_received_cumulative.wrapping_add(old(other).agg_received_cumulative),
            final(other).agg_received_cumulative == 0,
            final(self).agg_success_forward_cumulative == old(self).agg_success_forward_cumulative.wrapping_add(old(other).agg_success_forward_cumulative),
            final(other).agg_success_forward_cumulative == 0,
            final(self).agg_fail_forward_cumulative == old(self).agg_fail_forward_cumulative.wrapping_add(old(other).agg_fail_forward_cumulative),
            final(other).agg_fail_forward_cumulative == 0,
            final(self).duplicate_cumulative == old(self).duplicate_cumulative.wrapping_add(old(other).duplicate_cumulative),
            final(other).duplicate_cumulative == 0,
            final(self).forward_total_us_max >= old(self).forward_total_us_max,
            final(self).forward_total_us_max >= old(other).forward_total_us_max,
            final(self).forward_total_us_max == old(self).forward_total_us_max || final(self).forward_total_us_max == old(other).forward_total_us_max,
            final(other).forward_total_us_max == 0,
            final(self).forward_fanout_send_us_max >= old(self).forward_fanout_send_us_max,
            final(self).forward_fanout_send_us_max >= old(other).forward_fanout_send_us_max,
            final(self).forward_fanout_send_us_max == old(self).forward_fanout_send_us_max || final(self).forward_fanout_send_us_max == old(other).forward_fanout_send_us_max,
            final(other).forward_fanout_send_us_max == 0,
            final(self).forward_per_dest_us_max >= old(self).forward_per_dest_us_max,
            final(self).forward_per_dest_us_max >= old(other).forward_per_dest_us_max,
            final(self).forward_per_dest_us_max == old(self).forward_per_dest_us_max || final(self).forward_per_dest_us_max == old(other).forward_per_dest_us_max,
            final(other).forward_per_dest_us_max == 0,
            final(self).worker_send_us_max >= old(self).worker_send_us_max,
            final(self).worker_send_us_max >= old(other).worker_send_us_max,
            final(self).worker_send_us_max == old(self).worker_send_us_max || final(self).worker_send_us_max == old(other).worker_send_us_max,
            final(other).worker_send_us_max == 0,
            final(self).e2e_us_max >= old(self).e2e_us_max,
            final(self).e2e_us_max >= old(other).e2e_us_max,
            final(self).e2e_us_max == old(self).e2e_us_max || final(self).e2e_us_max == old(other).e2e_us_max,
            final(other).e2e_us_max == 0,
            final(self).worker_count == old(self).worker_count,
            final(self).enabled_grpc_service == old(self).enabled_grpc_service,
    {
        reveal(ShredMetrics::merged);
        absorb_sources(&mut self.packets_received, &mut other.packets_received);
        move_count(&mut self.received, &mut other.received);
        move_count(&mut self.success_forward, &mut other.success_forward);
        move_count(&mut self.fail_forward, &mut other.fail_forward);
        move_count(&mut self.duplicate, &mut other.duplicate);
        move_count(&mut self.recovered_count, &mut other.recovered_count);
        move_count(&mut self.entry_count, &mut other.entry_count);
        move_count(&mut self.txn_count, &mut other.txn_count);
        move_count(&mut self.unknown_start_position_count, &mut other.unknown_start_position_count);
        move_count(&mut self.fec_recovery_error_count, &mut other.fec_recovery_error_count);
        move_count(&mut self.bincode_deserialize_error_count, &mut other.bincode_deserialize_error_count);
        move_count(&mut self.unknown_start_position_error_count, &mut other.unknown_start_position_error_count);
        move_count(&mut self.forward_batches, &mut other.forward_batches);
        move_count(&mut self.forward_packets_in_batches, &mut other.forward_packets_in_batches);
        move_count(&mut self.forward_dest_send_count, &mut other.forward_dest_send_count);
        move_count(&mut self.forward_total_us_sum, &mut other.forward_total_us_sum);
        move_count(&mut self.forward_dedup_us_sum, &mut other.forward_dedup_us_sum);
        move_count(&mut self.forward_fanout_send_us_sum, &mut other.forward_fanout_send_us_sum);
        move_count(&mut self.forward_stats_us_sum, &mut other.forward_stats_us_sum);
        move_count(&mut self.forward_reconstruct_clone_us_sum, &mut other.forward_reconstruct_clone_us_sum);
        move_count(&mut self.forward_max_per_dest_us_sum, &mut other.forward_max_per_dest_us_sum);
        move_count(&mut self.worker_batches, &mut other.worker_batches);
        move_count(&mut self.worker_send_us_sum, &mut other.worker_send_us_sum);
        move_count(&mut self.worker_packets_sent, &mut other.worker_packets_sent);
        move_count(&mut self.worker_dropped_batches, &mut other.worker_dropped_batches);
        move_count(&mut self.e2e_batches, &mut other.e2e_batches);
        move_count(&mut self.e2e_us_sum, &mut other.e2e_us_sum);
        move_count(&mut self.agg_received_cumulative, &mut other.agg_received_cumulative);
        move_count(&mut self.agg_success_forward_cumulative, &mut other.agg_success_forward_cumulative);
        move_count(&mut self.agg_fail_forward_cumulative, &mut other.agg_fail_forward_cumulative);
        move_count(&mut self.duplicate_cumulative, &mut other.duplicate_cumulative);
        move_max(&mut self.forward_total_us_max, &mut other.forward_total_us_max);
        move_max(&mut self.forward_fanout_send_us_max, &mut other.forward_fanout_send_us_max);
        move_max(&mut self.forward_per_dest_us_max, &mut other.forward_per_dest_us_max);
        move_max(&mut self.worker_send_us_max, &mut other.worker_send_us_max);
        move_max(&mut self.e2e_us_max, &mut other.e2e_us_max);
    }
}

/// Counters that are all zero add nothing.
proof fn lemma_nothing_to_absorb(metrics: ShredMetrics, apart: ShredMetrics)
    requires
        apart == ShredMetrics::zeroed(apart.enabled_grpc_service, apart.packets_received),
    ensures
        metrics.merged(apart) == metrics,
{
    reveal(ShredMetrics::merged);
}

/// The order in which the counters of two threads are absorbed does not matter.
pub proof fn absorbing_commutes(metrics: ShredMetrics, a: ShredMetrics, b: ShredMetrics)
    ensures
        metrics.merged(a).merged(b) == metrics.merged(b).merged(a),
{
    reveal(ShredMetrics::merged);
}

/// What is recorded on counters that are absorbed afterwards is recorded on the absorbing ones.
pub proof fn records_carry_over(
    metrics: ShredMetrics,
    apart: ShredMetrics,
    packets: u64,
    num_dest: u64,
    timings: BatchTimings,
    sent: u64,
    failed: u64,
    us: u64,
)
    ensures
        metrics.merged(apart.after_receive(packets)) == metrics.merged(apart).after_receive(
            packets,
        ),
        metrics.merged(apart.after_dedup(packets)) == metrics.merged(apart).after_dedup(packets),
        metrics.merged(apart.after_dispatch(packets)) == metrics.merged(apart).after_dispatch(
            packets,
        ),
        metrics.merged(apart.after_e2e(us)) == metrics.merged(apart).after_e2e(us),
        metrics.merged(apart.after_forward(packets, num_dest, timings)) == metrics.merged(
            apart,
        ).after_forward(packets, num_dest, timings),
        metrics.merged(apart.after_send(sent, failed)) == metrics.merged(apart).after_send(
            sent,
            failed,
        ),
        metrics.merged(apart.after_shard_batch(packets, us)) == metrics.merged(
            apart,
        ).after_shard_batch(packets, us),
{
    reveal(ShredMetrics::merged);
}

/// What could not be dispatched is recorded on the absorbing counters too.
proof fn lemma_dispatch_carries_over(metrics: ShredMetrics, apart: ShredMetrics, dropped: u64)
    ensures
        metrics.merged(apart.after_dispatch(dropped)) == metrics.merged(apart).after_dispatch(
            dropped,
        ),
{
    reveal(ShredMetrics::merged);
}

/// So are the end-to-end times that a coordinator measured.
proof fn lemma_counts_carry_over(
    metrics: ShredMetrics,
    apart: ShredMetrics,
    dispatches: Seq<Dispatch>,
)
    ensures
        metrics.merged(after_counts(apart, dispatches)) == after_counts(
            metrics.merged(apart),
            dispatches,
        ),
    decreases dispatches.len(),
{
    if dispatches.len() > 0 {
        lemma_counts_carry_over(metrics, apart, dispatches.drop_last());
        let rest = after_counts(apart, dispatches.drop_last());
        reveal(ShredMetrics::merged);
        assert(metrics.merged(rest.after_e2e_option(dispatches.last().e2e_us())) == metrics.merged(
            rest,
        ).after_e2e_option(dispatches.last().e2e_us()));
    }
}

/// And so is all that dispatching a batch records.
proof fn lemma_dispatches_carry_over(
    metrics: ShredMetrics,
    apart: ShredMetrics,
    dispatches: Seq<Dispatch>,
)
    ensures
        metrics.merged(after_dispatches(apart, dispatches)) == after_dispatches(
            metrics.merged(apart),
            dispatches,
        ),
{
    let dropped = count_dropped(dispatches) as u64;
    let counted = after_counts(apart, dispatches);
    lemma_counts_carry_over(metrics, apart, dispatches);
    lemma_dispatch_carries_over(metrics, apart, dropped);
    lemma_dispatch_carries_over(metrics, counted, dropped);
}

/// A batch that a coordinator records on counters of its own, which are all zero, and that are
/// absorbed afterwards, is recorded as if it had been recorded in place.
pub proof fn recording_apart_is_recording(
    metrics: ShredMetrics,
    apart: ShredMetrics,
    outcome: BatchOutcome,
)
    requires
        apart == ShredMetrics::zeroed(apart.enabled_grpc_service, apart.packets_received),
    ensures
        metrics.merged(outcome.recorded(apart)) == outcome.recorded(metrics),
{
    let packets = outcome.num_packets();
    let shards = outcome.dispatches.len() as u64;
    let timings = match outcome.times {
        Some(times) => times.1.spec_micros(),
        None => arbitrary(),
    };
    let received = apart.after_receive(packets);
    let deduped = received.after_dedup(outcome.dedup.count());
    let dispatched = after_dispatches(deduped, outcome.dispatches@);
    lemma_nothing_to_absorb(metrics, apart);
    records_carry_over(metrics, apart, packets, shards, timings, 0, 0, 0);
    records_carry_over(metrics, received, outcome.dedup.count(), shards, timings, 0, 0, 0);
    lemma_dispatches_carry_over(metrics, deduped, outcome.dispatches@);
    records_carry_over(metrics, dispatched, packets, shards, timings, 0, 0, 0);
}

/// So is a batch that a shard records on counters of its own.
pub proof fn shard_recording_apart_is_recording(
    metrics: ShredMetrics,
    apart: ShredMetrics,
    sent: u64,
    failed: u64,
    num_packets: u64,
    outcome: ShardOutcome,
)
    requires
        apart == ShredMetrics::zeroed(apart.enabled_grpc_service, apart.packets_received),
    ensures
        metrics.merged(
            recorded_shard_batch(
                apart.after_send(sent, failed),
                num_packets,
                outcome.send_us(),
            ).after_e2e_option(outcome.e2e_us()),
        ) == recorded_shard_batch(
            metrics.after_send(sent, failed),
            num_packets,
            outcome.send_us(),
        ).after_e2e_option(outcome.e2e_us()),
{
    reveal(ShredMetrics::merged);
}

/// Absorbing loses no count: as long as nothing overflows, each count afterwards is the sum of the
/// two before, and each maximum the larger of the two. The number of destinations stays.
pub proof fn absorbing_loses_nothing(metrics: ShredMetrics, other: ShredMetrics)
    ensures
        ({
            let merged = metrics.merged(other);
            &&& metrics.received + other.received <= u64::MAX ==> merged.received == metrics.received
                + other.received
            &&& metrics.success_forward + other.success_forward <= u64::MAX ==> merged.success_forward == metrics.success_forward
                + other.success_forward
            &&& metrics.fail_forward + other.fail_forward <= u64::MAX ==> merged.fail_forward == metrics.fail_forward
                + other.fail_forward
            &&& metrics.duplicate + other.duplicate <= u64::MAX ==> merged.duplicate == metrics.duplicate
                + other.duplicate
            &&& metrics.recovered_count + other.recovered_count <= u64::MAX ==> merged.recovered_count == metrics.recovered_count
                + other.recovered_count
            &&& metrics.entry_count + other.entry_count <= u64::MAX ==> merged.entry_count == metrics.entry_count
                + other.entry_count
            &&& metrics.txn_count + other.txn_count <= u64::MAX ==> merged.txn_count == metrics.txn_count
                + other.txn_count
            &&& metrics.unknown_start_position_count + other.unknown_start_position_count <= u64::MAX ==> merged.unknown_start_position_count == metrics.unknown_start_position_count
                + other.unknown_start_position_count
            &&& metrics.fec_recovery_error_count + other.fec_recovery_error_count <= u64::MAX ==> merged.fec_recovery_error_count == metrics.fec_recovery_error_count
                + other.fec_recovery_error_count
            &&& metrics.bincode_deserialize_error_count + other.bincode_deserialize_error_count <= u64::MAX ==> merged.bincode_deserialize_error_count == metrics.bincode_deserialize_error_count
                + other.bincode_deserialize_error_count
            &&& metrics.unknown_start_position_error_count + other.unknown_start_position_error_count <= u64::MAX ==> merged.unknown_start_position_error_count == metrics.unknown_start_position_error_count
                + other.unknown_start_position_error_count
            &&& metrics.forward_batches + other.forward_batches <= u64::MAX ==> merged.forward_batches == metrics.forward_batches
                + other.forward_batches
            &&& metrics.forward_packets_in_batches + other.forward_packets_in_batches <= u64::MAX ==> merged.forward_packets_in_batches == metrics.forward_packets_in_batches
                + other.forward_packets_in_batches
            &&& metrics.forward_dest_send_count + other.forward_dest_send_count <= u64::MAX ==> merged.forward_dest_send_count == metrics.forward_dest_send_count
                + other.forward_dest_send_count
            &&& metrics.forward_total_us_sum + other.forward_total_us_sum <= u64::MAX ==> merged.forward_total_us_sum == metrics.forward_total_us_sum
                + other.forward_total_us_sum
            &&& metrics.forward_dedup_us_sum + other.forward_dedup_us_sum <= u64::MAX ==> merged.forward_dedup_us_sum == metrics.forward_dedup_us_sum
                + other.forward_dedup_us_sum
            &&& metrics.forward_fanout_send_us_sum + other.forward_fanout_send_us_sum <= u64::MAX ==> merged.forward_fanout_send_us_sum == metrics.forward_fanout_send_us_sum
                + other.forward_fanout_send_us_sum
            &&& metrics.forward_stats_us_sum + other.forward_stats_us_sum <= u64::MAX ==> merged.forward_stats_us_sum == metrics.forward_stats_us_sum
                + other.forward_stats_us_sum
            &&& metrics.forward_reconstruct_clone_us_sum + other.forward_reconstruct_clone_us_sum <= u64::MAX ==> merged.forward_reconstruct_clone_us_sum == metrics.forward_reconstruct_clone_us_sum
                + other.forward_reconstruct_clone_us_sum
            &&& metrics.forward_max_per_dest_us_sum + other.forward_max_per_dest_us_sum <= u64::MAX ==> merged.forward_max_per_dest_us_sum == metrics.forward_max_per_dest_us_sum
                + other.forward_max_per_dest_us_sum
            &&& metrics.worker_batches + other.worker_batches <= u64::MAX ==> merged.worker_batches == metrics.worker_batches
                + other.worker_batches
            &&& metrics.worker_send_us_sum + other.worker_send_us_sum <= u64::MAX ==> merged.worker_send_us_sum == metrics.worker_send_us_sum
                + other.worker_send_us_sum
            &&& metrics.worker_packets_sent + other.worker_packets_sent <= u64::MAX ==> merged.worker_packets_sent == metrics.worker_packets_sent
                + other.worker_packets_sent
            &&& metrics.worker_dropped_batches + other.worker_dropped_batches <= u64::MAX ==> merged.worker_dropped_batches == metrics.worker_dropped_batches
                + other.worker_dropped_batches
            &&& metrics.e2e_batches + other.e2e_batches <= u64::MAX ==> merged.e2e_batches == metrics.e2e_batches
                + other.e2e_batches
            &&& metrics.e2e_us_sum + other.e2e_us_sum <= u64::MAX ==> merged.e2e_us_sum == metrics.e2e_us_sum
                + other.e2e_us_sum
            &&& metrics.agg_received_cumulative + other.agg_received_cumulative <= u64::MAX ==> merged.agg_received_cumulative == metrics.agg_received_cumulative
                + other.agg_received_cumulative
            &&& metrics.agg_success_forward_cumulative + other.agg_success_forward_cumulative <= u64::MAX ==> merged.agg_success_forward_cumulative == metrics.agg_success_forward_cumulative
                + other.agg_success_forward_cumulative
            &&& metrics.agg_fail_forward_cumulative + other.agg_fail_forward_cumulative <= u64::MAX ==> merged.agg_fail_forward_cumulative == metrics.agg_fail_forward_cumulative
                + other.agg_fail_forward_cumulative
            &&& metrics.duplicate_cumulative + other.duplicate_cumulative <= u64::MAX ==> merged.duplicate_cumulative == metrics.duplicate_cumulative
                + other.duplicate_cumulative
            &&& merged.forward_total_us_max >= metrics.forward_total_us_max
            &&& merged.forward_total_us_max >= other.forward_total_us_max
            &&& merged.forward_total_us_max == metrics.forward_total_us_max || merged.forward_total_us_max == other.forward_total_us_max
            &&& merged.forward_fanout_send_us_max >= metrics.forward_fanout_send_us_max
            &&& merged.forward_fanout_send_us_max >= other.forward_fanout_send_us_max
            &&& merged.forward_fanout_send_us_max == metrics.forward_fanout_send_us_max || merged.forward_fanout_send_us_max == other.forward_fanout_send_us_max
            &&& merged.forward_per_dest_us_max >= metrics.forward_per_dest_us_max
            &&& merged.forward_per_dest_us_max >= other.forward_per_dest_us_max
            &&& merged.forward_per_dest_us_max == metrics.forward_per_dest_us_max || merged.forward_per_dest_us_max == other.forward_per_dest_us_max
            &&& merged.worker_send_us_max >= metrics.worker_send_us_max
            &&& merged.worker_send_us_max >= other.worker_send_us_max
            &&& merged.worker_send_us_max == metrics.worker_send_us_max || merged.worker_send_us_max == other.worker_send_us_max
            &&& merged.e2e_us_max >= metrics.e2e_us_max
            &&& merged.e2e_us_max >= other.e2e_us_max
            &&& merged.e2e_us_max == metrics.e2e_us_max || merged.e2e_us_max == other.e2e_us_max
            &&& merged.worker_count == metrics.worker_count
            &&& merged.enabled_grpc_service == metrics.enabled_grpc_service
            &&& merged.packets_received == metrics.packets_received
        }),
{
    reveal(ShredMetrics::merged);
}

} // verus!
