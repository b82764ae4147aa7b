//! Counters of the forwarder.
use solana_perf::packet::PacketBatch;
use vstd::prelude::*;

use crate::addr::SourceKey;
use crate::packet::packets;
use crate::sources::count_batch;
use crate::sources::counted_packets;
use crate::sources::new_table;
use crate::sources::sources;
use crate::sources::SourceCounts;
use crate::sources::SourceTable;

verus! {

/// Counters of the forwarder. Sums wrap around.
pub struct ShredMetrics {
    // receive stats
    /// Total number of shreds received, duplicates included.
    pub received: u64,
    /// Number of (packet, destination) pairs that were sent.
    pub success_forward: u64,
    /// Number of (packet, destination) pairs that could not be sent.
    pub fail_forward: u64,
    /// Number of packets that were discarded as duplicates.
    pub duplicate: u64,
    /// Packets by source: how many were discarded, how many were not.
    pub packets_received: SourceTable,
    // service metrics
    /// Whether the decoded-entries service runs, and its counters are to be reported.
    pub enabled_grpc_service: bool,
    /// Number of data shreds recovered using coding shreds.
    pub recovered_count: u64,
    /// Number of entries decoded from shreds.
    pub entry_count: u64,
    /// Number of transactions decoded from shreds.
    pub txn_count: u64,
    /// Number of times the previous data-complete flag could not be found.
    pub unknown_start_position_count: u64,
    /// Number of recovery errors.
    pub fec_recovery_error_count: u64,
    /// Number of entries that could not be deserialized.
    pub bincode_deserialize_error_count: u64,
    /// Number of failed attempts to decode entries without the previous data-complete flag.
    pub unknown_start_position_error_count: u64,
    // forwarding performance, per reporting interval
    /// Number of batches handled.
    pub forward_batches: u64,
    /// Number of packets in those batches.
    pub forward_packets_in_batches: u64,
    /// Number of shards that those batches were dispatched to.
    pub forward_dest_send_count: u64,
    /// Handling time of all batches, in microseconds.
    pub forward_total_us_sum: u64,
    /// Longest handling time of one batch, in microseconds.
    pub forward_total_us_max: u64,
    /// Time spent on deduplication, in microseconds.
    pub forward_dedup_us_sum: u64,
    /// Time spent on dispatching to shards, in microseconds.
    pub forward_fanout_send_us_sum: u64,
    /// Longest time spent on dispatching one batch, in microseconds.
    pub forward_fanout_send_us_max: u64,
    /// Time spent on per-source counters, in microseconds.
    pub forward_stats_us_sum: u64,
    /// Time spent on copying batches for reconstruction, in microseconds.
    pub forward_reconstruct_clone_us_sum: u64,
    /// No longer counted.
    pub forward_max_per_dest_us_sum: u64,
    /// No longer counted.
    pub forward_per_dest_us_max: u64,
    // send shards, per reporting interval
    /// Number of destinations.
    pub worker_count: usize,
    /// Number of batches processed by all shards together.
    pub worker_batches: u64,
    /// Send time of all shards and batches, in microseconds.
    pub worker_send_us_sum: u64,
    /// Longest send time of one shard for one batch, in microseconds.
    pub worker_send_us_max: u64,
    /// Number of packets in the batches that the shards processed.
    pub worker_packets_sent: u64,
    /// Number of batches that could not be dispatched to a shard.
    pub worker_dropped_batches: u64,
    // end-to-end barrier, per reporting interval
    /// Number of batches that all of their shards are done with. A batch that no shard could be
    /// reached with does not count.
    pub e2e_batches: u64,
    /// Time from receiving to the last send of those batches, in microseconds.
    pub e2e_us_sum: u64,
    /// Longest such time of one batch, in microseconds.
    pub e2e_us_max: u64,
    // cumulative, over all reporting intervals
    pub agg_received_cumulative: u64,
    pub agg_success_forward_cumulative: u64,
    pub agg_fail_forward_cumulative: u64,
    pub duplicate_cumulative: u64,
}

/// Where the time that a coordinator spent on one batch went, in microseconds.
#[derive(Clone, Copy, Debug, PartialEq, Eq, Structural)]
pub struct BatchTimings {
    pub total_us: u64,
    pub dedup_us: u64,
    pub fanout_us: u64,
    pub stats_us: u64,
    pub reconstruct_us: u64,
}

/// The larger of two counters.
pub open spec fn larger(a: u64, b: u64) -> u64 {
    if a < b {
        b
    } else {
        a
    }
}

/// Raises a maximum to `val` where it is smaller.
pub fn update_max(cell: &mut u64, val: u64)
    ensures
        *final(cell) == larger(*old(cell), val),
        *final(cell) >= *old(cell),
        *final(cell) >= val,
        *final(cell) == *old(cell) || *final(cell) == val,
{
    if val > *cell {
        *cell = val;
    }
}

impl ShredMetrics {
    /// Counters that are all zero, beside a given table of sources.
    pub open spec fn zeroed(enabled_grpc_service: bool, packets_received: SourceTable) -> Self {
        ShredMetrics {
            received: 0,
            success_forward: 0,
            fail_forward: 0,
            duplicate: 0,
            packets_received,
            enabled_grpc_service,
            recovered_count: 0,
            entry_count: 0,
            txn_count: 0,
            unknown_start_position_count: 0,
            fec_recovery_error_count: 0,
            bincode_deserialize_error_count: 0,
            unknown_start_position_error_count: 0,
            forward_batches: 0,
            forward_packets_in_batches: 0,
            forward_dest_send_count: 0,
            forward_total_us_sum: 0,
            forward_total_us_max: 0,
            forward_dedup_us_sum: 0,
            forward_fanout_send_us_sum: 0,
            forward_fanout_send_us_max: 0,
            forward_stats_us_sum: 0,
            forward_reconstruct_clone_us_sum: 0,
            forward_max_per_dest_us_sum: 0,
            forward_per_dest_us_max: 0,
            worker_count: 0,
            worker_batches: 0,
            worker_send_us_sum: 0,
            worker_send_us_max: 0,
            worker_packets_sent: 0,
            worker_dropped_batches: 0,
            e2e_batches: 0,
            e2e_us_sum: 0,
            e2e_us_max: 0,
            agg_received_cumulative: 0,
            agg_success_forward_cumulative: 0,
            agg_fail_forward_cumulative: 0,
            duplicate_cumulative: 0,
        }
    }

    /// Counters at the start of the forwarder.
    pub fn new(enabled_grpc_service: bool) -> (metrics: Self)
        ensures
            metrics == ShredMetrics::zeroed(enabled_grpc_service, metrics.packets_received),
            metrics.enabled_grpc_service == enabled_grpc_service,
            metrics.received == 0,
            metrics.success_forward == 0,
            metrics.fail_forward == 0,
            metrics.duplicate == 0,
            metrics.recovered_count == 0,
            metrics.entry_count == 0,
            metrics.txn_count == 0,
            metrics.unknown_start_position_count == 0,
            metrics.fec_recovery_error_count == 0,
            metrics.bincode_deserialize_error_count == 0,
            metrics.unknown_start_position_error_count == 0,
            metrics.forward_batches == 0,
            metrics.forward_packets_in_batches == 0,
            metrics.forward_dest_send_count == 0,
            metrics.forward_total_us_sum == 0,
            metrics.forward_total_us_max == 0,
            metrics.forward_dedup_us_sum == 0,
            metrics.forward_fanout_send_us_sum == 0,
            metrics.forward_fanout_send_us_max == 0,
            metrics.forward_stats_us_sum == 0,
            metrics.forward_reconstruct_clone_us_sum == 0,
            metrics.forward_max_per_dest_us_sum == 0,
            metrics.forward_per_dest_us_max == 0,
            metrics.worker_count == 0,
            metrics.worker_batches == 0,
            metrics.worker_send_us_sum == 0,
            metrics.worker_send_us_max == 0,
            metrics.worker_packets_sent == 0,
            metrics.worker_dropped_batches == 0,
            metrics.e2e_batches == 0,
            metrics.e2e_us_sum == 0,
            metrics.e2e_us_max == 0,
            metrics.agg_received_cumulative == 0,
            metrics.agg_success_forward_cumulative == 0,
            metrics.agg_fail_forward_cumulative == 0,
            metrics.duplicate_cumulative == 0,
            sources(metrics.packets_received) == (Map::<SourceKey, SourceCounts>::empty()),
    {
        ShredMetrics {
            received: 0,
            success_forward: 0,
            fail_forward: 0,
            duplicate: 0,
            packets_received: new_table(),
            enabled_grpc_service,
            recovered_count: 0,
            entry_count: 0,
            txn_count: 0,
            unknown_start_position_count: 0,
            fec_recovery_error_count: 0,
            bincode_deserialize_error_count: 0,
            unknown_start_position_error_count: 0,
            forward_batches: 0,
            forward_packets_in_batches: 0,
            forward_dest_send_count: 0,
            forward_total_us_sum: 0,
            forward_total_us_max: 0,
            forward_dedup_us_sum: 0,
            forward_fanout_send_us_sum: 0,
            forward_fanout_send_us_max: 0,
            forward_stats_us_sum: 0,
            forward_reconstruct_clone_us_sum: 0,
            forward_max_per_dest_us_sum: 0,
            forward_per_dest_us_max: 0,
            worker_count: 0,
            worker_batches: 0,
            worker_send_us_sum: 0,
            worker_send_us_max: 0,
            worker_packets_sent: 0,
            worker_dropped_batches: 0,
            e2e_batches: 0,
            e2e_us_sum: 0,
            e2e_us_max: 0,
            agg_received_cumulative: 0,
            agg_success_forward_cumulative: 0,
            agg_fail_forward_cumulative: 0,
            duplicate_cumulative: 0,
        }
    }

    /// The counters after a batch of `packets` packets was received.
    pub open spec fn after_receive(self, packets: u64) -> Self {
        ShredMetrics { received: self.received.wrapping_add(packets), ..self }
    }

    /// The counters after `num_deduped` packets of a batch were found to be discarded.
    pub open spec fn after_dedup(self, num_deduped: u64) -> Self {
        ShredMetrics { duplicate: self.duplicate.wrapping_add(num_deduped), ..self }
    }

    /// The counters after a batch could not be dispatched to `dropped` shards.
    pub open spec fn after_dispatch(self, dropped: u64) -> Self {
        ShredMetrics {
            worker_dropped_batches: self.worker_dropped_batches.wrapping_add(dropped),
            ..self
        }
    }

    /// The counters after the last shard of a batch was done, `us` microseconds after the batch
    /// was received.
    pub open spec fn after_e2e(self, us: u64) -> Self {
        ShredMetrics {
            e2e_batches: self.e2e_batches.wrapping_add(1),
            e2e_us_sum: self.e2e_us_sum.wrapping_add(us),
            e2e_us_max: larger(self.e2e_us_max, us),
            ..self
        }
    }

    /// The counters after an end-to-end time, if there is one.
    pub open spec fn after_e2e_option(self, us: Option<u64>) -> Self {
        match us {
            Some(us) => self.after_e2e(us),
            None => self,
        }
    }

    /// The counters after a batch of `packets` packets was handled and dispatched to `num_dest`
    /// shards, in the time given.
    pub open spec fn after_forward(self, packets: u64, num_dest: u64, timings: BatchTimings) -> Self {
        ShredMetrics {
            forward_batches: self.forward_batches.wrapping_add(1),
            forward_packets_in_batches: self.forward_packets_in_batches.wrapping_add(packets),
            forward_dest_send_count: self.forward_dest_send_count.wrapping_add(num_dest),
            forward_total_us_sum: self.forward_total_us_sum.wrapping_add(timings.total_us),
            forward_total_us_max: larger(self.forward_total_us_max, timings.total_us),
            forward_dedup_us_sum: self.forward_dedup_us_sum.wrapping_add(timings.dedup_us),
            forward_fanout_send_us_sum: self.forward_fanout_send_us_sum.wrapping_add(
                timings.fanout_us,
            ),
            forward_fanout_send_us_max: larger(
                self.forward_fanout_send_us_max,
                timings.fanout_us,
            ),
            forward_stats_us_sum: self.forward_stats_us_sum.wrapping_add(timings.stats_us),
            forward_reconstruct_clone_us_sum: self.forward_reconstruct_clone_us_sum.wrapping_add(
                timings.reconstruct_us,
            ),
            ..self
        }
    }

    /// The counters after a shard sent `sent` (packet, destination) pairs and failed to send
    /// `failed` others.
    pub open spec fn after_send(self, sent: u64, failed: u64) -> Self {
        ShredMetrics {
            success_forward: self.success_forward.wrapping_add(sent),
            fail_forward: self.fail_forward.wrapping_add(failed),
            ..self
        }
    }

    /// The counters after a shard took `us` microseconds to send a batch of `packets` packets.
    pub open spec fn after_shard_batch(self, packets: u64, us: u64) -> Self {
        ShredMetrics {
            worker_batches: self.worker_batches.wrapping_add(1),
            worker_send_us_sum: self.worker_send_us_sum.wrapping_add(us),
            worker_send_us_max: larger(self.worker_send_us_max, us),
            worker_packets_sent: self.worker_packets_sent.wrapping_add(packets),
            ..self
        }
    }

    /// The counters at the start of the next reporting interval.
    pub open spec fn after_reset(self) -> Self {
        ShredMetrics {
            received: 0,
            success_forward: 0,
            fail_forward: 0,
            duplicate: 0,
            forward_batches: 0,
            forward_packets_in_batches: 0,
            forward_dest_send_count: 0,
            forward_total_us_sum: 0,
            forward_total_us_max: 0,
            forward_dedup_us_sum: 0,
            forward_fanout_send_us_sum: 0,
            forward_fanout_send_us_max: 0,
            forward_stats_us_sum: 0,
            forward_reconstruct_clone_us_sum: 0,
            forward_max_per_dest_us_sum: 0,
            forward_per_dest_us_max: 0,
            worker_batches: 0,
            worker_send_us_sum: 0,
            worker_send_us_max: 0,
            worker_packets_sent: 0,
            worker_dropped_batches: 0,
            e2e_batches: 0,
            e2e_us_sum: 0,
            e2e_us_max: 0,
            agg_received_cumulative: self.agg_received_cumulative.wrapping_add(self.received),
            agg_success_forward_cumulative: self.agg_success_forward_cumulative.wrapping_add(
                self.success_forward,
            ),
            agg_fail_forward_cumulative: self.agg_fail_forward_cumulative.wrapping_add(
                self.fail_forward,
            ),
            duplicate_cumulative: self.duplicate_cumulative.wrapping_add(self.duplicate),
            ..self
        }
    }

    /// Counts the packets of a batch as received.
    pub fn record_receive(&mut self, packets: u64)
        ensures
            *final(self) == old(self).after_receive(packets),
            *final(self) == (ShredMetrics {
                received: old(self).received.wrapping_add(packets),
                ..*old(self)
            }),
    {
        self.received = self.received.wrapping_add(packets);
    }

    /// Counts discarded packets as duplicates.
    pub fn record_dedup(&mut self, num_deduped: u64)
        ensures
            *final(self) == old(self).after_dedup(num_deduped),
            *final(self) == (ShredMetrics {
                duplicate: old(self).duplicate.wrapping_add(num_deduped),
                ..*old(self)
            }),
    {
        self.duplicate = self.duplicate.wrapping_add(num_deduped);
    }

    /// Counts every packet of a batch for its source.
    pub fn record_sources(&mut self, batch: &PacketBatch)
        ensures
            sources(final(self).packets_received) == counted_packets(
                sources(old(self).packets_received),
                packets(*batch),
            ),
            *final(self) == (ShredMetrics {
                packets_received: final(self).packets_received,
                ..*old(self)
            }),
    {
        count_batch(&mut self.packets_received, batch);
    }

    /// Counts the shards that a batch could not be dispatched to.
    pub fn record_dispatch(&mut self, dropped: u64)
        ensures
            *final(self) == old(self).after_dispatch(dropped),
            *final(self) == (ShredMetrics {
                worker_dropped_batches: old(self).worker_dropped_batches.wrapping_add(dropped),
                ..*old(self)
            }),
    {
        self.worker_dropped_batches = self.worker_dropped_batches.wrapping_add(dropped);
    }

    /// Counts a batch that all of its shards are done with.
    pub fn record_e2e(&mut self, us: u64)
        ensures
            *final(self) == old(self).after_e2e(us),
            *final(self) == (ShredMetrics {
                e2e_batches: old(self).e2e_batches.wrapping_add(1),
                e2e_us_sum: old(self).e2e_us_sum.wrapping_add(us),
                e2e_us_max: final(self).e2e_us_max,
                ..*old(self)
            }),
            final(self).e2e_us_max >= old(self).e2e_us_max,
            final(self).e2e_us_max >= us,
            final(self).e2e_us_max == old(self).e2e_us_max || final(self).e2e_us_max == us,
    {
        self.e2e_batches = self.e2e_batches.wrapping_add(1);
        self.e2e_us_sum = self.e2e_us_sum.wrapping_add(us);
        update_max(&mut self.e2e_us_max, us);
    }

    /// Counts a batch that a coordinator is done with.
    pub fn record_forward(&mut self, packets: u64, num_dest: u64, timings: &BatchTimings)
        ensures
            *final(self) == old(self).after_forward(packets, num_dest, *timings),
            *final(self) == (ShredMetrics {
                forward_batches: old(self).forward_batches.wrapping_add(1),
                forward_packets_in_batches: old(self).forward_packets_in_batches.wrapping_add(packets),
                forward_dest_send_count: old(self).forward_dest_send_count.wrapping_add(num_dest),
                forward_total_us_sum: old(self).forward_total_us_sum.wrapping_add(timings.total_us),
                forward_dedup_us_sum: old(self).forward_dedup_us_sum.wrapping_add(timings.dedup_us),
                forward_fanout_send_us_sum: old(self).forward_fanout_send_us_sum.wrapping_add(timings.fanout_us),
                forward_stats_us_sum: old(self).forward_stats_us_sum.wrapping_add(timings.stats_us),
                forward_reconstruct_clone_us_sum: old(self).forward_reconstruct_clone_us_sum.wrapping_add(timings.reconstruct_us),
                forward_total_us_max: final(self).forward_total_us_max,
                forward_fanout_send_us_max: final(self).forward_fanout_send_us_max,
                ..*old(self)
            }),
            final(self).forward_total_us_max >= old(self).forward_total_us_max,
            final(self).forward_total_us_max >= timings.total_us,
            final(self).forward_total_us_max == old(self).forward_total_us_max || final(self).forward_total_us_max == timings.total_us,
            final(self).forward_fanout_send_us_max >= old(self).forward_fanout_send_us_max,
            final(self).forward_fanout_send_us_max >= timings.fanout_us,
            final(self).forward_fanout_send_us_max == old(self).forward_fanout_send_us_max || final(self).forward_fanout_send_us_max == timings.fanout_us,
    {
        self.forward_batches = self.forward_batches.wrapping_add(1);
        self.forward_packets_in_batches = self.forward_packets_in_batches.wrapping_add(packets);
        self.forward_dest_send_count = self.forward_dest_send_count.wrapping_add(num_dest);
        self.forward_total_us_sum = self.forward_total_us_sum.wrapping_add(timings.total_us);
        self.forward_dedup_us_sum = self.forward_dedup_us_sum.wrapping_add(timings.dedup_us);
        self.forward_fanout_send_us_sum =
            self.forward_fanout_send_us_sum.wrapping_add(timings.fanout_us);
        self.forward_stats_us_sum = self.forward_stats_us_sum.wrapping_add(timings.stats_us);
        self.forward_reconstruct_clone_us_sum =
            self.forward_reconstruct_clone_us_sum.wrapping_add(timings.reconstruct_us);
        update_max(&mut self.forward_total_us_max, timings.total_us);
        update_max(&mut self.forward_fanout_send_us_max, timings.fanout_us);
    }

    /// Counts what a shard sent and failed to send.
    pub fn record_send(&mut self, sent: u64, failed: u64)
        ensures
            *final(self) == old(self).after_send(sent, failed),
            *final(self) == (ShredMetrics {
                success_forward: old(self).success_forward.wrapping_add(sent),
                fail_forward: old(self).fail_forward.wrapping_add(failed),
                ..*old(self)
            }),
    {
        self.success_forward = self.success_forward.wrapping_add(sent);
        self.fail_forward = self.fail_forward.wrapping_add(failed);
    }

    /// Counts a batch that one shard is done with.
    pub fn record_shard_batch(&mut self, packets: u64, us: u64)
        ensures
            *final(self) == old(self).after_shard_batch(packets, us),
            *final(self) == (ShredMetrics {
                worker_batches: old(self).worker_batches.wrapping_add(1),
                worker_packets_sent: old(self).worker_packets_sent.wrapping_add(packets),
                worker_send_us_sum: old(self).worker_send_us_sum.wrapping_add(us),
                worker_send_us_max: final(self).worker_send_us_max,
                ..*old(self)
            }),
            final(self).worker_send_us_max >= old(self).worker_send_us_max,
            final(self).worker_send_us_max >= us,
            final(self).worker_send_us_max == old(self).worker_send_us_max || final(self).worker_send_us_max == us,
    {
        self.worker_batches = self.worker_batches.wrapping_add(1);
        self.worker_send_us_sum = self.worker_send_us_sum.wrapping_add(us);
        self.worker_packets_sent = self.worker_packets_sent.wrapping_add(packets);
        update_max(&mut self.worker_send_us_max, us);
    }

    /// Resets current values, increments cumulative values.
    pub fn reset(&mut self)
        ensures
            *final(self) == old(self).after_reset(),
            *final(self) == (ShredMetrics {
                agg_received_cumulative: old(self).agg_received_cumulative.wrapping_add(old(self).received),
                received: 0,
                agg_success_forward_cumulative: old(self).agg_success_forward_cumulative.wrapping_add(old(self).success_forward),
                success_forward: 0,
                agg_fail_forward_cumulative: old(self).agg_fail_forward_cumulative.wrapping_add(old(self).fail_forward),
                fail_forward: 0,
                duplicate_cumulative: old(self).duplicate_cumulative.wrapping_add(old(self).duplicate),
                duplicate: 0,
                forward_batches: 0,
                forward_packets_in_batches: 0,
                forward_dest_send_count: 0,
                forward_total_us_sum: 0,
                forward_total_us_max: 0,
                forward_dedup_us_sum: 0,
                forward_fanout_send_us_sum: 0,
                forward_fanout_send_us_max: 0,
                forward_stats_us_sum: 0,
                forward_reconstruct_clone_us_sum: 0,
                forward_max_per_dest_us_sum: 0,
                forward_per_dest_us_max: 0,
                worker_batches: 0,
                worker_send_us_sum: 0,
                worker_send_us_max: 0,
                worker_packets_sent: 0,
                worker_dropped_batches: 0,
                e2e_batches: 0,
                e2e_us_sum: 0,
                e2e_us_max: 0,
                ..*old(self)
            }),
    {
        self.agg_received_cumulative = self.agg_received_cumulative.wrapping_add(self.received);
        self.received = 0;
        self.agg_success_forward_cumulative =
            self.agg_success_forward_cumulative.wrapping_add(self.success_forward);
        self.success_forward = 0;
        self.agg_fail_forward_cumulative =
            self.agg_fail_forward_cumulative.wrapping_add(self.fail_forward);
        self.fail_forward = 0;
        self.duplicate_cumulative = self.duplicate_cumulative.wrapping_add(self.duplicate);
        self.duplicate = 0;

        self.forward_batches = 0;
        self.forward_packets_in_batches = 0;
        self.forward_dest_send_count = 0;
        self.forward_total_us_sum = 0;
        self.forward_total_us_max = 0;
        self.forward_dedup_us_sum = 0;
        self.forward_fanout_send_us_sum = 0;
        self.forward_fanout_send_us_max = 0;
        self.forward_stats_us_sum = 0;
        self.forward_reconstruct_clone_us_sum = 0;
        self.forward_max_per_dest_us_sum = 0;
        self.forward_per_dest_us_max = 0;

        self.worker_batches = 0;
        self.worker_send_us_sum = 0;
        self.worker_send_us_max = 0;
        self.worker_packets_sent = 0;
        self.worker_dropped_batches = 0;

        self.e2e_batches = 0;
        self.e2e_us_sum = 0;
        self.e2e_us_max = 0;
    }

    /// Whether no sum of times exceeds what its count and its maximum allow.
    pub open spec fn times_consistent(self) -> bool {
        &&& self.forward_total_us_sum <= self.forward_batches * self.forward_total_us_max
        &&& self.forward_fanout_send_us_sum <= self.forward_batches
            * self.forward_fanout_send_us_max
        &&& self.worker_send_us_sum <= self.worker_batches * self.worker_send_us_max
        &&& self.e2e_us_sum <= self.e2e_batches * self.e2e_us_max
    }
}

impl Default for ShredMetrics {
    fn default() -> (metrics: Self)
        ensures
            metrics == ShredMetrics::zeroed(false, metrics.packets_received),
            !metrics.enabled_grpc_service,
            metrics.received == 0,
            metrics.success_forward == 0,
            metrics.fail_forward == 0,
            metrics.duplicate == 0,
            metrics.recovered_count == 0,
            metrics.entry_count == 0,
            metrics.txn_count == 0,
            metrics.unknown_start_position_count == 0,
            metrics.fec_recovery_error_count == 0,
            metrics.bincode_deserialize_error_count == 0,
            metrics.unknown_start_position_error_count == 0,
            metrics.forward_batches == 0,
            metrics.forward_packets_in_batches == 0,
            metrics.forward_dest_send_count == 0,
            metrics.forward_total_us_sum == 0,
            metrics.forward_total_us_max == 0,
            metrics.forward_dedup_us_sum == 0,
            metrics.forward_fanout_send_us_sum == 0,
            metrics.forward_fanout_send_us_max == 0,
            metrics.forward_stats_us_sum == 0,
            metrics.forward_reconstruct_clone_us_sum == 0,
            metrics.forward_max_per_dest_us_sum == 0,
            metrics.forward_per_dest_us_max == 0,
            metrics.worker_count == 0,
            metrics.worker_batches == 0,
            metrics.worker_send_us_sum == 0,
            metrics.worker_send_us_max == 0,
            metrics.worker_packets_sent == 0,
            metrics.worker_dropped_batches == 0,
            metrics.e2e_batches == 0,
            metrics.e2e_us_sum == 0,
            metrics.e2e_us_max == 0,
            metrics.agg_received_cumulative == 0,
            metrics.agg_success_forward_cumulative == 0,
            metrics.agg_fail_forward_cumulative == 0,
            metrics.duplicate_cumulative == 0,
            sources(metrics.packets_received) == (Map::<SourceKey, SourceCounts>::empty()),
    {
        ShredMetrics::new(false)
    }
}

/// A maximum after it was raised to each of these values, one after the other.
pub open spec fn raised(cell: u64, vals: Seq<u64>) -> u64
    decreases vals.len(),
{
    if vals.len() == 0 {
        cell
    } else {
        larger(raised(cell, vals.drop_last()), vals.last())
    }
}

/// Any number of updates ends in the largest of the values and of what was there before, and on
/// the way a maximum never falls: after each update it is at least the value of that update and
/// what it was.
pub proof fn max_updates_end_in_the_largest(cell: u64, vals: Seq<u64>)
    ensures
        raised(cell, vals) >= cell,
        forall|i: int| 0 <= i < vals.len() ==> raised(cell, vals) >= #[trigger] vals[i],
        raised(cell, vals) == cell || vals.contains(raised(cell, vals)),
        vals.len() > 0 ==> raised(cell, vals) >= raised(cell, vals.drop_last()),
    decreases vals.len(),
{
    if vals.len() > 0 {
        let rest = vals.drop_last();
        max_updates_end_in_the_largest(cell, rest);
        assert forall|i: int| 0 <= i < vals.len() implies raised(cell, vals)
            >= #[trigger] vals[i] by {
            if i < rest.len() {
                assert(rest[i] == vals[i]);
            }
        }
        let top = raised(cell, vals);
        if top == vals.last() {
            assert(vals[vals.len() - 1] == top);
        } else if rest.contains(top) {
            let i = choose|i: int| 0 <= i < rest.len() && rest[i] == top;
            assert(vals[i] == top);
        }
    }
}

/// The order of the updates does not matter, nor how often a value comes.
pub proof fn max_updates_commute(cell: u64, vals: Seq<u64>, other: Seq<u64>)
    requires
        forall|val: u64| #[trigger] vals.contains(val) <==> other.contains(val),
    ensures
        raised(cell, vals) == raised(cell, other),
{
    max_updates_end_in_the_largest(cell, vals);
    max_updates_end_in_the_largest(cell, other);
    let a = raised(cell, vals);
    let b = raised(cell, other);
    if a != cell {
        assert(other.contains(a));
    }
    if b != cell {
        assert(vals.contains(b));
    }
}

/// What two shards record about their sends is the same whichever comes first, and so is what
/// is recorded about the last shards of two batches.
pub proof fn shard_records_commute(
    metrics: ShredMetrics,
    sent1: u64,
    failed1: u64,
    packets1: u64,
    us1: u64,
    sent2: u64,
    failed2: u64,
    packets2: u64,
    us2: u64,
)
    ensures
        metrics.after_send(sent1, failed1).after_send(sent2, failed2) == metrics.after_send(
            sent2,
            failed2,
        ).after_send(sent1, failed1),
        metrics.after_shard_batch(packets1, us1).after_shard_batch(packets2, us2)
            == metrics.after_shard_batch(packets2, us2).after_shard_batch(packets1, us1),
        metrics.after_e2e(us1).after_e2e(us2) == metrics.after_e2e(us2).after_e2e(us1),
        metrics.after_send(sent1, failed1).after_e2e(us2) == metrics.after_e2e(us2).after_send(
            sent1,
            failed1,
        ),
{
}

/// Adding a value to a sum keeps it within its count times its maximum.
proof fn lemma_sum_within(sum: nat, count: nat, max: u64, us: u64)
    requires
        sum <= count * max,
    ensures
        sum + us <= (count + 1) * larger(max, us),
{
    let top = larger(max, us) as nat;
    assert(count * max <= count * top) by (nonlinear_arith)
        requires
            max <= top,
    ;
    assert((count + 1) * top == count * top + top) by (nonlinear_arith);
}

/// As long as no sum and no count overflows, recording keeps every sum of times within its
/// count times its maximum.
pub proof fn recording_keeps_times_consistent(
    metrics: ShredMetrics,
    packets: u64,
    num_dest: u64,
    timings: BatchTimings,
    us: u64,
)
    requires
        metrics.times_consistent(),
    ensures
        metrics.forward_batches < u64::MAX && metrics.forward_total_us_sum + timings.total_us
            <= u64::MAX && metrics.forward_fanout_send_us_sum + timings.fanout_us <= u64::MAX
            ==> metrics.after_forward(packets, num_dest, timings).times_consistent(),
        metrics.worker_batches < u64::MAX && metrics.worker_send_us_sum + us <= u64::MAX
            ==> metrics.after_shard_batch(packets, us).times_consistent(),
        metrics.e2e_batches < u64::MAX && metrics.e2e_us_sum + us <= u64::MAX
            ==> metrics.after_e2e(us).times_consistent(),
{
    lemma_sum_within(
        metrics.forward_total_us_sum as nat,
        metrics.forward_batches as nat,
        metrics.forward_total_us_max,
        timings.total_us,
    );
    lemma_sum_within(
        metrics.forward_fanout_send_us_sum as nat,
        metrics.forward_batches as nat,
        metrics.forward_fanout_send_us_max,
        timings.fanout_us,
    );
    lemma_sum_within(
        metrics.worker_send_us_sum as nat,
        metrics.worker_batches as nat,
        metrics.worker_send_us_max,
        us,
    );
    lemma_sum_within(
        metrics.e2e_us_sum as nat,
        metrics.e2e_batches as nat,
        metrics.e2e_us_max,
        us,
    );
}

/// Counters that are all zero, and counters that were reset, have consistent times.
pub proof fn reset_makes_times_consistent(metrics: ShredMetrics)
    ensures
        metrics.after_reset().times_consistent(),
        ShredMetrics::zeroed(
            metrics.enabled_grpc_service,
            metrics.packets_received,
        ).times_consistent(),
{
}

/// A reset moves the counts of the interval into the cumulative ones and loses nothing: the sum
/// of the two stays as it was, and a second reset changes nothing.
pub proof fn reset_conserves_totals(metrics: ShredMetrics)
    ensures
        ({
            let next = metrics.after_reset();
            &&& next.agg_received_cumulative.wrapping_add(next.received)
                == metrics.agg_received_cumulative.wrapping_add(metrics.received)
            &&& next.agg_success_forward_cumulative.wrapping_add(next.success_forward)
                == metrics.agg_success_forward_cumulative.wrapping_add(metrics.success_forward)
            &&& next.agg_fail_forward_cumulative.wrapping_add(next.fail_forward)
                == metrics.agg_fail_forward_cumulative.wrapping_add(metrics.fail_forward)
            &&& next.duplicate_cumulative.wrapping_add(next.duplicate)
                == metrics.duplicate_cumulative.wrapping_add(metrics.duplicate)
            &&& next.after_reset() == next
        }),
{
}

/// A reset starts every count of the interval over, adds what was received, sent, failed and dropped
/// as duplicate to the totals, and leaves the number of destinations, the counters of the service
/// and those by source alone.
pub proof fn reset_starts_the_interval_over(metrics: ShredMetrics)
    ensures
        ({
            let next = metrics.after_reset();
            &&& next.received == 0
            &&& metrics.agg_received_cumulative + metrics.received <= u64::MAX ==> next.agg_received_cumulative == metrics.agg_received_cumulative + metrics.received
            &&& next.success_forward == 0
            &&& metrics.agg_success_forward_cumulative + metrics.success_forward <= u64::MAX ==> next.agg_success_forward_cumulative == metrics.agg_success_forward_cumulative + metrics.success_forward
            &&& next.fail_forward == 0
            &&& metrics.agg_fail_forward_cumulative + metrics.fail_forward <= u64::MAX ==> next.agg_fail_forward_cumulative == metrics.agg_fail_forward_cumulative + metrics.fail_forward
            &&& next.duplicate == 0
            &&& metrics.duplicate_cumulative + metrics.duplicate <= u64::MAX ==> next.duplicate_cumulative == metrics.duplicate_cumulative + metrics.duplicate
            &&& next.forward_batches == 0
            &&& next.forward_packets_in_batches == 0
            &&& next.forward_dest_send_count == 0
            &&& next.forward_total_us_sum == 0
            &&& next.forward_total_us_max == 0
            &&& next.forward_dedup_us_sum == 0
            &&& next.forward_fanout_send_us_sum == 0
            &&& next.forward_fanout_send_us_max == 0
            &&& next.forward_stats_us_sum == 0
            &&& next.forward_reconstruct_clone_us_sum == 0
            &&& next.forward_max_per_dest_us_sum == 0
            &&& next.forward_per_dest_us_max == 0
            &&& next.worker_batches == 0
            &&& next.worker_send_us_sum == 0
            &&& next.worker_send_us_max == 0
            &&& next.worker_packets_sent == 0
            &&& next.worker_dropped_batches == 0
            &&& next.e2e_batches == 0
            &&& next.e2e_us_sum == 0
            &&& next.e2e_us_max == 0
            &&& next.recovered_count == metrics.recovered_count
            &&& next.entry_count == metrics.entry_count
            &&& next.txn_count == metrics.txn_count
            &&& next.unknown_start_position_count == metrics.unknown_start_position_count
            &&& next.fec_recovery_error_count == metrics.fec_recovery_error_count
            &&& next.bincode_deserialize_error_count == metrics.bincode_deserialize_error_count
            &&& next.unknown_start_position_error_count == metrics.unknown_start_position_error_count
            &&& next.worker_count == metrics.worker_count
            &&& next.packets_received == metrics.packets_received
            &&& next.enabled_grpc_service == metrics.enabled_grpc_service
        }),
{
}

/// What is counted is what is handed in: as long as nothing overflows, each count grows by its own
/// number and no other count changes.
pub proof fn counts_grow_by_what_is_counted(
    metrics: ShredMetrics,
    packets: u64,
    num_deduped: u64,
    sent: u64,
    failed: u64,
    dropped: u64,
)
    ensures
        metrics.received + packets <= u64::MAX ==> metrics.after_receive(packets) == (
        ShredMetrics { received: (metrics.received + packets) as u64, ..metrics }),
        metrics.duplicate + num_deduped <= u64::MAX ==> metrics.after_dedup(num_deduped) == (
        ShredMetrics { duplicate: (metrics.duplicate + num_deduped) as u64, ..metrics }),
        metrics.success_forward + sent <= u64::MAX && metrics.fail_forward + failed <= u64::MAX
            ==> metrics.after_send(sent, failed) == (ShredMetrics {
            success_forward: (metrics.success_forward + sent) as u64,
            fail_forward: (metrics.fail_forward + failed) as u64,
            ..metrics
        }),
        metrics.worker_dropped_batches + dropped <= u64::MAX ==> metrics.after_dispatch(dropped)
            == (ShredMetrics {
            worker_dropped_batches: (metrics.worker_dropped_batches + dropped) as u64,
            ..metrics
        }),
{
}

/// A timed batch, a timed shard and a batch that ended each add one to their count and their times
/// to the sums of those times, and no sum of other times changes; a maximum is raised where the
/// time exceeds it.
pub proof fn times_go_into_their_sums(
    metrics: ShredMetrics,
    packets: u64,
    num_dest: u64,
    timings: BatchTimings,
    us: u64,
)
    requires
        metrics.forward_batches < u64::MAX,
        metrics.forward_packets_in_batches + packets <= u64::MAX,
        metrics.forward_dest_send_count + num_dest <= u64::MAX,
        metrics.forward_total_us_sum + timings.total_us <= u64::MAX,
        metrics.forward_dedup_us_sum + timings.dedup_us <= u64::MAX,
        metrics.forward_fanout_send_us_sum + timings.fanout_us <= u64::MAX,
        metrics.forward_stats_us_sum + timings.stats_us <= u64::MAX,
        metrics.forward_reconstruct_clone_us_sum + timings.reconstruct_us <= u64::MAX,
        metrics.worker_batches < u64::MAX,
        metrics.worker_packets_sent + packets <= u64::MAX,
        metrics.worker_send_us_sum + us <= u64::MAX,
        metrics.e2e_batches < u64::MAX,
        metrics.e2e_us_sum + us <= u64::MAX,
    ensures
        ({
            let next = metrics.after_forward(packets, num_dest, timings);
            &&& next.forward_batches == metrics.forward_batches + 1
            &&& next.forward_packets_in_batches == metrics.forward_packets_in_batches + packets
            &&& next.forward_dest_send_count == metrics.forward_dest_send_count + num_dest
            &&& next.forward_total_us_sum == metrics.forward_total_us_sum + timings.total_us
            &&& next.forward_dedup_us_sum == metrics.forward_dedup_us_sum + timings.dedup_us
            &&& next.forward_fanout_send_us_sum == metrics.forward_fanout_send_us_sum
                + timings.fanout_us
            &&& next.forward_stats_us_sum == metrics.forward_stats_us_sum + timings.stats_us
            &&& next.forward_reconstruct_clone_us_sum == metrics.forward_reconstruct_clone_us_sum
                + timings.reconstruct_us
            &&& next.forward_total_us_max >= metrics.forward_total_us_max
            &&& next.forward_total_us_max >= timings.total_us
            &&& next.forward_total_us_max == metrics.forward_total_us_max
                || next.forward_total_us_max == timings.total_us
            &&& next.forward_fanout_send_us_max >= metrics.forward_fanout_send_us_max
            &&& next.forward_fanout_send_us_max >= timings.fanout_us
            &&& next.forward_fanout_send_us_max == metrics.forward_fanout_send_us_max
                || next.forward_fanout_send_us_max == timings.fanout_us
        }),
        ({
            let next = metrics.after_shard_batch(packets, us);
            &&& next.worker_batches == metrics.worker_batches + 1
            &&& next.worker_packets_sent == metrics.worker_packets_sent + packets
            &&& next.worker_send_us_sum == metrics.worker_send_us_sum + us
            &&& next.worker_send_us_max >= metrics.worker_send_us_max
            &&& next.worker_send_us_max >= us
            &&& next.worker_send_us_max == metrics.worker_send_us_max || next.worker_send_us_max
                == us
            &&& next == (ShredMetrics {
                worker_batches: next.worker_batches,
                worker_packets_sent: next.worker_packets_sent,
                worker_send_us_sum: next.worker_send_us_sum,
                worker_send_us_max: next.worker_send_us_max,
                ..metrics
            })
        }),
        ({
            let next = metrics.after_e2e(us);
            &&& next.e2e_batches == metrics.e2e_batches + 1
            &&& next.e2e_us_sum == metrics.e2e_us_sum + us
            &&& next.e2e_us_max >= metrics.e2e_us_max
            &&& next.e2e_us_max >= us
            &&& next.e2e_us_max == metrics.e2e_us_max || next.e2e_us_max == us
            &&& next == (ShredMetrics {
                e2e_batches: next.e2e_batches,
                e2e_us_sum: next.e2e_us_sum,
                e2e_us_max: next.e2e_us_max,
                ..metrics
            })
        }),
{
}

} // verus!
