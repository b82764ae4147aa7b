//! The rows that are emitted at the end of a reporting interval.
use vstd::prelude::*;

use crate::addr::IpAddr;
use crate::addr::SourceKey;
use crate::metrics::ShredMetrics;
use crate::packet::PacketView;
use crate::sources::counted_packets;
use crate::sources::drain;
use crate::sources::is_listing;
use crate::sources::num_from;
use crate::sources::packets_count_for_their_source;
use crate::sources::sources;
use crate::sources::SourceCounts;
use crate::sources::SourceRow;

verus! {

/// Row `shredstream_proxy-connection_metrics`.
#[derive(Clone, Copy, Debug, PartialEq, Eq, Structural)]
pub struct ConnectionMetrics {
    pub received: i64,
    pub success_forward: i64,
    pub fail_forward: i64,
    pub duplicate: i64,
}

/// Row `shredstream_proxy-service_metrics`.
#[derive(Clone, Copy, Debug, PartialEq, Eq, Structural)]
pub struct ServiceMetrics {
    pub recovered_count: i64,
    pub entry_count: i64,
    pub txn_count: i64,
    pub unknown_start_position_count: i64,
    pub fec_recovery_error_count: i64,
    pub bincode_deserialize_error_count: i64,
    pub unknown_start_position_error_count: i64,
}

/// Row `shredstream_proxy-receiver_stats`, for one source.
#[derive(Clone, Copy, Debug, PartialEq, Eq)]
pub struct ReceiverStats {
    pub source: SourceKey,
    pub discarded_packets: i64,
    pub not_discarded_packets: i64,
}

/// Row `shredstream_proxy-forwarding_perf`.
#[derive(Clone, Copy, Debug, PartialEq, Eq, Structural)]
pub struct ForwardingPerf {
    pub batches: i64,
    pub packets: i64,
    pub dest_sends: i64,
    pub worker_count: i64,
    pub worker_dropped_batches: i64,
    pub avg_packets_per_batch: i64,
    pub avg_dests_per_batch: i64,
    pub avg_total_us: i64,
    pub avg_dedup_us: i64,
    pub avg_fanout_dispatch_us: i64,
    pub avg_stats_us: i64,
    pub avg_reconstruct_clone_us: i64,
    pub max_total_us: i64,
    pub max_fanout_dispatch_us: i64,
    pub e2e_batches: i64,
    pub avg_end_to_end_us: i64,
    pub max_end_to_end_us: i64,
}

/// Row `shredstream_proxy-worker_perf`.
#[derive(Clone, Copy, Debug, PartialEq, Eq, Structural)]
pub struct WorkerPerf {
    pub worker_batches: i64,
    pub worker_packets_sent: i64,
    pub avg_worker_send_us: i64,
    pub max_worker_send_us: i64,
    pub avg_worker_packets_per_batch: i64,
}

/// All rows of a reporting interval.
#[derive(Debug)]
pub struct MetricsReport {
    pub connection: ConnectionMetrics,
    /// Only where the decoded-entries service runs.
    pub service: Option<ServiceMetrics>,
    /// One row per source, in no particular order.
    pub receivers: Vec<ReceiverStats>,
    /// Only where a batch was timed in this interval.
    pub forwarding: Option<ForwardingPerf>,
    /// Only beside a `forwarding` row, where a shard was timed too.
    pub worker: Option<WorkerPerf>,
}

/// A counter as it is emitted: the metrics service takes signed integers.
#[verifier::inline]
pub open spec fn emitted(counter: u64) -> i64 {
    counter as i64
}

/// Converts a counter for emission.
fn emit(counter: u64) -> (field: i64)
    ensures
        field == emitted(counter),
{
    #[verifier::truncate]
    (counter as i64)
}

/// The row for one source.
pub open spec fn receiver_row(row: SourceRow) -> ReceiverStats {
    ReceiverStats {
        source: row.0,
        discarded_packets: emitted((row.1).0),
        not_discarded_packets: emitted((row.1).1),
    }
}

/// Whether `rows` reports every source of a table once, in some order.
pub open spec fn reports_sources(
    rows: Seq<ReceiverStats>,
    table: Map<SourceKey, SourceCounts>,
) -> bool {
    exists|listing: Seq<SourceRow>| #[trigger]
        is_listing(listing, table) && rows == listing.map_values(|row: SourceRow| receiver_row(row))
}

/// Turns the listing of a table into its rows.
fn receiver_rows(listing: &Vec<SourceRow>) -> (rows: Vec<ReceiverStats>)
    ensures
        rows@ == listing@.map_values(|row: SourceRow| receiver_row(row)),
{
    let mut rows: Vec<ReceiverStats> = Vec::new();
    let mut i: usize = 0;
    while i < listing.len()
        invariant
            i <= listing.len(),
            rows@ == listing@.take(i as int).map_values(|row: SourceRow| receiver_row(row)),
        decreases listing.len() - i,
    {
        let (source, counts) = listing[i];
        rows.push(
            ReceiverStats {
                source,
                discarded_packets: emit(counts.0),
                not_discarded_packets: emit(counts.1),
            },
        );
        i = i + 1;
        assert(rows@ =~= listing@.take(i as int).map_values(|row: SourceRow| receiver_row(row)));
    }
    assert(listing@.take(i as int) =~= listing@);
    rows
}

impl ShredMetrics {
    /// The throughput row.
    pub open spec fn connection_row(self) -> ConnectionMetrics {
        ConnectionMetrics {
            received: emitted(self.received),
            success_forward: emitted(self.success_forward),
            fail_forward: emitted(self.fail_forward),
            duplicate: emitted(self.duplicate),
        }
    }

    /// The row of the decoded-entries service, if it runs.
    pub open spec fn service_row(self) -> Option<ServiceMetrics> {
        if self.enabled_grpc_service {
            Some(
                ServiceMetrics {
                    recovered_count: emitted(self.recovered_count),
                    entry_count: emitted(self.entry_count),
                    txn_count: emitted(self.txn_count),
                    unknown_start_position_count: emitted(self.unknown_start_position_count),
                    fec_recovery_error_count: emitted(self.fec_recovery_error_count),
                    bincode_deserialize_error_count: emitted(
                        self.bincode_deserialize_error_count,
                    ),
                    unknown_start_position_error_count: emitted(
                        self.unknown_start_position_error_count,
                    ),
                },
            )
        } else {
            None
        }
    }

    /// The average end-to-end time of a batch, zero where there is none.
    pub open spec fn avg_end_to_end_us(self) -> u64 {
        if self.e2e_batches > 0 {
            self.e2e_us_sum / self.e2e_batches
        } else {
            0
        }
    }

    /// The longest end-to-end time of a batch, zero where there is none.
    pub open spec fn max_end_to_end_us(self) -> u64 {
        if self.e2e_batches > 0 {
            self.e2e_us_max
        } else {
            0
        }
    }

    /// The row of the coordinators, if a batch was timed.
    pub open spec fn forwarding_row(self) -> Option<ForwardingPerf> {
        let batches = self.forward_batches;
        if batches == 0 {
            None
        } else {
            Some(
                ForwardingPerf {
                    batches: emitted(batches),
                    packets: emitted(self.forward_packets_in_batches),
                    dest_sends: emitted(self.forward_dest_send_count),
                    worker_count: self.worker_count as i64,
                    worker_dropped_batches: emitted(self.worker_dropped_batches),
                    avg_packets_per_batch: emitted(self.forward_packets_in_batches / batches),
                    avg_dests_per_batch: emitted(self.forward_dest_send_count / batches),
                    avg_total_us: emitted(self.forward_total_us_sum / batches),
                    avg_dedup_us: emitted(self.forward_dedup_us_sum / batches),
                    avg_fanout_dispatch_us: emitted(self.forward_fanout_send_us_sum / batches),
                    avg_stats_us: emitted(self.forward_stats_us_sum / batches),
                    avg_reconstruct_clone_us: emitted(
                        self.forward_reconstruct_clone_us_sum / batches,
                    ),
                    max_total_us: emitted(self.forward_total_us_max),
                    max_fanout_dispatch_us: emitted(self.forward_fanout_send_us_max),
                    e2e_batches: emitted(self.e2e_batches),
                    avg_end_to_end_us: emitted(self.avg_end_to_end_us()),
                    max_end_to_end_us: emitted(self.max_end_to_end_us()),
                },
            )
        }
    }

    /// The row of the shards, if both a batch and a shard were timed.
    pub open spec fn worker_row(self) -> Option<WorkerPerf> {
        let batches = self.worker_batches;
        if self.forward_batches == 0 || batches == 0 {
            None
        } else {
            Some(
                WorkerPerf {
                    worker_batches: emitted(batches),
                    worker_packets_sent: emitted(self.worker_packets_sent),
                    avg_worker_send_us: emitted(self.worker_send_us_sum / batches),
                    max_worker_send_us: emitted(self.worker_send_us_max),
                    avg_worker_packets_per_batch: emitted(self.worker_packets_sent / batches),
                },
            )
        }
    }

    /// The counters after a report, beside the table of sources: the counters of the
    /// decoded-entries service start over once they are reported.
    pub open spec fn after_report(self) -> Self {
        if self.enabled_grpc_service {
            ShredMetrics {
                recovered_count: 0,
                entry_count: 0,
                txn_count: 0,
                unknown_start_position_count: 0,
                fec_recovery_error_count: 0,
                bincode_deserialize_error_count: 0,
                unknown_start_position_error_count: 0,
                ..self
            }
        } else {
            self
        }
    }

    /// Takes the row of the decoded-entries service, if it runs.
    fn take_service_row(&mut self) -> (row: Option<ServiceMetrics>)
        ensures
            row == old(self).service_row(),
            *final(self) == old(self).after_report(),
    {
        if !self.enabled_grpc_service {
            return None;
        }
        let row = ServiceMetrics {
            recovered_count: emit(self.recovered_count),
            entry_count: emit(self.entry_count),
            txn_count: emit(self.txn_count),
            unknown_start_position_count: emit(self.unknown_start_position_count),
            fec_recovery_error_count: emit(self.fec_recovery_error_count),
            bincode_deserialize_error_count: emit(self.bincode_deserialize_error_count),
            unknown_start_position_error_count: emit(self.unknown_start_position_error_count),
        };
        self.recovered_count = 0;
        self.entry_count = 0;
        self.txn_count = 0;
        self.unknown_start_position_count = 0;
        self.fec_recovery_error_count = 0;
        self.bincode_deserialize_error_count = 0;
        self.unknown_start_position_error_count = 0;
        Some(row)
    }

    /// Makes the row of the coordinators, if a batch was timed.
    fn make_forwarding_row(&self) -> (row: Option<ForwardingPerf>)
        ensures
            row == self.forwarding_row(),
    {
        let batches: u64 = self.forward_batches;
        if batches == 0 {
            return None;
        }
        let (avg_end_to_end_us, max_end_to_end_us): (u64, u64) = if self.e2e_batches > 0 {
            (self.e2e_us_sum / self.e2e_batches, self.e2e_us_max)
        } else {
            (0, 0)
        };
        Some(
            ForwardingPerf {
                batches: emit(batches),
                packets: emit(self.forward_packets_in_batches),
                dest_sends: emit(self.forward_dest_send_count),
                worker_count: #[verifier::truncate]
                (self.worker_count as i64),
                worker_dropped_batches: emit(self.worker_dropped_batches),
                avg_packets_per_batch: emit(self.forward_packets_in_batches / batches),
                avg_dests_per_batch: emit(self.forward_dest_send_count / batches),
                avg_total_us: emit(self.forward_total_us_sum / batches),
                avg_dedup_us: emit(self.forward_dedup_us_sum / batches),
                avg_fanout_dispatch_us: emit(self.forward_fanout_send_us_sum / batches),
                avg_stats_us: emit(self.forward_stats_us_sum / batches),
                avg_reconstruct_clone_us: emit(self.forward_reconstruct_clone_us_sum / batches),
                max_total_us: emit(self.forward_total_us_max),
                max_fanout_dispatch_us: emit(self.forward_fanout_send_us_max),
                e2e_batches: emit(self.e2e_batches),
                avg_end_to_end_us: emit(avg_end_to_end_us),
                max_end_to_end_us: emit(max_end_to_end_us),
            },
        )
    }

    /// Makes the row of the shards, if both a batch and a shard were timed.
    fn make_worker_row(&self) -> (row: Option<WorkerPerf>)
        ensures
            row == self.worker_row(),
    {
        let batches: u64 = self.worker_batches;
        if self.forward_batches == 0 || batches == 0 {
            return None;
        }
        Some(
            WorkerPerf {
                worker_batches: emit(batches),
                worker_packets_sent: emit(self.worker_packets_sent),
                avg_worker_send_us: emit(self.worker_send_us_sum / batches),
                max_worker_send_us: emit(self.worker_send_us_max),
                avg_worker_packets_per_batch: emit(self.worker_packets_sent / batches),
            },
        )
    }

    /// Makes the rows of the reporting interval. The counters by source, and those of the
    /// decoded-entries service where it runs, start over; the others wait for [`Self::reset`].
    pub fn report(&mut self) -> (report: MetricsReport)
        ensures
            report.connection == old(self).connection_row(),
            report.service == old(self).service_row(),
            reports_sources(report.receivers@, sources(old(self).packets_received)),
            report.forwarding == old(self).forwarding_row(),
            report.worker == old(self).worker_row(),
            report.connection.received == old(self).received as i64,
            report.connection.success_forward == old(self).success_forward as i64,
            report.connection.fail_forward == old(self).fail_forward as i64,
            report.connection.duplicate == old(self).duplicate as i64,
            report.service is Some <==> old(self).enabled_grpc_service,
            report.service matches Some(row) ==> {
                &&& row.recovered_count == old(self).recovered_count as i64
                &&& row.entry_count == old(self).entry_count as i64
                &&& row.txn_count == old(self).txn_count as i64
                &&& row.unknown_start_position_count == old(self).unknown_start_position_count as i64
                &&& row.fec_recovery_error_count == old(self).fec_recovery_error_count as i64
                &&& row.bincode_deserialize_error_count == old(self).bincode_deserialize_error_count as i64
                &&& row.unknown_start_position_error_count == old(self).unknown_start_position_error_count as i64
            },
            report.forwarding is Some <==> old(self).forward_batches > 0,
            report.forwarding matches Some(row) ==> {
                &&& row.batches == old(self).forward_batches as i64
                &&& row.packets == old(self).forward_packets_in_batches as i64
                &&& row.dest_sends == old(self).forward_dest_send_count as i64
                &&& row.worker_count == old(self).worker_count as i64
                &&& row.worker_dropped_batches == old(self).worker_dropped_batches as i64
                &&& row.max_total_us == old(self).forward_total_us_max as i64
                &&& row.max_fanout_dispatch_us == old(self).forward_fanout_send_us_max as i64
                &&& row.e2e_batches == old(self).e2e_batches as i64
                &&& row.avg_packets_per_batch == (old(self).forward_packets_in_batches / old(self).forward_batches) as i64
                &&& row.avg_dests_per_batch == (old(self).forward_dest_send_count / old(self).forward_batches) as i64
                &&& row.avg_total_us == (old(self).forward_total_us_sum / old(self).forward_batches) as i64
                &&& row.avg_dedup_us == (old(self).forward_dedup_us_sum / old(self).forward_batches) as i64
                &&& row.avg_fanout_dispatch_us == (old(self).forward_fanout_send_us_sum / old(self).forward_batches) as i64
                &&& row.avg_stats_us == (old(self).forward_stats_us_sum / old(self).forward_batches) as i64
                &&& row.avg_reconstruct_clone_us == (old(self).forward_reconstruct_clone_us_sum / old(self).forward_batches) as i64
                &&& old(self).e2e_batches > 0 ==> row.avg_end_to_end_us == (old(self).e2e_us_sum
                    / old(self).e2e_batches) as i64 && row.max_end_to_end_us == old(
                    self
                ).e2e_us_max as i64
                &&& old(self).e2e_batches == 0 ==> row.avg_end_to_end_us == 0
                    && row.max_end_to_end_us == 0
            },
            report.worker is Some <==> old(self).forward_batches > 0 && old(self).worker_batches
                > 0,
            report.worker matches Some(row) ==> {
                &&& row.worker_batches == old(self).worker_batches as i64
                &&& row.worker_packets_sent == old(self).worker_packets_sent as i64
                &&& row.max_worker_send_us == old(self).worker_send_us_max as i64
                &&& row.avg_worker_send_us == (old(self).worker_send_us_sum / old(self).worker_batches) as i64
                &&& row.avg_worker_packets_per_batch == (old(self).worker_packets_sent / old(self).worker_batches) as i64
            },
            sources(final(self).packets_received) == (Map::<SourceKey, SourceCounts>::empty()),
            *final(self) == (ShredMetrics {
                packets_received: final(self).packets_received,
                ..old(self).after_report()
            }),
            !old(self).enabled_grpc_service ==> *final(self) == (ShredMetrics {
                packets_received: final(self).packets_received,
                ..*old(self)
            }),
            old(self).enabled_grpc_service ==> *final(self) == (ShredMetrics {
                packets_received: final(self).packets_received,
                recovered_count: 0,
                entry_count: 0,
                txn_count: 0,
                unknown_start_position_count: 0,
                fec_recovery_error_count: 0,
                bincode_deserialize_error_count: 0,
                unknown_start_position_error_count: 0,
                ..*old(self)
            }),
    {
        let connection = ConnectionMetrics {
            received: emit(self.received),
            success_forward: emit(self.success_forward),
            fail_forward: emit(self.fail_forward),
            duplicate: emit(self.duplicate),
        };
        let service = self.take_service_row();
        let listing = drain(&mut self.packets_received);
        let receivers = receiver_rows(&listing);
        let forwarding = self.make_forwarding_row();
        let worker = self.make_worker_row();
        assert(0u64 as i64 == 0i64) by (bit_vector);
        MetricsReport { connection, service, receivers, forwarding, worker }
    }

    /// Ends a reporting interval: makes its rows, and starts the next one.
    pub fn end_interval(&mut self) -> (report: MetricsReport)
        ensures
            report.connection == old(self).connection_row(),
            report.service == old(self).service_row(),
            reports_sources(report.receivers@, sources(old(self).packets_received)),
            report.forwarding == old(self).forwarding_row(),
            report.worker == old(self).worker_row(),
            report.connection.received == old(self).received as i64,
            report.connection.success_forward == old(self).success_forward as i64,
            report.connection.fail_forward == old(self).fail_forward as i64,
            report.connection.duplicate == old(self).duplicate as i64,
            report.service is Some <==> old(self).enabled_grpc_service,
            report.service matches Some(row) ==> {
                &&& row.recovered_count == old(self).recovered_count as i64
                &&& row.entry_count == old(self).entry_count as i64
                &&& row.txn_count == old(self).txn_count as i64
                &&& row.unknown_start_position_count == old(self).unknown_start_position_count as i64
                &&& row.fec_recovery_error_count == old(self).fec_recovery_error_count as i64
                &&& row.bincode_deserialize_error_count == old(self).bincode_deserialize_error_count as i64
                &&& row.unknown_start_position_error_count == old(self).unknown_start_position_error_count as i64
            },
            report.forwarding is Some <==> old(self).forward_batches > 0,
            report.forwarding matches Some(row) ==> {
                &&& row.batches == old(self).forward_batches as i64
                &&& row.packets == old(self).forward_packets_in_batches as i64
                &&& row.dest_sends == old(self).forward_dest_send_count as i64
                &&& row.worker_count == old(self).worker_count as i64
                &&& row.worker_dropped_batches == old(self).worker_dropped_batches as i64
                &&& row.max_total_us == old(self).forward_total_us_max as i64
                &&& row.max_fanout_dispatch_us == old(self).forward_fanout_send_us_max as i64
                &&& row.e2e_batches == old(self).e2e_batches as i64
                &&& row.avg_packets_per_batch == (old(self).forward_packets_in_batches / old(self).forward_batches) as i64
                &&& row.avg_dests_per_batch == (old(self).forward_dest_send_count / old(self).forward_batches) as i64
                &&& row.avg_total_us == (old(self).forward_total_us_sum / old(self).forward_batches) as i64
                &&& row.avg_dedup_us == (old(self).forward_dedup_us_sum / old(self).forward_batches) as i64
                &&& row.avg_fanout_dispatch_us == (old(self).forward_fanout_send_us_sum / old(self).forward_batches) as i64
                &&& row.avg_stats_us == (old(self).forward_stats_us_sum / old(self).forward_batches) as i64
                &&& row.avg_reconstruct_clone_us == (old(self).forward_reconstruct_clone_us_sum / old(self).forward_batches) as i64
                &&& old(self).e2e_batches > 0 ==> row.avg_end_to_end_us == (old(self).e2e_us_sum
                    / old(self).e2e_batches) as i64 && row.max_end_to_end_us == old(
                    self
                ).e2e_us_max as i64
                &&& old(self).e2e_batches == 0 ==> row.avg_end_to_end_us == 0
                    && row.max_end_to_end_us == 0
            },
            report.worker is Some <==> old(self).forward_batches > 0 && old(self).worker_batches
                > 0,
            report.worker matches Some(row) ==> {
                &&& row.worker_batches == old(self).worker_batches as i64
                &&& row.worker_packets_sent == old(self).worker_packets_sent as i64
                &&& row.max_worker_send_us == old(self).worker_send_us_max as i64
                &&& row.avg_worker_send_us == (old(self).worker_send_us_sum / old(self).worker_batches) as i64
                &&& row.avg_worker_packets_per_batch == (old(self).worker_packets_sent / old(self).worker_batches) as i64
            },
            sources(final(self).packets_received) == (Map::<SourceKey, SourceCounts>::empty()),
            *final(self) == (ShredMetrics {
                packets_received: final(self).packets_received,
                ..old(self).after_report().after_reset()
            }),
    {
        let report = self.report();
        self.reset();
        report
    }
}

/// The counters of a service that runs, like those by source, are reported once: they are zero
/// in the next interval until something is counted again.
pub proof fn intervals_report_once(metrics: ShredMetrics)
    ensures
        ({
            let next = metrics.after_report().after_reset();
            &&& next.connection_row() == (ConnectionMetrics {
                received: 0,
                success_forward: 0,
                fail_forward: 0,
                duplicate: 0,
            })
            &&& metrics.enabled_grpc_service ==> next.service_row() == Some(
                ServiceMetrics {
                    recovered_count: 0,
                    entry_count: 0,
                    txn_count: 0,
                    unknown_start_position_count: 0,
                    fec_recovery_error_count: 0,
                    bincode_deserialize_error_count: 0,
                    unknown_start_position_error_count: 0,
                },
            )
            &&& next.forwarding_row() is None
            &&& next.worker_row() is None
        }),
{
    reset_silences_performance_rows(metrics.after_report());
    assert(0u64 as i64 == 0i64) by (bit_vector);
}

/// Where nothing was timed in an interval, no row on performance is made; after a reset that is
/// so until the next batch is timed.
pub proof fn reset_silences_performance_rows(metrics: ShredMetrics)
    ensures
        metrics.after_reset().forwarding_row() is None,
        metrics.after_reset().worker_row() is None,
        metrics.after_reset().connection_row() == (ConnectionMetrics {
            received: 0,
            success_forward: 0,
            fail_forward: 0,
            duplicate: 0,
        }),
{
    assert(0u64 as i64 == 0i64) by (bit_vector);
}

/// A quotient is no larger than the bound per item that its dividend keeps to.
proof fn lemma_average_within(sum: u64, count: u64, max: u64)
    requires
        count > 0,
        sum <= count * max,
    ensures
        sum / count <= max,
{
    assert(sum as int / count as int <= max as int) by (nonlinear_arith)
        requires
            count > 0,
            sum <= count * max,
    ;
}

/// Of consistent times no average exceeds its maximum.
pub proof fn averages_within_maxima(metrics: ShredMetrics)
    requires
        metrics.times_consistent(),
    ensures
        metrics.avg_end_to_end_us() <= metrics.max_end_to_end_us(),
        metrics.forward_batches > 0 ==> metrics.forward_total_us_sum / metrics.forward_batches
            <= metrics.forward_total_us_max && metrics.forward_fanout_send_us_sum
            / metrics.forward_batches <= metrics.forward_fanout_send_us_max,
        metrics.worker_batches > 0 ==> metrics.worker_send_us_sum / metrics.worker_batches
            <= metrics.worker_send_us_max,
{
    if metrics.e2e_batches > 0 {
        lemma_average_within(metrics.e2e_us_sum, metrics.e2e_batches, metrics.e2e_us_max);
    }
    if metrics.forward_batches > 0 {
        lemma_average_within(
            metrics.forward_total_us_sum,
            metrics.forward_batches,
            metrics.forward_total_us_max,
        );
        lemma_average_within(
            metrics.forward_fanout_send_us_sum,
            metrics.forward_batches,
            metrics.forward_fanout_send_us_max,
        );
    }
    if metrics.worker_batches > 0 {
        lemma_average_within(
            metrics.worker_send_us_sum,
            metrics.worker_batches,
            metrics.worker_send_us_max,
        );
    }
}

/// Every field of the throughput row and of the service row shows the counter of its own name, as
/// long as the counter fits into the integers that the metrics service takes. The service row is
/// there exactly if the service runs.
pub proof fn rows_show_the_counters_of_their_names(metrics: ShredMetrics)
    ensures
        metrics.received <= i64::MAX ==> metrics.connection_row().received == metrics.received,
        metrics.success_forward <= i64::MAX ==> metrics.connection_row().success_forward == metrics.success_forward,
        metrics.fail_forward <= i64::MAX ==> metrics.connection_row().fail_forward == metrics.fail_forward,
        metrics.duplicate <= i64::MAX ==> metrics.connection_row().duplicate == metrics.duplicate,
        metrics.service_row() is Some <==> metrics.enabled_grpc_service,
        metrics.service_row() matches Some(row) ==> {
            &&& metrics.recovered_count <= i64::MAX ==> row.recovered_count == metrics.recovered_count
            &&& metrics.entry_count <= i64::MAX ==> row.entry_count == metrics.entry_count
            &&& metrics.txn_count <= i64::MAX ==> row.txn_count == metrics.txn_count
            &&& metrics.unknown_start_position_count <= i64::MAX ==> row.unknown_start_position_count == metrics.unknown_start_position_count
            &&& metrics.fec_recovery_error_count <= i64::MAX ==> row.fec_recovery_error_count == metrics.fec_recovery_error_count
            &&& metrics.bincode_deserialize_error_count <= i64::MAX ==> row.bincode_deserialize_error_count == metrics.bincode_deserialize_error_count
            &&& metrics.unknown_start_position_error_count <= i64::MAX ==> row.unknown_start_position_error_count == metrics.unknown_start_position_error_count
        },
{
}

/// What is recorded in an interval is what its row shows: so many packets were received and so many
/// were duplicates, so many pairs were sent and so many failed, each under its own name.
pub proof fn interval_row_shows_what_was_recorded(
    metrics: ShredMetrics,
    packets: u64,
    num_deduped: u64,
    sent: u64,
    failed: u64,
)
    requires
        packets <= i64::MAX,
        num_deduped <= i64::MAX,
        sent <= i64::MAX,
        failed <= i64::MAX,
    ensures
        ({
            let row = metrics.after_reset().after_receive(packets).after_dedup(
                num_deduped,
            ).after_send(sent, failed).connection_row();
            &&& row.received == packets
            &&& row.duplicate == num_deduped
            &&& row.success_forward == sent
            &&& row.fail_forward == failed
        }),
{
}

/// The rows by source show, for every address that a packet came from, how many of its packets were
/// discarded and how many were not. There is one row for such an address, and none for another.
pub proof fn rows_by_source_show_its_packets(
    rows: Seq<ReceiverStats>,
    packets: Seq<PacketView>,
    ip: IpAddr,
    key: SourceKey,
)
    requires
        packets.len() <= i64::MAX,
        reports_sources(rows, counted_packets(Map::<SourceKey, SourceCounts>::empty(), packets)),
        ip matches IpAddr::V4(bits) ==> !key.0 && key.1 == bits,
        ip matches IpAddr::V6(bits) ==> key.0 && key.1 == bits,
    ensures
        forall|i: int| #![trigger rows[i]]
            0 <= i < rows.len() && rows[i].source == key ==> {
                &&& rows[i].discarded_packets == packets.filter(
                    |packet: PacketView| packet.source == ip && packet.discard == true,
                ).len()
                &&& rows[i].not_discarded_packets == packets.filter(
                    |packet: PacketView| packet.source == ip && packet.discard == false,
                ).len()
            },
        forall|i: int, j: int| #![trigger rows[i], rows[j]]
            0 <= i < j < rows.len() ==> rows[i].source != rows[j].source,
        (exists|i: int| 0 <= i < rows.len() && (#[trigger] rows[i]).source == key) <==> (exists|
            i: int,
        |
            0 <= i < packets.len() && (#[trigger] packets[i]).source == ip),
{
    let empty = Map::<SourceKey, SourceCounts>::empty();
    let table = counted_packets(empty, packets);
    let listing = choose|listing: Seq<SourceRow>| #[trigger]
        is_listing(listing, table) && rows == listing.map_values(
            |row: SourceRow| receiver_row(row),
        );
    packets_count_for_their_source(empty, packets, ip, key);
    lemma_some_from(packets, ip);
    assert forall|i: int| #![trigger rows[i]] 0 <= i < rows.len() implies rows[i] == receiver_row(
        listing[i],
    ) by {}
    assert forall|i: int, j: int| #![trigger rows[i], rows[j]]
        0 <= i < j < rows.len() implies rows[i].source != rows[j].source by {
        assert(listing[i].0 != listing[j].0);
    }
    if table.contains_key(key) {
        let i = choose|i: int| 0 <= i < listing.len() && (#[trigger] listing[i]).0 == key;
        assert(rows[i].source == key);
    }
    assert forall|i: int| #![trigger rows[i]] 0 <= i < rows.len() && rows[i].source == key implies {
        &&& rows[i].discarded_packets == num_from(packets, ip, true)
        &&& rows[i].not_discarded_packets == num_from(packets, ip, false)
        &&& table.contains_key(key)
    } by {
        assert(table.contains_key(listing[i].0));
    }
    lemma_same_count(packets, ip);
}

/// Counting with the mark spelled out is counting.
proof fn lemma_same_count(packets: Seq<PacketView>, ip: IpAddr)
    ensures
        num_from(packets, ip, true) == packets.filter(
            |packet: PacketView| packet.source == ip && packet.discard == true,
        ).len(),
        num_from(packets, ip, false) == packets.filter(
            |packet: PacketView| packet.source == ip && packet.discard == false,
        ).len(),
    decreases packets.len(),
{
    reveal(Seq::filter);
    if packets.len() > 0 {
        lemma_same_count(packets.drop_last(), ip);
    }
}

/// There is a packet from an address exactly if one is counted for it.
proof fn lemma_some_from(packets: Seq<PacketView>, ip: IpAddr)
    ensures
        num_from(packets, ip, true) + num_from(packets, ip, false) > 0 <==> exists|i: int|
            0 <= i < packets.len() && (#[trigger] packets[i]).source == ip,
    decreases packets.len(),
{
    reveal(Seq::filter);
    if packets.len() > 0 {
        let rest = packets.drop_last();
        lemma_some_from(rest, ip);
        let last = packets.len() - 1;
        assert(packets[last] == packets.last());
        if exists|i: int| 0 <= i < rest.len() && (#[trigger] rest[i]).source == ip {
            let i = choose|i: int| 0 <= i < rest.len() && (#[trigger] rest[i]).source == ip;
            assert(packets[i].source == ip);
        }
        if exists|i: int| 0 <= i < packets.len() && (#[trigger] packets[i]).source == ip {
            let i = choose|i: int| 0 <= i < packets.len() && (#[trigger] packets[i]).source == ip;
            if i < last {
                assert(rest[i].source == ip);
            }
        }
    }
}

/// Whether this is the average of `count` values with this sum, rounded down.
pub open spec fn is_average(avg: i64, sum: u64, count: u64) -> bool {
    avg * count <= sum < (avg + 1) * count
}

/// A quotient is the average, rounded down.
proof fn lemma_quotient_is_average(sum: u64, count: u64)
    requires
        count > 0,
        sum <= i64::MAX,
    ensures
        is_average((sum / count) as i64, sum, count),
{
    let q = sum as int / count as int;
    vstd::arithmetic::div_mod::lemma_fundamental_div_mod(sum as int, count as int);
    vstd::arithmetic::div_mod::lemma_mod_bound(sum as int, count as int);
    vstd::arithmetic::div_mod::lemma_div_is_ordered_by_denominator(sum as int, 1, count as int);
    assert(q * count <= sum < (q + 1) * count) by (nonlinear_arith)
        requires
            sum == count * q + (sum as int) % (count as int),
            0 <= (sum as int) % (count as int),
            (sum as int) % (count as int) < count,
    ;
}

/// The rows on performance show counts and maxima as they are, and of every sum its average over
/// the batches that were timed, rounded down. They are there exactly if there is something to
/// average over; the end-to-end fields are zero where no batch ended.
pub proof fn performance_rows_show_averages(metrics: ShredMetrics)
    requires
        metrics.e2e_batches <= i64::MAX,
        metrics.e2e_us_max <= i64::MAX,
        metrics.e2e_us_sum <= i64::MAX,
        metrics.forward_batches <= i64::MAX,
        metrics.forward_dedup_us_sum <= i64::MAX,
        metrics.forward_dest_send_count <= i64::MAX,
        metrics.forward_fanout_send_us_max <= i64::MAX,
        metrics.forward_fanout_send_us_sum <= i64::MAX,
        metrics.forward_packets_in_batches <= i64::MAX,
        metrics.forward_reconstruct_clone_us_sum <= i64::MAX,
        metrics.forward_stats_us_sum <= i64::MAX,
        metrics.forward_total_us_max <= i64::MAX,
        metrics.forward_total_us_sum <= i64::MAX,
        metrics.worker_batches <= i64::MAX,
        metrics.worker_count <= i64::MAX,
        metrics.worker_dropped_batches <= i64::MAX,
        metrics.worker_packets_sent <= i64::MAX,
        metrics.worker_send_us_max <= i64::MAX,
        metrics.worker_send_us_sum <= i64::MAX,
    ensures
        metrics.forwarding_row() is Some <==> metrics.forward_batches > 0,
        metrics.forwarding_row() matches Some(row) ==> {
            &&& row.batches == metrics.forward_batches
            &&& row.packets == metrics.forward_packets_in_batches
            &&& row.dest_sends == metrics.forward_dest_send_count
            &&& row.worker_count == metrics.worker_count
            &&& row.worker_dropped_batches == metrics.worker_dropped_batches
            &&& row.max_total_us == metrics.forward_total_us_max
            &&& row.max_fanout_dispatch_us == metrics.forward_fanout_send_us_max
            &&& row.e2e_batches == metrics.e2e_batches
            &&& row.avg_packets_per_batch * metrics.forward_batches <= metrics.forward_packets_in_batches < (row.avg_packets_per_batch + 1)
                * metrics.forward_batches
            &&& row.avg_dests_per_batch * metrics.forward_batches <= metrics.forward_dest_send_count < (row.avg_dests_per_batch + 1)
                * metrics.forward_batches
            &&& row.avg_total_us * metrics.forward_batches <= metrics.forward_total_us_sum < (row.avg_total_us + 1)
                * metrics.forward_batches
            &&& row.avg_dedup_us * metrics.forward_batches <= metrics.forward_dedup_us_sum < (row.avg_dedup_us + 1)
                * metrics.forward_batches
            &&& row.avg_fanout_dispatch_us * metrics.forward_batches <= metrics.forward_fanout_send_us_sum < (row.avg_fanout_dispatch_us + 1)
                * metrics.forward_batches
            &&& row.avg_stats_us * metrics.forward_batches <= metrics.forward_stats_us_sum < (row.avg_stats_us + 1)
                * metrics.forward_batches
            &&& row.avg_reconstruct_clone_us * metrics.forward_batches <= metrics.forward_reconstruct_clone_us_sum < (row.avg_reconstruct_clone_us + 1)
                * metrics.forward_batches
            &&& metrics.e2e_batches == 0 ==> row.avg_end_to_end_us == 0 && row.max_end_to_end_us == 0
            &&& metrics.e2e_batches > 0 ==> row.max_end_to_end_us == metrics.e2e_us_max
            &&& metrics.e2e_batches > 0 ==> row.avg_end_to_end_us * metrics.e2e_batches
                <= metrics.e2e_us_sum < (row.avg_end_to_end_us + 1) * metrics.e2e_batches
        },
        metrics.worker_row() is Some <==> metrics.forward_batches > 0 && metrics.worker_batches > 0,
        metrics.worker_row() matches Some(row) ==> {
            &&& row.worker_batches == metrics.worker_batches
            &&& row.worker_packets_sent == metrics.worker_packets_sent
            &&& row.max_worker_send_us == metrics.worker_send_us_max
            &&& row.avg_worker_send_us * metrics.worker_batches <= metrics.worker_send_us_sum < (row.avg_worker_send_us + 1)
                * metrics.worker_batches
            &&& row.avg_worker_packets_per_batch * metrics.worker_batches <= metrics.worker_packets_sent < (row.avg_worker_packets_per_batch + 1)
                * metrics.worker_batches
        },
{
    let batches = metrics.forward_batches;
    if batches > 0 {
        lemma_quotient_is_average(metrics.forward_packets_in_batches, batches);
        lemma_quotient_is_average(metrics.forward_dest_send_count, batches);
        lemma_quotient_is_average(metrics.forward_total_us_sum, batches);
        lemma_quotient_is_average(metrics.forward_dedup_us_sum, batches);
        lemma_quotient_is_average(metrics.forward_fanout_send_us_sum, batches);
        lemma_quotient_is_average(metrics.forward_stats_us_sum, batches);
        lemma_quotient_is_average(metrics.forward_reconstruct_clone_us_sum, batches);
        if metrics.e2e_batches > 0 {
            lemma_quotient_is_average(metrics.e2e_us_sum, metrics.e2e_batches);
        }
        if metrics.worker_batches > 0 {
            lemma_quotient_is_average(metrics.worker_send_us_sum, metrics.worker_batches);
            lemma_quotient_is_average(metrics.worker_packets_sent, metrics.worker_batches);
        }
    }
}

} // verus!
