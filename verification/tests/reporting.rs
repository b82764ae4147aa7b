use shredstream_forwarder::metrics::{update_max, BatchTimings, ShredMetrics};
use shredstream_forwarder::report::{ConnectionMetrics, ForwardingPerf, ServiceMetrics, WorkerPerf};
use solana_packet::{Meta, Packet, PacketFlags, PACKET_DATA_SIZE};
use solana_perf::packet::PacketBatch;

const TIMINGS: BatchTimings =
    BatchTimings { total_us: 30, dedup_us: 10, fanout_us: 3, stats_us: 7, reconstruct_us: 5 };

#[test]
fn counters_start_at_zero() {
    let mut metrics = ShredMetrics::default();
    assert!(!metrics.enabled_grpc_service);
    let report = metrics.report();
    assert_eq!(
        report.connection,
        ConnectionMetrics { received: 0, success_forward: 0, fail_forward: 0, duplicate: 0 }
    );
    assert!(report.service.is_none());
    assert!(report.receivers.is_empty());
    assert!(report.forwarding.is_none());
    assert!(report.worker.is_none());
}

#[test]
fn maxima_only_rise() {
    let mut max: u64 = 5;
    update_max(&mut max, 3);
    assert_eq!(max, 5);
    update_max(&mut max, 9);
    assert_eq!(max, 9);
    for vals in [[4u64, 8, 2], [8, 2, 4], [2, 4, 8]] {
        let mut max: u64 = 3;
        for val in vals {
            update_max(&mut max, val);
        }
        assert_eq!(max, 8);
    }
}

#[test]
fn performance_rows_hold_averages_and_maxima() {
    let mut metrics = ShredMetrics::default();
    metrics.record_forward(10, 8, &TIMINGS);
    metrics.record_forward(
        5,
        8,
        &BatchTimings { total_us: 21, dedup_us: 4, fanout_us: 6, stats_us: 0, reconstruct_us: 0 },
    );
    metrics.record_shard_batch(10, 40);
    metrics.record_shard_batch(5, 21);
    metrics.record_shard_batch(5, 20);
    metrics.record_e2e(100);
    metrics.record_e2e(51);
    metrics.record_dispatch(3);
    metrics.worker_count = 27;
    let report = metrics.report();
    assert_eq!(
        report.forwarding,
        Some(ForwardingPerf {
            batches: 2,
            packets: 15,
            dest_sends: 16,
            worker_count: 27,
            worker_dropped_batches: 3,
            avg_packets_per_batch: 7,
            avg_dests_per_batch: 8,
            avg_total_us: 25,
            avg_dedup_us: 7,
            avg_fanout_dispatch_us: 4,
            avg_stats_us: 3,
            avg_reconstruct_clone_us: 2,
            max_total_us: 30,
            max_fanout_dispatch_us: 6,
            e2e_batches: 2,
            avg_end_to_end_us: 75,
            max_end_to_end_us: 100,
        })
    );
    assert_eq!(
        report.worker,
        Some(WorkerPerf {
            worker_batches: 3,
            worker_packets_sent: 20,
            avg_worker_send_us: 27,
            max_worker_send_us: 40,
            avg_worker_packets_per_batch: 6,
        })
    );
}

#[test]
fn end_to_end_fields_are_zero_where_no_batch_ended() {
    let mut metrics = ShredMetrics::default();
    metrics.record_forward(10, 8, &TIMINGS);
    let report = metrics.report();
    let row = report.forwarding.unwrap();
    assert_eq!((row.e2e_batches, row.avg_end_to_end_us, row.max_end_to_end_us), (0, 0, 0));
    assert!(report.worker.is_none());
}

#[test]
fn shard_times_wait_for_a_timed_batch() {
    let mut metrics = ShredMetrics::default();
    metrics.record_shard_batch(10, 40);
    let report = metrics.report();
    assert!(report.forwarding.is_none());
    assert!(report.worker.is_none());
}

#[test]
fn service_counters_are_reported_once() {
    let mut metrics = ShredMetrics::new(true);
    metrics.recovered_count = 1;
    metrics.entry_count = 2;
    metrics.txn_count = 3;
    metrics.unknown_start_position_count = 4;
    metrics.fec_recovery_error_count = 5;
    metrics.bincode_deserialize_error_count = 6;
    metrics.unknown_start_position_error_count = 7;
    let row = ServiceMetrics {
        recovered_count: 1,
        entry_count: 2,
        txn_count: 3,
        unknown_start_position_count: 4,
        fec_recovery_error_count: 5,
        bincode_deserialize_error_count: 6,
        unknown_start_position_error_count: 7,
    };
    assert_eq!(metrics.report().service, Some(row));
    assert_eq!(metrics.report().service.unwrap().txn_count, 0);

    let mut off = ShredMetrics::new(false);
    off.entry_count = 2;
    assert!(off.report().service.is_none());
    assert_eq!(off.entry_count, 2);
}

#[test]
fn reset_moves_totals_into_cumulative_ones() {
    let mut metrics = ShredMetrics::default();
    metrics.record_receive(10);
    metrics.record_dedup(4);
    metrics.record_send(20, 6);
    metrics.record_forward(10, 8, &TIMINGS);
    metrics.record_shard_batch(10, 40);
    metrics.record_e2e(100);
    metrics.record_dispatch(2);
    metrics.worker_count = 5;
    metrics.reset();
    metrics.record_receive(1);
    metrics.reset();
    assert_eq!(metrics.agg_received_cumulative, 11);
    assert_eq!(metrics.duplicate_cumulative, 4);
    assert_eq!(metrics.agg_success_forward_cumulative, 20);
    assert_eq!(metrics.agg_fail_forward_cumulative, 6);
    assert_eq!((metrics.received, metrics.duplicate), (0, 0));
    assert_eq!((metrics.success_forward, metrics.fail_forward), (0, 0));
    assert_eq!((metrics.forward_batches, metrics.forward_total_us_max), (0, 0));
    assert_eq!((metrics.worker_batches, metrics.worker_send_us_max), (0, 0));
    assert_eq!((metrics.e2e_batches, metrics.e2e_us_max), (0, 0));
    assert_eq!(metrics.worker_dropped_batches, 0);
    assert_eq!(metrics.worker_count, 5);
}

#[test]
fn interval_ends_with_its_rows() {
    let mut metrics = ShredMetrics::new(true);
    metrics.record_receive(10);
    metrics.record_forward(10, 8, &TIMINGS);
    metrics.txn_count = 9;
    let first = metrics.end_interval();
    assert_eq!(first.connection.received, 10);
    assert_eq!(first.service.unwrap().txn_count, 9);
    assert!(first.forwarding.is_some());
    let second = metrics.end_interval();
    assert_eq!(second.connection.received, 0);
    assert_eq!(second.service.unwrap().txn_count, 0);
    assert!(second.forwarding.is_none());
    assert_eq!(metrics.agg_received_cumulative, 10);
}

#[test]
fn sums_wrap_around() {
    let mut metrics = ShredMetrics::default();
    metrics.record_receive(u64::MAX);
    assert_eq!(metrics.report().connection.received, -1);
    metrics.record_receive(3);
    assert_eq!(metrics.received, 2);
}

#[test]
fn order_of_records_does_not_matter() {
    let mut a = ShredMetrics::default();
    a.record_e2e(5);
    a.record_send(1, 2);
    a.record_e2e(9);
    let mut b = ShredMetrics::default();
    b.record_e2e(9);
    b.record_e2e(5);
    b.record_send(1, 2);
    assert_eq!(
        (a.e2e_batches, a.e2e_us_sum, a.e2e_us_max, a.success_forward, a.fail_forward),
        (b.e2e_batches, b.e2e_us_sum, b.e2e_us_max, b.success_forward, b.fail_forward)
    );
}

#[test]
fn absorbed_counters_are_moved() {
    let batch = PacketBatch::new(vec![Packet::new(
        [1; PACKET_DATA_SIZE],
        Meta {
            size: PACKET_DATA_SIZE,
            addr: "10.0.0.1".parse().unwrap(),
            port: 1,
            flags: PacketFlags::empty(),
        },
    )]);
    let mut shared = ShredMetrics::default();
    shared.record_receive(10);
    shared.record_e2e(7);
    shared.record_sources(&batch);
    shared.worker_count = 4;
    let mut own = ShredMetrics::default();
    own.record_receive(5);
    own.record_e2e(9);
    own.record_e2e(3);
    own.record_send(2, 1);
    own.record_sources(&batch);
    shared.absorb(&mut own);
    assert_eq!((shared.received, shared.success_forward, shared.fail_forward), (15, 2, 1));
    assert_eq!((shared.e2e_batches, shared.e2e_us_sum, shared.e2e_us_max), (3, 19, 9));
    assert_eq!(shared.worker_count, 4);
    assert_eq!((own.received, own.e2e_us_max), (0, 0));
    shared.absorb(&mut own);
    assert_eq!((shared.received, shared.e2e_us_max), (15, 9));
    let rows = shared.report().receivers;
    assert_eq!(rows.len(), 1);
    assert_eq!((rows[0].discarded_packets, rows[0].not_discarded_packets), (0, 2));
}
