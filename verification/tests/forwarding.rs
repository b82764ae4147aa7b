use std::sync::atomic::Ordering;
use std::sync::{Arc, Mutex};
use std::time::{Duration, Instant};

use crossbeam_channel::Receiver;
use shredstream_forwarder::addr::SocketAddr;
use shredstream_forwarder::channel::{outlets, Outlet, SendStatus};
use shredstream_forwarder::clock::counted_micros;
use shredstream_forwarder::coordinator::{
    fan_out, recv_from_channel_and_send_multiple_dest, ShardMsg, ShardSenderList,
};
use shredstream_forwarder::counter::TraceTickets;
use shredstream_forwarder::error::ShredstreamProxyError;
use shredstream_forwarder::filter::Asker;
use shredstream_forwarder::metrics::ShredMetrics;
use shredstream_forwarder::packet::{collect_payloads, dedup_batch, new_deduper};
use shredstream_forwarder::reshard::{
    plan_reshard, reshard_assignments, ConnectedDest, ShardHandle,
};
use shredstream_forwarder::sendmmsg::{Reply, SendCursor, SendReport, UIO_MAXIOV};
use shredstream_forwarder::shard::{shard_action, ShardAction, ShardPoll, ShardSend};
use shredstream_forwarder::trace::{finish_shared, mark, BatchTrace, CountOff};
use solana_packet::{Meta, Packet, PacketFlags, PACKET_DATA_SIZE};
use solana_perf::packet::PacketBatch;

/// A connected socket whose peer keeps what it receives.
struct Peer {
    received: Mutex<Vec<Vec<u8>>>,
}

fn connected(port: u16) -> ConnectedDest<Peer> {
    ConnectedDest {
        addr: SocketAddr::V4 { ip: 0x7f00_0001, port },
        socket: Arc::new(Peer { received: Mutex::new(Vec::new()) }),
    }
}

fn packet(fill: u8, addr: &str, port: u16) -> Packet {
    Packet::new(
        [fill; PACKET_DATA_SIZE],
        Meta {
            size: PACKET_DATA_SIZE,
            addr: addr.parse().unwrap(),
            port,
            flags: PacketFlags::empty(),
        },
    )
}

fn send_connected(socket: &Peer, packets: &[&[u8]]) -> SendReport<String> {
    let mut cursor = SendCursor::<String>::new(packets.len(), UIO_MAXIOV);
    while let Some((start, end)) = cursor.next_window() {
        for bytes in &packets[start..end] {
            socket.received.lock().unwrap().push(bytes.to_vec());
        }
        cursor.on_reply(Reply::Sent(end - start));
    }
    cursor.finish()
}

/// Sends every message that waits in the channel of a shard, as its thread does.
fn drain_shard(
    rx: &Receiver<ShardMsg>,
    dests: &[ConnectedDest<Peer>],
    trace_on: bool,
    metrics: &mut ShredMetrics,
) {
    loop {
        let received = rx.try_recv();
        let poll = if received.is_ok() { ShardPoll::Message } else { ShardPoll::Empty };
        match shard_action(poll, true) {
            ShardAction::Send => {
                let (batch, ticket) = received.unwrap();
                let t_send = mark(trace_on);
                let payloads = collect_payloads(&batch);
                let mut send = ShardSend::<String>::start(dests.len(), payloads.len(), t_send);
                while let Some(i) = send.next() {
                    send.on_sent(send_connected(&dests[i].socket, &payloads));
                }
                send.finish(&batch, ticket, metrics);
            }
            ShardAction::Spin => panic!("a shard that is told to end spins"),
            ShardAction::Exit => break,
        }
    }
}

fn wait(at_least: Duration) {
    let start = Instant::now();
    while start.elapsed() < at_least {}
}

#[test]
fn test_2shreds_3destinations() {
    let unspecified = "0.0.0.0";
    let packet_batch =
        PacketBatch::new(vec![packet(1, unspecified, 48289), packet(2, unspecified, 9999)]);
    let (packet_sender, packet_receiver) = crossbeam_channel::unbounded::<PacketBatch>();
    packet_sender.send(packet_batch).unwrap();

    let dests: Vec<ConnectedDest<Peer>> = (1..=3).map(connected).collect();
    let mut metrics = ShredMetrics::default();
    let (tx, rx) = crossbeam_channel::bounded::<ShardMsg>(1024);
    let shard_senders: ShardSenderList = vec![tx];
    let (reconstruct_tx, _reconstruct_rx) = crossbeam_channel::bounded(10_240);
    recv_from_channel_and_send_multiple_dest(
        packet_receiver.recv(),
        &mut Asker::new(&new_deduper()),
        &mut outlets(&shard_senders),
        true,
        &mut Outlet::new(&reconstruct_tx),
        mark(true),
        &mut metrics,
    )
    .unwrap();
    wait(Duration::from_millis(2));
    drain_shard(&rx, &dests, true, &mut metrics);

    for dest in &dests {
        let got = dest.socket.received.lock().unwrap();
        assert_eq!(got.len(), 2, "listener got wrong number of packets");
        assert!(got.iter().all(|p| p.len() == PACKET_DATA_SIZE));
        assert_eq!(got[0], [1; PACKET_DATA_SIZE]);
        assert_eq!(got[1], [2; PACKET_DATA_SIZE]);
    }
    let total: usize = dests.iter().map(|d| d.socket.received.lock().unwrap().len()).sum();
    assert_eq!(total, 6, "expected 2 packets × 3 dests = 6");
    assert_eq!(metrics.success_forward, 6);
    assert_eq!(metrics.fail_forward, 0);

    assert_eq!(metrics.e2e_batches, 1, "e2e barrier should fire exactly once per batch");
    assert!(metrics.e2e_us_sum > 0, "e2e_us_sum should be > 0");
    assert!(metrics.e2e_us_max > 0, "e2e_us_max should be > 0");
}

#[test]
fn test_trace_off_zero_overhead_no_batch_trace_alloc() {
    let dests = vec![connected(1)];
    let mut metrics = ShredMetrics::default();
    let (tx, rx) = crossbeam_channel::bounded::<ShardMsg>(1024);
    let shard_senders: ShardSenderList = vec![tx];
    let (reconstruct_tx, _reconstruct_rx) = crossbeam_channel::bounded(10_240);
    let localhost = "127.0.0.1";

    let off = recv_from_channel_and_send_multiple_dest(
        Ok(PacketBatch::new(vec![packet(9, localhost, 1234)])),
        &mut Asker::new(&new_deduper()),
        &mut outlets(&shard_senders),
        true,
        &mut Outlet::new(&reconstruct_tx),
        mark(false),
        &mut metrics,
    )
    .unwrap();
    drain_shard(&rx, &dests, false, &mut metrics);
    assert!(off.tickets.is_none(), "trace OFF must not allocate any BatchTrace");
    assert!(off.times.is_none());
    assert_eq!(metrics.e2e_batches, 0, "trace OFF must not record any e2e batches");
    assert_eq!(metrics.forward_batches, 0);
    assert_eq!(metrics.worker_batches, 0);

    // a fresh deduper, and a different payload, so that nothing is dropped as a duplicate
    let on = recv_from_channel_and_send_multiple_dest(
        Ok(PacketBatch::new(vec![packet(11, localhost, 1234)])),
        &mut Asker::new(&new_deduper()),
        &mut outlets(&shard_senders),
        true,
        &mut Outlet::new(&reconstruct_tx),
        mark(true),
        &mut metrics,
    )
    .unwrap();
    drain_shard(&rx, &dests, true, &mut metrics);
    assert!(on.tickets.is_some(), "trace ON must allocate exactly one BatchTrace per batch");
    let (_, lapses) = on.times.as_ref().unwrap();
    assert_eq!(metrics.forward_total_us_sum, lapses.micros().total_us);
    assert!(lapses.total.us() >= lapses.fanout.us());
    assert_eq!(metrics.e2e_batches, 1, "trace ON must record exactly one e2e batch");
    assert_eq!(metrics.forward_batches, 1);
    assert_eq!(metrics.worker_batches, 1);
    assert_eq!(metrics.success_forward, 2);
}

#[test]
fn closed_listener_is_an_error() {
    let (packet_sender, packet_receiver) = crossbeam_channel::unbounded::<PacketBatch>();
    drop(packet_sender);
    let (reconstruct_tx, reconstruct_rx) = crossbeam_channel::bounded(1);
    let mut metrics = ShredMetrics::default();
    let result = recv_from_channel_and_send_multiple_dest(
        packet_receiver.recv(),
        &mut Asker::new(&new_deduper()),
        &mut Vec::new(),
        true,
        &mut Outlet::new(&reconstruct_tx),
        mark(true),
        &mut metrics,
    );
    assert!(matches!(result, Err(ShredstreamProxyError::RecvError(_))));
    assert_eq!(metrics.received, 0);
    assert!(reconstruct_rx.try_recv().is_err());
}

#[test]
fn duplicates_are_marked_and_counted_by_source() {
    let a = "10.0.0.1";
    let b = "::1";
    let batch = PacketBatch::new(vec![packet(1, a, 1), packet(1, b, 1), packet(2, b, 1)]);
    let (tx, rx) = crossbeam_channel::bounded::<ShardMsg>(8);
    let (reconstruct_tx, reconstruct_rx) = crossbeam_channel::bounded(1);
    let mut metrics = ShredMetrics::new(false);
    let outcome = recv_from_channel_and_send_multiple_dest(
        Ok(batch),
        &mut Asker::new(&new_deduper()),
        &mut outlets(&vec![tx.clone(), tx]),
        true,
        &mut Outlet::new(&reconstruct_tx),
        mark(false),
        &mut metrics,
    )
    .unwrap();
    assert_eq!(outcome.dedup.num_discarded(), 1);
    assert!(matches!(outcome.reconstruct.unwrap().status(), SendStatus::Sent));

    // both shards share one batch, and it forwards each payload once
    let (first, _) = rx.try_recv().unwrap();
    let (second, _) = rx.try_recv().unwrap();
    assert!(Arc::ptr_eq(&first, &second));
    assert!(Arc::ptr_eq(&first, &outcome.batch));
    let payloads = collect_payloads(&first);
    assert_eq!(payloads, vec![&[1u8; PACKET_DATA_SIZE][..], &[2u8; PACKET_DATA_SIZE][..]]);
    assert!(first[1].meta().discard());

    // the copy for reconstruction was made before duplicates were marked
    let copy = reconstruct_rx.try_recv().unwrap();
    assert_eq!(copy.len(), 3);
    assert!(copy.iter().all(|p| !p.meta().discard()));

    assert_eq!(metrics.received, 3);
    assert_eq!(metrics.duplicate, 1);
    let mut rows: Vec<_> = metrics
        .report()
        .receivers
        .iter()
        .map(|r| (r.source, r.discarded_packets, r.not_discarded_packets))
        .collect();
    rows.sort();
    assert_eq!(rows, vec![((false, 0x0a00_0001), 0, 1), ((true, 1), 1, 1)]);
    assert!(metrics.report().receivers.is_empty());
}

#[test]
fn duplicates_across_batches_are_marked() {
    let deduper = new_deduper();
    let mut asker = Asker::new(&deduper);
    let localhost = "127.0.0.1";
    let mut first = PacketBatch::new(vec![packet(3, localhost, 1)]);
    let mut second = PacketBatch::new(vec![packet(3, localhost, 2), packet(4, localhost, 2)]);
    assert_eq!(dedup_batch(&mut asker, &mut first).num_discarded(), 0);
    assert_eq!(dedup_batch(&mut asker, &mut second).num_discarded(), 1);
    assert_eq!(collect_payloads(&second), vec![&[4u8; PACKET_DATA_SIZE][..]]);
}

#[test]
fn unreadable_packets_are_discarded() {
    let localhost = "127.0.0.1";
    let mut discarded = packet(5, localhost, 1);
    discarded.meta_mut().set_discard(true);
    let mut oversized = packet(6, localhost, 1);
    oversized.meta_mut().size = PACKET_DATA_SIZE + 1;
    let mut short = packet(7, localhost, 1);
    short.meta_mut().size = 2;
    let mut batch = PacketBatch::new(vec![discarded, oversized, short]);
    assert_eq!(collect_payloads(&batch), vec![&[7u8, 7][..]]);
    assert_eq!(dedup_batch(&mut Asker::new(&new_deduper()), &mut batch).num_discarded(), 2);
    assert!(batch[1].meta().discard());
    assert_eq!(collect_payloads(&batch), vec![&[7u8, 7][..]]);
}

#[test]
fn full_shard_drops_the_batch_for_itself_alone() {
    let localhost = "127.0.0.1";
    let (full_tx, _full_rx) = crossbeam_channel::bounded::<ShardMsg>(0);
    let (open_tx, open_rx) = crossbeam_channel::bounded::<ShardMsg>(8);
    let (gone_tx, gone_rx) = crossbeam_channel::bounded::<ShardMsg>(8);
    drop(gone_rx);
    let (reconstruct_tx, _reconstruct_rx) = crossbeam_channel::bounded(0);
    let mut metrics = ShredMetrics::default();
    let outcome = recv_from_channel_and_send_multiple_dest(
        Ok(PacketBatch::new(vec![packet(8, localhost, 1)])),
        &mut Asker::new(&new_deduper()),
        &mut outlets(&vec![full_tx, open_tx, gone_tx]),
        true,
        &mut Outlet::new(&reconstruct_tx),
        mark(true),
        &mut metrics,
    )
    .unwrap();
    assert!(matches!(outcome.reconstruct.as_ref().unwrap().status(), SendStatus::Full));
    assert!(matches!(outcome.dispatches[0].offer.status(), SendStatus::Full));
    assert!(matches!(outcome.dispatches[1].offer.status(), SendStatus::Sent));
    assert!(matches!(outcome.dispatches[2].offer.status(), SendStatus::Disconnected));
    assert_eq!(metrics.worker_dropped_batches, 2);
    assert_eq!(metrics.forward_dest_send_count, 3);

    // the two shards that could not be reached are counted off, so the third one is the last
    assert_eq!(outcome.dispatches[0].count_off.as_ref().unwrap().counted.prev(), 3);
    assert!(outcome.dispatches[1].count_off.is_none());
    assert_eq!(outcome.dispatches[2].count_off.as_ref().unwrap().counted.prev(), 2);
    assert_eq!(metrics.e2e_batches, 0);
    drain_shard(&open_rx, &[connected(1)], true, &mut metrics);
    assert_eq!(metrics.e2e_batches, 1);
}

#[test]
fn last_shard_records_the_end_after_the_coordinator_counted() {
    let (open_tx, open_rx) = crossbeam_channel::bounded::<ShardMsg>(8);
    let (gone_tx, gone_rx) = crossbeam_channel::bounded::<ShardMsg>(8);
    drop(gone_rx);
    let mut metrics = ShredMetrics::default();
    let batch = Arc::new(PacketBatch::new(vec![packet(8, "127.0.0.1", 1)]));
    let mut tickets = TraceTickets::new(Instant::now(), 3);
    // a third shard is done before the others are tried
    let early = finish_shared(tickets.issue());
    assert_eq!((early.counted.prev(), early.e2e.is_some()), (3, false));
    let mut tickets = Some(tickets);
    let dispatches = fan_out(
        &mut outlets(&vec![open_tx, gone_tx]),
        &batch,
        &mut tickets,
        &mut metrics,
    );
    let count = dispatches[1].count_off.as_ref().unwrap();
    assert_eq!((count.counted.prev(), count.e2e.is_some()), (2, false));
    assert_eq!(metrics.e2e_batches, 0);
    // the shard that was reached is the last one
    assert_eq!(open_rx.len(), 1);
    drain_shard(&open_rx, &[connected(1)], true, &mut metrics);
    assert_eq!(metrics.e2e_batches, 1);
}

#[test]
fn batch_that_reaches_no_shard_has_no_end_to_end_time() {
    let localhost = "127.0.0.1";
    let (gone_tx, gone_rx) = crossbeam_channel::bounded::<ShardMsg>(8);
    drop(gone_rx);
    let (reconstruct_tx, reconstruct_rx) = crossbeam_channel::bounded(8);
    let mut metrics = ShredMetrics::default();
    let outcome = recv_from_channel_and_send_multiple_dest(
        Ok(PacketBatch::new(vec![packet(8, localhost, 1)])),
        &mut Asker::new(&new_deduper()),
        &mut outlets(&vec![gone_tx.clone(), gone_tx]),
        false,
        &mut Outlet::new(&reconstruct_tx),
        mark(true),
        &mut metrics,
    )
    .unwrap();
    assert!(outcome.reconstruct.is_none());
    assert!(reconstruct_rx.is_empty());
    assert_eq!(outcome.dispatches[1].count_off.as_ref().unwrap().counted.prev(), 1);
    assert_eq!(metrics.worker_dropped_batches, 2);
    assert_eq!(metrics.e2e_batches, 0);
    assert_eq!(metrics.forward_batches, 1);
}

#[test]
fn batch_without_shards_is_counted_only() {
    let localhost = "127.0.0.1";
    let (reconstruct_tx, _reconstruct_rx) = crossbeam_channel::bounded(8);
    let mut metrics = ShredMetrics::default();
    let outcome = recv_from_channel_and_send_multiple_dest(
        Ok(PacketBatch::new(vec![packet(8, localhost, 1)])),
        &mut Asker::new(&new_deduper()),
        &mut Vec::new(),
        false,
        &mut Outlet::new(&reconstruct_tx),
        mark(true),
        &mut metrics,
    )
    .unwrap();
    assert!(outcome.dispatches.is_empty());
    assert_eq!(metrics.received, 1);
    assert_eq!(metrics.e2e_batches, 0);
    assert_eq!(metrics.forward_dest_send_count, 0);
}

#[test]
fn barrier_fires_for_the_last_count_only() {
    let mut tickets = TraceTickets::new(Instant::now(), 3);
    let counts: Vec<CountOff> = (0..3).map(|_| finish_shared(tickets.issue())).collect();
    let prevs: Vec<u32> = counts.iter().map(|c| c.counted.prev()).collect();
    let fired: Vec<bool> = counts.iter().map(|c| c.e2e.is_some()).collect();
    assert_eq!(prevs, vec![3, 2, 1]);
    assert_eq!(fired, vec![false, false, true]);
}

#[test]
fn trace_starts_with_its_shards() {
    let received = Instant::now();
    let trace = BatchTrace::new(received, 3);
    assert_eq!(trace.t_start, received);
    assert_eq!(trace.shard_remaining.load(Ordering::Relaxed), 3);
}

#[test]
fn shared_trace_measures_once() {
    let mut tickets = TraceTickets::new(Instant::now(), 2);
    let first = finish_shared(tickets.issue());
    assert_eq!((first.counted.prev(), first.e2e.is_none()), (2, true));
    wait(Duration::from_millis(3));
    let last = finish_shared(tickets.issue());
    assert_eq!(last.counted.prev(), 1);
    assert!(last.e2e.unwrap().us() >= 3_000);
}

#[test]
fn times_are_counted_in_64_bits() {
    assert_eq!(counted_micros(7), 7);
    assert_eq!(counted_micros((1u128 << 64) + 5), 5);
    assert!(mark(false).is_none());
    assert!(mark(true).is_some());
}

#[test]
fn each_shard_is_offered_the_batch_once() {
    let channels: Vec<_> = (0..3).map(|_| crossbeam_channel::bounded::<ShardMsg>(8)).collect();
    let senders: ShardSenderList = channels.iter().map(|(tx, _)| tx.clone()).collect();
    let batch = Arc::new(PacketBatch::new(vec![packet(1, "127.0.0.1", 1)]));
    let mut metrics = ShredMetrics::default();
    let dispatches = fan_out(&mut outlets(&senders), &batch, &mut None, &mut metrics);
    assert_eq!(dispatches.len(), 3);
    for (_, rx) in &channels {
        assert_eq!(rx.len(), 1);
        assert!(Arc::ptr_eq(&rx.try_recv().unwrap().0, &batch));
    }
    assert_eq!(metrics.worker_dropped_batches, 0);
}

#[test]
fn every_payload_reaches_every_destination_once() {
    let desired: Vec<SocketAddr> =
        (1..=5).map(|port| SocketAddr::V4 { ip: 0x7f00_0001, port }).collect();
    let mut metrics = ShredMetrics::default();
    let mut shards: Vec<ShardHandle<Peer>> = (0..2).map(|_| ShardHandle::new()).collect();
    let plans = plan_reshard(&desired, &mut shards);
    let fresh: Vec<Vec<Option<Arc<Peer>>>> = plans
        .iter()
        .map(|plan| plan.iter().map(|_| Some(connected(0).socket)).collect())
        .collect();
    reshard_assignments(desired.len(), &mut shards, &plans, &fresh, &mut metrics);

    let channels: Vec<_> = (0..2).map(|_| crossbeam_channel::bounded::<ShardMsg>(8)).collect();
    let senders: ShardSenderList = channels.iter().map(|(tx, _)| tx.clone()).collect();
    let (reconstruct_tx, _reconstruct_rx) = crossbeam_channel::bounded(1);
    let fills = [1u8, 2, 1, 3];
    recv_from_channel_and_send_multiple_dest(
        Ok(PacketBatch::new(fills.iter().map(|fill| packet(*fill, "127.0.0.1", 1)).collect())),
        &mut Asker::new(&new_deduper()),
        &mut outlets(&senders),
        false,
        &mut Outlet::new(&reconstruct_tx),
        mark(true),
        &mut metrics,
    )
    .unwrap();
    for (shard, (_, rx)) in shards.iter().zip(&channels) {
        drain_shard(rx, &shard.assignment, true, &mut metrics);
    }
    let mut served: Vec<SocketAddr> = Vec::new();
    for dest in shards.iter().flat_map(|s| &s.assignment) {
        served.push(dest.addr);
        let got = dest.socket.received.lock().unwrap();
        let first_bytes: Vec<u8> = got.iter().map(|bytes| bytes[0]).collect();
        assert_eq!(first_bytes, vec![1, 2, 3]);
    }
    served.sort_by_key(|addr| addr.key());
    assert_eq!(served, desired);
    assert_eq!(metrics.success_forward, 15);
    assert_eq!(metrics.e2e_batches, 1);
}
