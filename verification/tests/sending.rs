use shredstream_forwarder::metrics::ShredMetrics;
use shredstream_forwarder::sendmmsg::{Reply, SendCursor, SendReport, UIO_MAXIOV};
use shredstream_forwarder::shard::{
    compute_send_shards, shard_action, ShardAction, ShardPoll, ShardSend,
};
use shredstream_forwarder::trace::mark;
use solana_packet::{Meta, Packet, PacketFlags, PACKET_DATA_SIZE};
use solana_perf::packet::PacketBatch;

/// Sends the windows of a cursor over a socket that takes at most `burst` packets per call and
/// refuses the payloads in `refused`.
fn send_all(
    packets: &[&[u8]],
    chunk: usize,
    burst: usize,
    refused: &[u8],
    delivered: &mut Vec<Vec<u8>>,
) -> SendReport<String> {
    let mut cursor = SendCursor::<String>::new(packets.len(), chunk);
    while let Some((start, end)) = cursor.next_window() {
        let window = &packets[start..end];
        if refused.contains(&window[0][0]) {
            cursor.on_reply(Reply::Failed(format!("refused {}", window[0][0])));
            continue;
        }
        let taken = window
            .iter()
            .take(burst)
            .take_while(|p| !refused.contains(&p[0]))
            .count();
        for bytes in &window[..taken] {
            delivered.push(bytes.to_vec());
        }
        cursor.on_reply(Reply::Sent(taken));
    }
    cursor.finish()
}

#[test]
fn test_sendmmsg_connected_delivers_all_packets() {
    let payloads: Vec<Vec<u8>> = (1u8..=4).map(|i| vec![i; PACKET_DATA_SIZE]).collect();
    let pkt_refs: Vec<&[u8]> = payloads.iter().map(|v| v.as_slice()).collect();
    // one call for all, and one call per packet
    for chunk in [UIO_MAXIOV, 1] {
        let mut got: Vec<Vec<u8>> = Vec::with_capacity(4);
        let sent = send_all(&pkt_refs, chunk, usize::MAX, &[], &mut got)
            .into_result()
            .expect("sendmmsg_connected ok");
        assert_eq!(sent, 4, "should have sent all 4 packets");
        assert_eq!(got.len(), 4);
        for expected in &payloads {
            assert!(
                got.iter().any(|g| g == expected),
                "missing payload starting with byte {}",
                expected[0]
            );
        }
    }
}

#[test]
fn short_sends_are_continued() {
    let payloads: Vec<Vec<u8>> = (1u8..=5).map(|i| vec![i]).collect();
    let refs: Vec<&[u8]> = payloads.iter().map(|v| v.as_slice()).collect();
    let mut got = Vec::new();
    assert_eq!(send_all(&refs, UIO_MAXIOV, 2, &[], &mut got).into_result(), Ok(5));
    assert_eq!(got, payloads);
}

#[test]
fn packets_after_a_refused_one_are_dropped() {
    let payloads: Vec<Vec<u8>> = (1u8..=5).map(|i| vec![i]).collect();
    let refs: Vec<&[u8]> = payloads.iter().map(|v| v.as_slice()).collect();
    let mut got = Vec::new();
    let report = send_all(&refs, UIO_MAXIOV, 8, &[3, 4], &mut got);
    assert_eq!(report.sent, 2);
    assert_eq!(report.err, Some("refused 3".to_string()));
    assert_eq!(report.into_result(), Err("refused 3".to_string()));
    assert_eq!(got, vec![vec![1], vec![2]]);
}

#[test]
fn empty_list_needs_no_call() {
    let cursor = SendCursor::<String>::new(0, UIO_MAXIOV);
    assert_eq!(cursor.next_window(), None);
    assert_eq!(cursor.finish().into_result(), Ok(0));
}

#[test]
fn windows_end_with_their_chunk() {
    let mut cursor = SendCursor::<String>::new(2500, UIO_MAXIOV);
    assert_eq!(cursor.next_window(), Some((0, 1024)));
    cursor.on_reply(Reply::Sent(1000));
    assert_eq!(cursor.next_window(), Some((1000, 1024)));
    cursor.on_reply(Reply::Sent(24));
    assert_eq!(cursor.next_window(), Some((1024, 2048)));
    cursor.on_reply(Reply::Sent(1024));
    assert_eq!(cursor.next_window(), Some((2048, 2500)));
    cursor.on_reply(Reply::Failed("no".to_string()));
    assert_eq!(cursor.next_window(), None);
    let report = cursor.finish();
    assert_eq!((report.sent, report.err), (2048, Some("no".to_string())));
}

fn report<E>(sent: usize, err: Option<E>) -> SendReport<E> {
    SendReport { sent, err }
}

#[test]
fn shard_counts_every_pair_once() {
    let batch = PacketBatch::new(vec![
        Packet::new(
            [1; PACKET_DATA_SIZE],
            Meta {
                size: PACKET_DATA_SIZE,
                addr: "127.0.0.1".parse().unwrap(),
                port: 1,
                flags: PacketFlags::empty(),
            },
        );
        4
    ]);
    let mut metrics = ShredMetrics::default();
    let mut send = ShardSend::<&str>::start(3, 4, mark(true));
    assert_eq!(send.next(), Some(0));
    send.on_sent(report(4, None));
    assert_eq!(send.next(), Some(1));
    send.on_sent(report(1, Some("first")));
    send.on_sent(report(0, Some("second")));
    assert_eq!(send.next(), None);
    assert_eq!((send.total_sent(), send.total_failed()), (5, 7));
    assert_eq!(*send.first_err(), Some("first"));
    let outcome = send.finish(&batch, None, &mut metrics);
    assert!(outcome.count_off.is_none());
    assert_eq!((metrics.success_forward, metrics.fail_forward), (5, 7));
    assert_eq!((metrics.worker_batches, metrics.worker_packets_sent), (1, 4));
    assert_eq!(metrics.worker_send_us_sum, outcome.send.unwrap().us());
}

#[test]
fn partly_sent_batch_counts_both_ways() {
    let mut metrics = ShredMetrics::default();
    let mut send = ShardSend::<&str>::start(1, 3, None);
    send.on_sent(report(2, Some("refused")));
    send.finish(&PacketBatch::new(vec![]), None, &mut metrics);
    assert_eq!((metrics.success_forward, metrics.fail_forward), (2, 1));
}

#[test]
fn batch_without_payloads_is_not_sent() {
    let mut metrics = ShredMetrics::default();
    let send = ShardSend::<String>::start(3, 0, None);
    assert_eq!(send.next(), None);
    let outcome = send.finish(&PacketBatch::new(vec![]), None, &mut metrics);
    assert!(outcome.send.is_none());
    assert_eq!((metrics.success_forward, metrics.fail_forward), (0, 0));
    assert_eq!(metrics.worker_batches, 0);
}

#[test]
fn shard_measures_from_when_it_took_the_batch() {
    let mut metrics = ShredMetrics::default();
    let send = ShardSend::<String>::start(0, 0, mark(true));
    let start = std::time::Instant::now();
    while start.elapsed() < std::time::Duration::from_millis(3) {}
    let outcome = send.finish(&PacketBatch::new(vec![]), None, &mut metrics);
    assert!(outcome.send.unwrap().us() >= 3_000);
    assert!(metrics.worker_send_us_max >= 3_000);
}

#[test]
fn shards_are_a_quarter_of_the_cores_within_limits() {
    assert_eq!(compute_send_shards(Some(32)), 8);
    assert_eq!(compute_send_shards(Some(1)), 2);
    assert_eq!(compute_send_shards(Some(15)), 3);
    assert_eq!(compute_send_shards(Some(64)), 16);
    assert_eq!(compute_send_shards(Some(256)), 16);
    assert_eq!(compute_send_shards(None), 2);
}

#[test]
fn shard_ends_once_drained() {
    assert_eq!(shard_action(ShardPoll::Message, true), ShardAction::Send);
    assert_eq!(shard_action(ShardPoll::Message, false), ShardAction::Send);
    assert_eq!(shard_action(ShardPoll::Empty, false), ShardAction::Spin);
    assert_eq!(shard_action(ShardPoll::Empty, true), ShardAction::Exit);
    assert_eq!(shard_action(ShardPoll::Disconnected, false), ShardAction::Exit);
    assert_eq!(shard_action(ShardPoll::Disconnected, true), ShardAction::Exit);
}
