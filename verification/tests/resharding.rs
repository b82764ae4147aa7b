use std::sync::Arc;

use shredstream_forwarder::addr::SocketAddr;
use shredstream_forwarder::metrics::ShredMetrics;
use shredstream_forwarder::coordinator::ShardMsg;
use shredstream_forwarder::pool::ShardPool;
use shredstream_forwarder::reshard::{
    plan_reshard, reshard_assignments, round_robin, ConnectedDest, PlannedDest, ShardHandle,
};

/// A socket that knows what it is connected to.
struct Socket {
    peer: SocketAddr,
}

fn v4(port: u16) -> SocketAddr {
    SocketAddr::V4 { ip: 0x7f00_0001, port }
}

fn v6(port: u16) -> SocketAddr {
    SocketAddr::V6 { ip: 1, port, flowinfo: 0, scope_id: 0 }
}

fn shards(n: usize) -> Vec<ShardHandle<Socket>> {
    (0..n).map(|_| ShardHandle::new()).collect()
}

/// Distributes the destinations, with sockets to all but those in `refused`. Returns the number
/// of new sockets.
fn reshard(
    desired: &Vec<SocketAddr>,
    shards: &mut Vec<ShardHandle<Socket>>,
    refused: &[SocketAddr],
    metrics: &mut ShredMetrics,
) -> usize {
    let plans = plan_reshard(desired, shards);
    let mut connected = 0;
    let fresh: Vec<Vec<Option<Arc<Socket>>>> = plans
        .iter()
        .map(|plan| {
            plan.iter()
                .map(|dest| {
                    let peer = dest.to_connect()?;
                    if refused.contains(&peer) {
                        return None;
                    }
                    connected += 1;
                    Some(Arc::new(Socket { peer }))
                })
                .collect()
        })
        .collect();
    reshard_assignments(desired.len(), shards, &plans, &fresh, metrics);
    connected
}

fn addrs(shard: &ShardHandle<Socket>) -> Vec<SocketAddr> {
    shard.assignment.iter().map(|d| d.addr).collect()
}

fn find(shards: &[ShardHandle<Socket>], addr: SocketAddr) -> Option<&ConnectedDest<Socket>> {
    shards.iter().flat_map(|s| s.assignment.iter()).find(|d| d.addr == addr)
}

#[test]
fn test_connected_socket_reshard_reuses_existing() {
    let mut metrics = ShredMetrics::default();
    let (addr_a, addr_b, addr_c) = (v4(1), v4(2), v4(3));
    let mut shards = shards(1);

    reshard(&vec![addr_a, addr_b], &mut shards, &[], &mut metrics);
    let assignment_1 = &shards[0].assignment;
    assert_eq!(assignment_1.len(), 2, "should have 2 dests after first reshard");
    let old_b_socket = assignment_1
        .iter()
        .find(|d| d.addr == addr_b)
        .expect("B should be in first assignment")
        .socket
        .clone();
    let old_a_socket = assignment_1
        .iter()
        .find(|d| d.addr == addr_a)
        .expect("A should be in first assignment")
        .socket
        .clone();

    reshard(&vec![addr_b, addr_c], &mut shards, &[], &mut metrics);
    let assignment_2 = &shards[0].assignment;
    assert_eq!(assignment_2.len(), 2, "should have 2 dests after second reshard");
    let new_b = assignment_2
        .iter()
        .find(|d| d.addr == addr_b)
        .expect("B should survive reshard")
        .socket
        .clone();
    assert!(Arc::ptr_eq(&old_b_socket, &new_b), "B's socket Arc should be reused across reshard");

    let any_uses_old_a = assignment_2.iter().any(|d| Arc::ptr_eq(&d.socket, &old_a_socket));
    assert!(!any_uses_old_a, "A's old socket should have been dropped");
    // the test holds the only handle that is left
    assert_eq!(Arc::strong_count(&old_a_socket), 1);
}

#[test]
fn destination_that_moves_to_another_shard_keeps_its_socket() {
    let mut metrics = ShredMetrics::default();
    let mut shards = shards(3);
    let desired: Vec<SocketAddr> = (1..=7).map(v4).collect();
    assert_eq!(reshard(&desired, &mut shards, &[], &mut metrics), 7);
    let sockets: Vec<Arc<Socket>> =
        desired.iter().map(|a| find(&shards, *a).unwrap().socket.clone()).collect();
    assert_eq!(addrs(&shards[1]), vec![v4(2), v4(5)]);

    // without the first destination every other one moves to the shard before
    let rest: Vec<SocketAddr> = desired[1..].to_vec();
    assert_eq!(reshard(&rest, &mut shards, &[], &mut metrics), 0);
    assert_eq!(addrs(&shards[0]), vec![v4(2), v4(5)]);
    for (addr, socket) in desired.iter().zip(&sockets).skip(1) {
        let dest = find(&shards, *addr).unwrap();
        assert!(Arc::ptr_eq(&dest.socket, socket));
        assert_eq!(dest.socket.peer, *addr);
    }
    assert_eq!(Arc::strong_count(&sockets[0]), 1);
    assert_eq!(metrics.worker_count, 6);

    // each shard keeps the sockets that it uses, and no two shards keep the same one
    let kept: usize = shards.iter().map(|s| s.socket_cache.len()).sum();
    assert_eq!(kept, 6);
    for shard in &shards {
        assert_eq!(shard.socket_cache.len(), shard.assignment.len());
    }
}

#[test]
fn destinations_go_round_the_shards() {
    let desired: Vec<SocketAddr> = (0..8).map(v4).collect();
    let buckets = round_robin(&desired, 3);
    assert_eq!(buckets[0], vec![v4(0), v4(3), v4(6)]);
    assert_eq!(buckets[1], vec![v4(1), v4(4), v4(7)]);
    assert_eq!(buckets[2], vec![v4(2), v4(5)]);
}

#[test]
fn fewer_destinations_than_shards_leave_shards_idle() {
    let mut metrics = ShredMetrics::default();
    let mut shards = shards(4);
    reshard(&vec![v4(1)], &mut shards, &[], &mut metrics);
    assert_eq!(shards.iter().map(|s| s.assignment.len()).collect::<Vec<_>>(), vec![1, 0, 0, 0]);
    reshard(&vec![], &mut shards, &[], &mut metrics);
    assert!(shards.iter().all(|s| s.assignment.is_empty() && s.socket_cache.is_empty()));
    assert_eq!(metrics.worker_count, 0);
}

#[test]
fn ipv6_destinations_are_skipped_but_counted() {
    let mut metrics = ShredMetrics::default();
    let mut shards = shards(2);
    let desired = vec![v6(1), v4(2), v4(3), v6(4)];
    let plans = plan_reshard(&desired, &mut shards);
    assert!(matches!(plans[0][0], PlannedDest::Skip(_)));
    assert!(matches!(plans[0][1], PlannedDest::Connect(_)));
    assert_eq!(reshard(&desired, &mut shards, &[], &mut metrics), 2);
    assert_eq!(addrs(&shards[0]), vec![v4(3)]);
    assert_eq!(addrs(&shards[1]), vec![v4(2)]);
    assert_eq!(metrics.worker_count, 4);
}

#[test]
fn destination_without_a_socket_is_tried_again() {
    let mut metrics = ShredMetrics::default();
    let mut shards = shards(1);
    let desired = vec![v4(1), v4(2)];
    assert_eq!(reshard(&desired, &mut shards, &[v4(1)], &mut metrics), 1);
    assert_eq!(addrs(&shards[0]), vec![v4(2)]);
    assert_eq!(reshard(&desired, &mut shards, &[], &mut metrics), 1);
    assert_eq!(addrs(&shards[0]), vec![v4(1), v4(2)]);
}

#[test]
fn distributing_again_connects_nothing() {
    let mut metrics = ShredMetrics::default();
    let mut shards = shards(2);
    let desired: Vec<SocketAddr> = (1..=5).map(v4).collect();
    assert_eq!(reshard(&desired, &mut shards, &[], &mut metrics), 5);
    let before: Vec<Vec<SocketAddr>> = shards.iter().map(addrs).collect();
    assert_eq!(reshard(&desired, &mut shards, &[], &mut metrics), 0);
    assert_eq!(shards.iter().map(addrs).collect::<Vec<_>>(), before);
}

#[test]
fn repeated_destination_takes_the_cached_socket_once() {
    let mut metrics = ShredMetrics::default();
    let mut shards = shards(1);
    reshard(&vec![v4(1)], &mut shards, &[], &mut metrics);
    let cached = shards[0].assignment[0].socket.clone();
    assert_eq!(reshard(&vec![v4(1), v4(1)], &mut shards, &[], &mut metrics), 1);
    assert!(Arc::ptr_eq(&shards[0].assignment[0].socket, &cached));
    assert!(!Arc::ptr_eq(&shards[0].assignment[1].socket, &cached));
}

#[test]
fn pool_keeps_its_channels() {
    let mut metrics = ShredMetrics::default();
    let channels: Vec<_> = (0..2).map(|_| crossbeam_channel::bounded::<ShardMsg>(1)).collect();
    let senders = channels.iter().map(|(tx, _)| tx.clone()).collect();
    let mut pool: ShardPool<Socket> = ShardPool::new(senders);
    assert!(pool.assignment(0).is_empty() && pool.assignment(1).is_empty());
    for desired in [vec![v4(1), v4(2), v4(3)], vec![], vec![v4(3)]] {
        let plans = pool.plan(&desired);
        let fresh = plans
            .iter()
            .map(|plan| {
                plan.iter().map(|d| d.to_connect().map(|peer| Arc::new(Socket { peer }))).collect()
            })
            .collect();
        pool.commit(desired.len(), &plans, &fresh, &mut metrics);
        assert_eq!(metrics.worker_count, desired.len());
        assert_eq!(pool.assignment(0).len() + pool.assignment(1).len(), desired.len());
        assert_eq!(pool.sender_list().len(), 2);
        for ((tx, _), kept) in channels.iter().zip(pool.sender_list()) {
            assert!(tx.same_channel(kept));
        }
    }
}
