use shredstream_forwarder::addr::{IpAddr, SocketAddr};
use shredstream_forwarder::control::{
    accessory_action, coordinator_goes_on, listener_ports, listener_threads, manager_action,
    reconstruct_action, AccessoryAction, AccessoryEvent, CoordinatorEvent, ManagerAction,
    ManagerEvent, ReconstructAction, ReconstructEvent, Refresh, RefreshAction,
};
use shredstream_forwarder::discovery::{parse_discovery, union_destinations, unioned_destinations};
use shredstream_forwarder::error::ShredstreamProxyError;
use shredstream_forwarder::latency::{trace_shred_latency, trace_shred_rows, Timestamp, TraceShred};

fn v4(ip: u32, port: u16) -> SocketAddr {
    SocketAddr::V4 { ip, port }
}

#[test]
fn discovery_lists_addresses() {
    let ips = parse_discovery(br#"["10.0.0.1", "::1"]"#).unwrap();
    assert_eq!(ips, vec![IpAddr::V4(0x0a00_0001), IpAddr::V6(1)]);
    assert_eq!(parse_discovery(b"[]").unwrap(), vec![]);
}

#[test]
fn discovery_rejects_anything_else() {
    for body in [&b""[..], b"{}", b"[1]", br#"["localhost"]"#, br#"["10.0.0.1""#] {
        assert!(matches!(parse_discovery(body), Err(ShredstreamProxyError::SerdeJsonError(_))));
    }
}

#[test]
fn discovered_destinations_come_first_and_nothing_twice() {
    let ips = vec![IpAddr::V4(1), IpAddr::V6(2), IpAddr::V4(1)];
    let statics = vec![Some(v4(9, 80)), None, Some(v4(1, 8000)), Some(v4(1, 80)), Some(v4(9, 80))];
    let dests = union_destinations(&ips, 8000, &statics);
    assert_eq!(
        dests,
        vec![
            v4(1, 8000),
            SocketAddr::V6 { ip: 2, port: 8000, flowinfo: 0, scope_id: 0 },
            v4(9, 80),
            v4(1, 80),
        ]
    );
}

#[test]
fn union_follows_the_answer_of_the_discovery_service() {
    let statics = vec![Some(v4(9, 80)), None];
    let dests = unioned_destinations(br#"["0.0.0.1", "0.0.0.1"]"#, 8000, &statics).unwrap();
    assert_eq!(dests, vec![v4(1, 8000), v4(9, 80)]);
    let failed = unioned_destinations(b"nothing", 8000, &statics);
    assert!(matches!(failed, Err(ShredstreamProxyError::SerdeJsonError(_))));
}

#[test]
fn endpoints_differ_by_every_field() {
    let a = SocketAddr::V6 { ip: 1, port: 2, flowinfo: 0, scope_id: 0 };
    let b = SocketAddr::V6 { ip: 1, port: 2, flowinfo: 0, scope_id: 3 };
    let statics = vec![Some(a), Some(b), Some(v4(1, 2))];
    assert_eq!(union_destinations(&vec![], 1, &statics), vec![a, b, v4(1, 2)]);
}

#[test]
fn keys_are_turned_back() {
    for ip in [IpAddr::V4(0), IpAddr::V4(u32::MAX), IpAddr::V6(0), IpAddr::V6(u128::MAX)] {
        assert_eq!(IpAddr::from_key(ip.key()), ip);
        let addr = SocketAddr::new(ip, 7);
        assert_eq!(SocketAddr::from_key(addr.key()), addr);
    }
    assert_ne!(IpAddr::V4(1).key(), IpAddr::V6(1).key());
}

#[test]
fn failed_refresh_keeps_the_destinations() {
    let mut refresh = Refresh::new(2);
    match refresh.on_fetched::<&str>(Ok(vec![v4(1, 1), v4(2, 1), v4(3, 1)])) {
        RefreshAction::Publish(dests) => assert_eq!(dests.len(), 3),
        RefreshAction::Keep { .. } => panic!("found destinations are not published"),
    }
    assert_eq!(refresh.destination_count(), 3);
    match refresh.on_fetched(Err("down")) {
        RefreshAction::Keep { prev_unioned_dest_count, error } => {
            assert_eq!((prev_unioned_dest_count, error), (3, "down"));
        }
        RefreshAction::Publish(_) => panic!("destinations out of nowhere"),
    }
    assert_eq!(refresh.destination_count(), 3);
}

#[test]
fn trace_shred_latency_is_in_microseconds() {
    let shred = |created_at| TraceShred { region: "ams".to_string(), created_at, seq_num: 42 };
    let received_at = Timestamp { seconds: 100, nanos: 1_500 };
    let row = trace_shred_latency(shred(Some(Timestamp { seconds: 99, nanos: 999_999_000 })), &received_at)
        .unwrap();
    assert_eq!(row.trace_region, "ams");
    assert_eq!(row.trace_seq_num, 42);
    assert_eq!(row.elapsed_micros, 2);
    // clocks that disagree give no negative latency
    let early = trace_shred_latency(shred(Some(Timestamp { seconds: 101, nanos: 0 })), &received_at);
    assert_eq!(early.unwrap().elapsed_micros, 0);
    assert!(trace_shred_latency(shred(None), &received_at).is_none());
    let created_at = |seconds| Some(Timestamp { seconds, nanos: 1_500 });
    let rows = trace_shred_rows(
        vec![Some(shred(created_at(98))), None, Some(shred(None)), Some(shred(created_at(99)))],
        &received_at,
    );
    let elapsed: Vec<i64> = rows.iter().map(|row| row.elapsed_micros).collect();
    assert_eq!(elapsed, vec![2_000_000, 1_000_000]);
}

#[test]
fn listeners_are_four_at_most_unless_configured() {
    assert_eq!(listener_threads(None, 2), 2);
    assert_eq!(listener_threads(None, 64), 4);
    assert_eq!(listener_threads(Some(9), 2), 9);
    assert_eq!(listener_ports(20_000), (20_000, 20_001));
}

#[test]
fn threads_stop_when_told() {
    assert!(coordinator_goes_on(CoordinatorEvent::Handled));
    assert!(!coordinator_goes_on(CoordinatorEvent::Failed));
    assert!(!coordinator_goes_on(CoordinatorEvent::Shutdown));
    assert_eq!(reconstruct_action(ReconstructEvent::Batch), ReconstructAction::Reconstruct);
    assert_eq!(reconstruct_action(ReconstructEvent::Timeout), ReconstructAction::Wait);
    assert_eq!(reconstruct_action(ReconstructEvent::Disconnected), ReconstructAction::Exit);
    assert_eq!(manager_action(ManagerEvent::Started), ManagerAction::Reshard);
    assert_eq!(manager_action(ManagerEvent::Tick), ManagerAction::Reshard);
    assert_eq!(manager_action(ManagerEvent::Shutdown), ManagerAction::Stop);
    assert_eq!(accessory_action(AccessoryEvent::DeduperTick), AccessoryAction::CheckDeduper);
    assert_eq!(accessory_action(AccessoryEvent::MetricsTick), AccessoryAction::EndInterval);
    assert_eq!(accessory_action(AccessoryEvent::Shutdown), AccessoryAction::Exit);
}
