use network_route_visualizer::discovery::{
    addresses_or_loopback, known_peer_ids, Announcer, DiscoveryMessage, DiscoveryService,
    Reception, ANNOUNCE_INTERVAL_SECS, MULTICAST_ADDR, MULTICAST_PORT, VPN_SCAN_INTERVAL,
};
use network_route_visualizer::net::{Endpoint, IpAddress};
use network_route_visualizer::registry::{NodeStatus, PeerRegistry};

fn announce(node_id: &str, timestamp: &str) -> DiscoveryMessage {
    DiscoveryMessage::Announce {
        node_id: node_id.to_string(),
        hostname: "alpha".to_string(),
        addresses: vec![IpAddress::V4(0xC0A8_0102)],
        port: 8080,
        timestamp: timestamp.to_string(),
        version: "0.1.0".to_string(),
        known_peers: vec!["someone".to_string()],
    }
}

fn goodbye(node_id: &str) -> DiscoveryMessage {
    DiscoveryMessage::Goodbye { node_id: node_id.to_string(), reason: "shutdown".to_string() }
}

#[test]
fn an_announcement_inserts_and_a_goodbye_removes() {
    let mut registry = PeerRegistry::with_local_id("B".to_string());
    let reception = DiscoveryService::receive(&mut registry, announce("X", "2024-01-01T00:00:00Z"));
    assert_eq!(reception, Reception::Discovered);
    let record = registry.get_node("X").unwrap();
    assert_eq!(record.id, "X");
    assert_eq!(record.discovered_via, "broadcast");
    assert_eq!(record.status, NodeStatus::Online);
    assert_eq!(record.hostname, "alpha");
    assert_eq!(record.addresses, vec![IpAddress::V4(0xC0A8_0102)]);
    assert_eq!(record.port, 8080);
    assert_eq!(record.last_seen, "2024-01-01T00:00:00Z");

    let reception = DiscoveryService::receive(&mut registry, goodbye("X"));
    assert_eq!(reception, Reception::Left);
    assert!(registry.get_node("X").is_none());
    assert!(registry.get_all_nodes().is_empty());
}

#[test]
fn a_goodbye_needs_no_staleness() {
    let mut registry = PeerRegistry::with_local_id("B".to_string());
    DiscoveryService::receive(&mut registry, announce("X", "2999-01-01T00:00:00Z"));
    registry.cleanup_stale_nodes(90);
    assert!(registry.get_node("X").is_some());
    DiscoveryService::receive(&mut registry, goodbye("X"));
    assert!(registry.get_node("X").is_none());
}

#[test]
fn own_announcements_are_discarded() {
    let mut registry = PeerRegistry::with_local_id("B".to_string());
    let reception = DiscoveryService::receive(&mut registry, announce("B", "t"));
    assert_eq!(reception, Reception::OwnAnnouncement);
    assert!(registry.get_all_nodes().is_empty());
    assert!(registry.get_node("B").is_none());
}

#[test]
fn a_repeated_announcement_overwrites() {
    let mut registry = PeerRegistry::with_local_id("B".to_string());
    DiscoveryService::receive(&mut registry, announce("X", "t1"));
    DiscoveryService::receive(
        &mut registry,
        DiscoveryMessage::Announce {
            node_id: "X".to_string(),
            hostname: "beta".to_string(),
            addresses: Vec::new(),
            port: 1,
            timestamp: "t2".to_string(),
            version: "9".to_string(),
            known_peers: Vec::new(),
        },
    );
    assert_eq!(registry.get_all_nodes().len(), 1);
    let record = registry.get_node("X").unwrap();
    assert_eq!(record.hostname, "beta");
    assert!(record.addresses.is_empty());
    assert_eq!(record.port, 1);
    assert_eq!(record.last_seen, "t2");
}

#[test]
fn a_goodbye_for_a_stranger_changes_nothing() {
    let mut registry = PeerRegistry::with_local_id("B".to_string());
    DiscoveryService::receive(&mut registry, announce("X", "t"));
    assert_eq!(DiscoveryService::receive(&mut registry, goodbye("Y")), Reception::Left);
    assert_eq!(registry.get_all_nodes().len(), 1);
}

#[test]
fn the_announcement_carries_the_identity() {
    let service = DiscoveryService::new("me".to_string(), "box".to_string(), 8080);
    let message = service.announcement(
        vec![IpAddress::V4(1)],
        vec!["a".to_string(), "b".to_string()],
        "now".to_string(),
        "1.2.3".to_string(),
    );
    match message {
        DiscoveryMessage::Announce { node_id, hostname, addresses, port, timestamp, version, known_peers } => {
            assert_eq!(node_id, "me");
            assert_eq!(hostname, "box");
            assert_eq!(addresses, vec![IpAddress::V4(1)]);
            assert_eq!(port, 8080);
            assert_eq!(timestamp, "now");
            assert_eq!(version, "1.2.3");
            assert_eq!(known_peers, vec!["a".to_string(), "b".to_string()]);
        }
        other => panic!("unexpected: {:?}", other),
    }
}

#[test]
fn the_protocol_constants_are_the_documented_ones() {
    assert_eq!(MULTICAST_ADDR, u32::from_be_bytes([239, 255, 42, 1]));
    assert_eq!(MULTICAST_PORT, 5678);
    assert_eq!(VPN_SCAN_INTERVAL, 10);
    assert_eq!(ANNOUNCE_INTERVAL_SECS, 30);
}

#[test]
fn every_round_goes_to_multicast_then_wireguard_then_vpn_peers() {
    let multicast = Endpoint { ip: IpAddress::V4(MULTICAST_ADDR), port: 5678 };
    let wg = vec![IpAddress::V4(10), IpAddress::V6(11)];
    let mut announcer = Announcer::new();
    let plan = announcer.plan_cycle(&wg);
    assert_eq!(
        plan.destinations,
        vec![
            multicast,
            Endpoint { ip: IpAddress::V4(10), port: 5678 },
            Endpoint { ip: IpAddress::V6(11), port: 5678 },
        ]
    );
    assert!(!plan.start_scan);

    announcer.store_scan_result(vec![IpAddress::V4(20)]);
    let plan = announcer.plan_cycle(&Vec::new());
    assert_eq!(plan.destinations, vec![multicast, Endpoint { ip: IpAddress::V4(20), port: 5678 }]);

    announcer.store_scan_result(Vec::new());
    let plan = announcer.plan_cycle(&Vec::new());
    assert_eq!(plan.destinations, vec![multicast]);
}

#[test]
fn a_sweep_starts_on_every_tenth_round() {
    let mut announcer = Announcer::new();
    let mut starts = Vec::new();
    for round in 1..=35u32 {
        if announcer.plan_cycle(&Vec::new()).start_scan {
            starts.push(round);
        }
    }
    assert_eq!(starts, vec![10, 20, 30]);
}

#[test]
fn without_addresses_the_loopback_is_announced() {
    assert_eq!(addresses_or_loopback(Vec::new()), vec![IpAddress::V4(0x7F00_0001)]);
    assert_eq!(
        addresses_or_loopback(vec![IpAddress::V4(5), IpAddress::V6(6)]),
        vec![IpAddress::V4(5), IpAddress::V6(6)]
    );
}

#[test]
fn known_peers_are_the_ids_of_the_snapshot() {
    let mut registry = PeerRegistry::with_local_id("B".to_string());
    DiscoveryService::receive(&mut registry, announce("X", "t"));
    DiscoveryService::receive(&mut registry, announce("Y", "t"));
    let mut ids = known_peer_ids(&registry.get_all_nodes());
    ids.sort();
    assert_eq!(ids, vec!["X".to_string(), "Y".to_string()]);
    assert!(known_peer_ids(&Vec::new()).is_empty());
}

#[test]
fn an_announcement_is_stamped_with_a_readable_time() {
    let service = DiscoveryService::new("me".to_string(), "box".to_string(), 8080);
    let message = service.announce(vec![IpAddress::V4(1)], Vec::new(), "1.2.3".to_string());
    let timestamp = match &message {
        DiscoveryMessage::Announce { node_id, hostname, port, version, timestamp, .. } => {
            assert_eq!(node_id, "me");
            assert_eq!(hostname, "box");
            assert_eq!(*port, 8080);
            assert_eq!(version, "1.2.3");
            timestamp.clone()
        }
        other => panic!("unexpected: {:?}", other),
    };
    assert!(timestamp.len() >= 20);
    assert_eq!(&timestamp[4..5], "-");
    assert_eq!(&timestamp[10..11], "T");

    let mut registry = PeerRegistry::with_local_id("B".to_string());
    DiscoveryService::receive(&mut registry, message);
    registry.cleanup_stale_nodes(90);
    assert!(registry.get_node("me").is_some());
    registry.cleanup_stale_nodes_at((32_503_680_000, 0), 90);
    assert!(registry.get_node("me").is_none());
}
