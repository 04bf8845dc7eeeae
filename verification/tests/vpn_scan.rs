use network_route_visualizer::net::IpAddress;
use network_route_visualizer::vpn_scan::{
    ipv4_from_octets, is_tunnel_interface, parse_device_type, parse_interface_address,
    responding_hosts, scan_targets, VpnInterface, MAX_CONCURRENT_PINGS, MAX_SCAN_HOSTS,
    SWEEP_TIMEOUT_MS,
};

fn interface(address: u32, prefix_len: u8) -> VpnInterface {
    VpnInterface { name: "tun0".to_string(), address, prefix_len }
}

#[test]
fn test_vpn_interface_host_count() {
    let iface = VpnInterface {
        name: "tun0".to_string(),
        address: ipv4_from_octets(10, 0, 0, 5),
        prefix_len: 24,
    };
    assert_eq!(iface.host_count(), 254);

    let iface = VpnInterface {
        name: "tun0".to_string(),
        address: ipv4_from_octets(10, 0, 0, 1),
        prefix_len: 30,
    };
    assert_eq!(iface.host_count(), 2);

    let iface = VpnInterface {
        name: "tun0".to_string(),
        address: ipv4_from_octets(10, 0, 0, 1),
        prefix_len: 31,
    };
    assert_eq!(iface.host_count(), 2);

    let iface = VpnInterface {
        name: "tun0".to_string(),
        address: ipv4_from_octets(10, 0, 0, 1),
        prefix_len: 32,
    };
    assert_eq!(iface.host_count(), 1);
}

#[test]
fn test_vpn_interface_host_ips() {
    let iface = VpnInterface {
        name: "tun0".to_string(),
        address: ipv4_from_octets(10, 0, 0, 5),
        prefix_len: 30,
    };
    let hosts = iface.host_ips();
    assert_eq!(hosts.len(), 1);
    assert!(hosts.contains(&ipv4_from_octets(10, 0, 0, 6)));
    assert!(!hosts.contains(&ipv4_from_octets(10, 0, 0, 5)));
}

#[test]
fn test_vpn_interface_host_ips_31() {
    let iface = VpnInterface {
        name: "tun0".to_string(),
        address: ipv4_from_octets(10, 0, 0, 0),
        prefix_len: 31,
    };
    let hosts = iface.host_ips();
    assert_eq!(hosts.len(), 1);
    assert!(hosts.contains(&ipv4_from_octets(10, 0, 0, 1)));
}

#[test]
fn octets_make_the_address() {
    assert_eq!(ipv4_from_octets(10, 8, 0, 5), 0x0A08_0005);
    assert_eq!(ipv4_from_octets(255, 255, 255, 255), 0xFFFF_FFFF);
    assert_eq!(ipv4_from_octets(0, 0, 0, 0), 0);
}

#[test]
fn slash_30_yields_the_one_other_host() {
    let hosts = interface(ipv4_from_octets(10, 8, 0, 5), 30).host_ips();
    assert_eq!(hosts, vec![ipv4_from_octets(10, 8, 0, 6)]);
}

#[test]
fn slash_24_lists_every_host_but_network_broadcast_and_self() {
    let own = ipv4_from_octets(192, 168, 7, 77);
    let iface = interface(own, 24);
    let hosts = iface.host_ips();
    assert_eq!(hosts.len(), 253);
    assert_eq!(iface.candidate_count(), 253);
    let mut expected = Vec::new();
    for last in 1..=254u8 {
        if last != 77 {
            expected.push(ipv4_from_octets(192, 168, 7, last));
        }
    }
    assert_eq!(hosts, expected);
}

#[test]
fn an_interface_on_the_network_address_keeps_the_whole_interior() {
    let iface = interface(ipv4_from_octets(10, 0, 0, 0), 29);
    let hosts = iface.host_ips();
    assert_eq!(hosts.len(), 6);
    assert_eq!(hosts[0], ipv4_from_octets(10, 0, 0, 1));
    assert_eq!(hosts[5], ipv4_from_octets(10, 0, 0, 6));
    assert_eq!(iface.candidate_count(), 6);
    let iface = interface(ipv4_from_octets(10, 0, 0, 7), 29);
    assert_eq!(iface.host_ips().len(), 6);
}

#[test]
fn slash_31_yields_the_peer_on_either_side() {
    assert_eq!(
        interface(ipv4_from_octets(10, 0, 0, 1), 31).host_ips(),
        vec![ipv4_from_octets(10, 0, 0, 0)]
    );
    assert_eq!(
        interface(ipv4_from_octets(10, 0, 0, 8), 31).host_ips(),
        vec![ipv4_from_octets(10, 0, 0, 9)]
    );
    assert_eq!(interface(ipv4_from_octets(10, 0, 0, 8), 31).candidate_count(), 1);
}

#[test]
fn slash_32_yields_nothing() {
    let iface = interface(ipv4_from_octets(10, 0, 0, 1), 32);
    assert!(iface.host_ips().is_empty());
    assert_eq!(iface.candidate_count(), 0);
}

#[test]
fn candidate_count_needs_no_listing() {
    assert_eq!(interface(ipv4_from_octets(10, 1, 2, 3), 8).candidate_count(), 16_777_213);
    assert_eq!(interface(ipv4_from_octets(10, 1, 2, 3), 0).candidate_count(), 4_294_967_293);
    assert_eq!(interface(0, 0).candidate_count(), 4_294_967_294);
    assert_eq!(interface(ipv4_from_octets(10, 1, 2, 3), 8).host_count(), 16_777_214);
    assert_eq!(interface(ipv4_from_octets(10, 1, 2, 3), 1).host_count(), 2_147_483_646);
}

#[test]
fn validity_is_a_prefix_within_the_address() {
    assert!(interface(1, 0).is_valid());
    assert!(interface(1, 32).is_valid());
    assert!(!interface(1, 33).is_valid());
}

#[test]
fn large_subnets_are_skipped_whole() {
    assert_eq!(MAX_SCAN_HOSTS, 1024);
    assert_eq!(MAX_CONCURRENT_PINGS, 64);
    assert_eq!(SWEEP_TIMEOUT_MS, 1000);
    let small = interface(ipv4_from_octets(10, 8, 0, 5), 30);
    let large = interface(ipv4_from_octets(10, 9, 0, 5), 16);
    let edge = interface(ipv4_from_octets(10, 10, 0, 5), 22);
    let over = interface(ipv4_from_octets(10, 11, 0, 5), 21);
    let pair = interface(ipv4_from_octets(10, 12, 0, 4), 31);
    assert_eq!(edge.candidate_count(), 1021);
    assert_eq!(over.candidate_count(), 2045);
    let targets = scan_targets(&vec![small, large, edge, over, pair]);
    assert_eq!(targets.len(), 1 + 1021 + 1);
    assert_eq!(targets[0], ipv4_from_octets(10, 8, 0, 6));
    assert_eq!(targets[1], ipv4_from_octets(10, 10, 0, 1));
    assert_eq!(targets[1021], ipv4_from_octets(10, 10, 3, 254));
    assert_eq!(targets[1022], ipv4_from_octets(10, 12, 0, 5));
    assert!(scan_targets(&Vec::new()).is_empty());
}

#[test]
fn tunnel_interfaces_are_known_by_name_or_type() {
    assert!(is_tunnel_interface("tun0", None));
    assert!(is_tunnel_interface("tap3", Some(1)));
    assert!(is_tunnel_interface("vpn0", Some(65534)));
    assert!(!is_tunnel_interface("eth0", Some(1)));
    assert!(!is_tunnel_interface("eth0", None));
    assert!(!is_tunnel_interface("tu", None));
    assert_eq!(parse_device_type("65534\n"), Some(65534));
    assert_eq!(parse_device_type(" 1 "), Some(1));
    assert_eq!(parse_device_type("4294967295"), Some(4294967295));
    assert_eq!(parse_device_type("4294967296"), None);
    assert_eq!(parse_device_type("x"), None);
    assert_eq!(parse_device_type(""), None);
}

#[test]
fn the_first_inet_line_gives_the_binding() {
    let report = "7: tun0: <POINTOPOINT,MULTICAST,NOARP,UP,LOWER_UP> mtu 1500 qdisc fq_codel state UNKNOWN group default qlen 500\n    link/none \n    inet 10.8.0.5/30 brd 10.8.0.7 scope global tun0\n       valid_lft forever preferred_lft forever\n    inet 10.9.0.1/24 scope global secondary tun0\n    inet6 fe80::1/64 scope link stable-privacy \n";
    let found = parse_interface_address("tun0", report).unwrap();
    assert_eq!(found.name, "tun0");
    assert_eq!(found.address, ipv4_from_octets(10, 8, 0, 5));
    assert_eq!(found.prefix_len, 30);
    assert_eq!(found.host_ips(), vec![ipv4_from_octets(10, 8, 0, 6)]);
}

#[test]
fn lines_without_a_binding_are_passed_over() {
    assert!(parse_interface_address("tun0", "").is_none());
    assert!(parse_interface_address("tun0", "inet \n").is_none());
    assert!(parse_interface_address("tun0", "inet 10.0.0.1\n").is_none());
    assert!(parse_interface_address("tun0", "inet6 fe80::1/64\n").is_none());
    assert!(parse_interface_address("tun0", "inet 10.0.0.256/24\n").is_none());
    assert!(parse_interface_address("tun0", "inet 10.0.0.1/256\n").is_none());
    let found = parse_interface_address("tun1", "inet bad/24\r\n\tinet 172.16.0.9/12 x").unwrap();
    assert_eq!(found.name, "tun1");
    assert_eq!(found.address, ipv4_from_octets(172, 16, 0, 9));
    assert_eq!(found.prefix_len, 12);
    let found = parse_interface_address("t", "inet 1.2.3.4/+8").unwrap();
    assert_eq!(found.prefix_len, 8);
}

#[test]
fn a_sweep_reports_the_hosts_that_answered() {
    let hosts = vec![1u32, 2, 3, 4];
    let answered = vec![false, true, true, false];
    assert_eq!(
        responding_hosts(&hosts, &answered),
        vec![IpAddress::V4(2), IpAddress::V4(3)]
    );
    assert!(responding_hosts(&Vec::new(), &Vec::new()).is_empty());
}
