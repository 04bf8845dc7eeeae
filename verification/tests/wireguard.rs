use network_route_visualizer::net::{Endpoint, IpAddress};
use network_route_visualizer::wireguard::{
    get_wireguard_peer_endpoints, get_wireguard_peer_ips, is_wireguard_name, list_entries,
    parse_endpoint, parse_interface_names, parse_wireguard_interface, WireGuardInterface,
    WireGuardPeer,
};

const LOOPBACK_V6: u128 = 1;

fn v4(a: u8, b: u8, c: u8, d: u8) -> IpAddress {
    IpAddress::V4(u32::from_be_bytes([a, b, c, d]))
}

#[test]
fn test_parse_endpoint_ipv4() {
    let result = parse_endpoint("192.168.1.100:51820");
    assert!(result.is_some());
    let addr = result.unwrap();
    assert_eq!(addr.port, 51820);
}

#[test]
fn test_parse_endpoint_ipv6() {
    let result = parse_endpoint("[::1]:51820");
    assert!(result.is_some());
    let addr = result.unwrap();
    assert_eq!(addr.port, 51820);
}

#[test]
fn test_parse_endpoint_invalid() {
    assert!(parse_endpoint("invalid").is_none());
    assert!(parse_endpoint("").is_none());
}

#[test]
fn endpoint_parsing_gives_address_and_port() {
    assert_eq!(
        parse_endpoint("192.168.1.100:51820"),
        Some(Endpoint { ip: v4(192, 168, 1, 100), port: 51820 })
    );
    assert_eq!(
        parse_endpoint("[::1]:51820"),
        Some(Endpoint { ip: IpAddress::V6(LOOPBACK_V6), port: 51820 })
    );
    assert_eq!(parse_endpoint("not-an-endpoint"), None);
}

#[test]
fn endpoint_ports_are_sixteen_bits() {
    assert_eq!(parse_endpoint("10.0.0.1:0"), Some(Endpoint { ip: v4(10, 0, 0, 1), port: 0 }));
    assert_eq!(
        parse_endpoint("10.0.0.1:65535"),
        Some(Endpoint { ip: v4(10, 0, 0, 1), port: 65535 })
    );
    assert_eq!(parse_endpoint("10.0.0.1:65536"), None);
    assert_eq!(parse_endpoint("10.0.0.1:"), None);
    assert_eq!(parse_endpoint("10.0.0.1"), None);
    assert_eq!(parse_endpoint(":80"), None);
    assert_eq!(parse_endpoint("10.0.0.1:8x"), None);
    assert_eq!(parse_endpoint("10.0.0.1:-1"), None);
    assert_eq!(parse_endpoint("10.0.0.1:+80"), None);
    assert_eq!(parse_endpoint("10.0.0.1: 80"), None);
    assert_eq!(parse_endpoint(" 10.0.0.1:80"), None);
    assert_eq!(
        parse_endpoint("10.0.0.1:00080"),
        Some(Endpoint { ip: v4(10, 0, 0, 1), port: 80 })
    );
}

#[test]
fn only_the_two_notations_are_endpoints() {
    assert_eq!(
        parse_endpoint("[::1]:51820"),
        Some(Endpoint { ip: IpAddress::V6(LOOPBACK_V6), port: 51820 })
    );
    assert_eq!(
        parse_endpoint("[2001:db8::7]:1"),
        Some(Endpoint { ip: IpAddress::V6(0x2001_0db8_0000_0000_0000_0000_0000_0007), port: 1 })
    );
    assert_eq!(parse_endpoint("[::1]x51820"), None);
    assert_eq!(parse_endpoint("[::1]51820"), None);
    assert_eq!(parse_endpoint("[::1]\u{e9}51820"), None);
    assert_eq!(parse_endpoint("[::1]:+51820"), None);
    assert_eq!(parse_endpoint("[::1]"), None);
    assert_eq!(parse_endpoint("[::1]:"), None);
    assert_eq!(parse_endpoint("[::1"), None);
    assert_eq!(parse_endpoint("::1]:80"), None);
    assert_eq!(parse_endpoint("[zz]:80"), None);
    assert_eq!(parse_endpoint("[]:80"), None);
    assert_eq!(parse_endpoint("::1:51820"), None);
    assert_eq!(parse_endpoint("2001:db8::7:51820"), None);
    assert_eq!(parse_endpoint("[10.1.2.3]:7"), None);
    assert_eq!(parse_endpoint("10.1.2.3"), None);
    assert_eq!(parse_endpoint("example.org:80"), None);
    assert_eq!(parse_endpoint("not-an-endpoint"), None);
}

#[test]
fn endpoint_with_zone_keeps_address_and_port() {
    assert_eq!(
        parse_endpoint("[fe80::1%3]:51820"),
        Some(Endpoint { ip: IpAddress::V6(0xfe80_0000_0000_0000_0000_0000_0000_0001), port: 51820 })
    );
    assert_eq!(parse_endpoint("[fe80::1%eth0]:51820"), None);
}

#[test]
fn a_report_lists_peers_with_their_fields() {
    let report = "interface: wg0\n  public key: AAAA=\n  private key: (hidden)\n  listening port: 51820\n\npeer: BBBB=\n  endpoint: 203.0.113.7:51820\n  allowed ips: 10.0.0.2/32, fd00::2/128\n  latest handshake: 1 minute ago\n\npeer: CCCC=\n  allowed ips: 10.0.0.3/32\n\npeer:   DDDD=  \r\n  endpoint: [2001:db8::1]:4500\r\n  allowed ips: (none)\r\n";
    let interface = parse_wireguard_interface("wg0", report);
    assert_eq!(interface.name, "wg0");
    assert_eq!(interface.peers.len(), 3);

    let first = &interface.peers[0];
    assert_eq!(first.interface, "wg0");
    assert_eq!(first.public_key, "BBBB=");
    assert_eq!(first.endpoint, Some(Endpoint { ip: v4(203, 0, 113, 7), port: 51820 }));
    assert_eq!(first.allowed_ips, vec!["10.0.0.2/32".to_string(), "fd00::2/128".to_string()]);

    let second = &interface.peers[1];
    assert_eq!(second.public_key, "CCCC=");
    assert_eq!(second.endpoint, None);
    assert_eq!(second.allowed_ips, vec!["10.0.0.3/32".to_string()]);

    let third = &interface.peers[2];
    assert_eq!(third.public_key, "DDDD=");
    assert_eq!(
        third.endpoint,
        Some(Endpoint { ip: IpAddress::V6(0x2001_0db8_0000_0000_0000_0000_0000_0001), port: 4500 })
    );
    assert_eq!(third.allowed_ips, vec!["(none)".to_string()]);
}

#[test]
fn fields_before_the_first_peer_are_ignored() {
    let interface = parse_wireguard_interface("wg1", "endpoint: 1.2.3.4:5\nallowed ips: a\n");
    assert!(interface.peers.is_empty());
    let interface = parse_wireguard_interface("wg1", "");
    assert_eq!(interface.name, "wg1");
    assert!(interface.peers.is_empty());
}

#[test]
fn a_later_line_overrides_an_earlier_one() {
    let report = "peer: K\nendpoint: 1.2.3.4:5\nendpoint: garbage\nallowed ips: a, b\nallowed ips: , c ,,\npeer:";
    let interface = parse_wireguard_interface("wg0", report);
    assert_eq!(interface.peers.len(), 2);
    assert_eq!(interface.peers[0].endpoint, None);
    assert_eq!(interface.peers[0].allowed_ips, vec!["c".to_string()]);
    assert_eq!(interface.peers[1].public_key, "");
    assert_eq!(interface.peers[1].endpoint, None);
    assert!(interface.peers[1].allowed_ips.is_empty());
}

#[test]
fn list_entries_are_trimmed_and_never_empty() {
    let list: Vec<char> = " 10.0.0.0/8 ,, fd00::/8\t, ".chars().collect();
    assert_eq!(list_entries(&list), vec!["10.0.0.0/8".to_string(), "fd00::/8".to_string()]);
    assert!(list_entries(&Vec::new()).is_empty());
}

#[test]
fn interface_names_are_the_words_of_the_listing() {
    assert_eq!(parse_interface_names("wg0 wg1\n"), vec!["wg0".to_string(), "wg1".to_string()]);
    assert_eq!(parse_interface_names("  home\tvpn \n"), vec!["home".to_string(), "vpn".to_string()]);
    assert!(parse_interface_names("").is_empty());
    assert!(parse_interface_names(" \n").is_empty());
    assert!(is_wireguard_name("wg0"));
    assert!(is_wireguard_name("wg"));
    assert!(!is_wireguard_name("w"));
    assert!(!is_wireguard_name("eth0"));
    assert!(!is_wireguard_name("awg0"));
}

fn peer(endpoint: Option<Endpoint>) -> WireGuardPeer {
    WireGuardPeer {
        interface: "wg0".to_string(),
        public_key: "k".to_string(),
        endpoint,
        allowed_ips: Vec::new(),
    }
}

#[test]
fn peers_without_endpoint_are_skipped() {
    let a = Endpoint { ip: v4(1, 1, 1, 1), port: 1 };
    let b = Endpoint { ip: IpAddress::V6(9), port: 2 };
    let c = Endpoint { ip: v4(3, 3, 3, 3), port: 3 };
    let interfaces = vec![
        WireGuardInterface { name: "wg0".to_string(), peers: vec![peer(Some(a)), peer(None), peer(Some(b))] },
        WireGuardInterface { name: "wg1".to_string(), peers: Vec::new() },
        WireGuardInterface { name: "wg2".to_string(), peers: vec![peer(None), peer(Some(c))] },
    ];
    assert_eq!(get_wireguard_peer_endpoints(&interfaces), vec![a, b, c]);
    assert_eq!(get_wireguard_peer_ips(&interfaces), vec![a.ip, b.ip, c.ip]);
    assert!(get_wireguard_peer_endpoints(&Vec::new()).is_empty());
    assert!(get_wireguard_peer_ips(&Vec::new()).is_empty());
}
