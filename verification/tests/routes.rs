use network_route_visualizer::net::{parse_ip, parse_ipv4, IpAddress};
use network_route_visualizer::text::chars_of;
use network_route_visualizer::routes::{
    get_hostname, hostname_or_unknown, ip_v4_matches, ip_v6_matches, matches_cidr, parse_ip_json,
    parse_ip_route, route_from_json, JsonRoute, Route, RouteEngine, RoutingTable,
};

fn v4(a: u8, b: u8, c: u8, d: u8) -> u32 {
    u32::from_be_bytes([a, b, c, d])
}

fn route(destination: &str, interface: &str) -> Route {
    Route {
        destination: destination.to_string(),
        gateway: None,
        interface: interface.to_string(),
        metric: 0,
        flags: Vec::new(),
    }
}

fn engine(destinations: &[(&str, &str)]) -> RouteEngine {
    RouteEngine::new(&RoutingTable {
        hostname: "h".to_string(),
        routes: destinations.iter().map(|(d, i)| route(d, i)).collect(),
        timestamp: "t".to_string(),
    })
}

#[test]
fn test_ipv4_matches() {
    let network = parse_ipv4(&chars_of("192.168.1.0")).unwrap();
    let addr1 = parse_ipv4(&chars_of("192.168.1.100")).unwrap();
    let addr2 = parse_ipv4(&chars_of("192.168.2.100")).unwrap();

    assert!(ip_v4_matches(network, addr1, 24));
    assert!(!ip_v4_matches(network, addr2, 24));
}

#[test]
fn test_matches_cidr() {
    let ip = parse_ip(&chars_of("192.168.1.100")).unwrap();

    assert_eq!(matches_cidr("192.168.1.0/24", ip), Some(24));
    assert_eq!(matches_cidr("192.168.0.0/16", ip), Some(16));
    assert_eq!(matches_cidr("0.0.0.0/0", ip), Some(0));
    assert_eq!(matches_cidr("192.168.2.0/24", ip), None);
}

#[test]
fn prefixes_compare_the_leading_bits() {
    assert!(ip_v4_matches(0, 0xFFFF_FFFF, 0));
    assert!(ip_v4_matches(0x8000_0000, 0xFFFF_FFFF, 1));
    assert!(!ip_v4_matches(0, 0xFFFF_FFFF, 1));
    assert!(ip_v4_matches(v4(10, 0, 0, 1), v4(10, 0, 0, 1), 32));
    assert!(!ip_v4_matches(v4(10, 0, 0, 1), v4(10, 0, 0, 0), 32));
    assert!(ip_v4_matches(v4(10, 0, 0, 1), v4(10, 0, 0, 0), 31));
    assert!(!ip_v4_matches(v4(10, 0, 0, 1), v4(10, 0, 0, 1), 33));
    assert!(!ip_v4_matches(0, 0, 255));

    let net = 0x2001_0db8_0000_0000_0000_0000_0000_0000u128;
    assert!(ip_v6_matches(net, net | 0xFFFF, 32));
    assert!(ip_v6_matches(net, net | 1, 127));
    assert!(!ip_v6_matches(net, net | 1, 128));
    assert!(ip_v6_matches(net, net, 128));
    assert!(!ip_v6_matches(net, net, 129));
    assert!(ip_v6_matches(0, u128::MAX, 0));
    assert!(!ip_v6_matches(0, u128::MAX, 1));
    assert!(ip_v6_matches(1u128 << 127, u128::MAX, 1));
}

#[test]
fn destinations_match_their_own_family_only() {
    let v4_addr = IpAddress::V4(v4(10, 1, 2, 3));
    let v6_addr = IpAddress::V6(0x2001_0db8_0000_0000_0000_0000_0000_0001);
    assert_eq!(matches_cidr("default", v4_addr), Some(0));
    assert_eq!(matches_cidr("default", v6_addr), Some(0));
    assert_eq!(matches_cidr("::/0", v4_addr), Some(0));
    assert_eq!(matches_cidr("0.0.0.0/0", v6_addr), Some(0));
    assert_eq!(matches_cidr("10.1.2.3", v4_addr), Some(32));
    assert_eq!(matches_cidr("10.1.2.4", v4_addr), None);
    assert_eq!(matches_cidr("2001:db8::1", v6_addr), Some(128));
    assert_eq!(matches_cidr("2001:db8::/32", v6_addr), Some(32));
    assert_eq!(matches_cidr("2001:db8::/32", v4_addr), None);
    assert_eq!(matches_cidr("10.0.0.0/8", v6_addr), None);
    assert_eq!(matches_cidr("10.0.0.0/8/9", v4_addr), Some(8));
    assert_eq!(matches_cidr("10.0.0.0/33", v4_addr), None);
    assert_eq!(matches_cidr("10.0.0.0/", v4_addr), None);
    assert_eq!(matches_cidr("10.0.0.0/x", v4_addr), None);
    assert_eq!(matches_cidr("10.0.0.0/256", v4_addr), None);
    assert_eq!(matches_cidr("10.9.9.9/0", v4_addr), Some(0));
    assert_eq!(matches_cidr("nonsense", v4_addr), None);
    assert_eq!(matches_cidr("", v4_addr), None);
    assert_eq!(matches_cidr("Default", v4_addr), None);
}

#[test]
fn the_longest_prefix_wins_and_the_first_of_equals() {
    let engine = engine(&[
        ("default", "eth0"),
        ("10.0.0.0/8", "tun0"),
        ("10.1.0.0/16", "tun1"),
        ("10.1.0.0/16", "tun2"),
        ("192.168.0.0/16", "eth1"),
        ("fd00::/8", "wg0"),
    ]);
    assert_eq!(engine.lookup(IpAddress::V4(v4(10, 1, 2, 3))).unwrap().interface, "tun1");
    assert_eq!(engine.lookup(IpAddress::V4(v4(10, 2, 2, 3))).unwrap().interface, "tun0");
    assert_eq!(engine.lookup(IpAddress::V4(v4(8, 8, 8, 8))).unwrap().interface, "eth0");
    assert_eq!(engine.lookup(IpAddress::V4(v4(192, 168, 5, 5))).unwrap().interface, "eth1");
    assert_eq!(engine.lookup(IpAddress::V6(0xfd00u128 << 112)).unwrap().interface, "wg0");
    assert_eq!(engine.lookup(IpAddress::V6(1)).unwrap().interface, "eth0");
}

#[test]
fn without_a_matching_route_nothing_is_found() {
    let engine = engine(&[("10.0.0.0/8", "tun0"), ("garbage", "x")]);
    assert!(engine.lookup(IpAddress::V4(v4(11, 0, 0, 1))).is_none());
    assert!(engine.lookup(IpAddress::V6(1)).is_none());
    let empty = engine_empty();
    assert!(empty.lookup(IpAddress::V4(0)).is_none());
}

fn engine_empty() -> RouteEngine {
    engine(&[])
}

#[test]
fn route_lines_are_read_word_by_word() {
    let output = "default via 192.168.1.1 dev eth0 proto dhcp metric 100\n10.8.0.0/24 dev tun0 proto kernel scope link src 10.8.0.5\n\n   \nfd00::/64 via fd00::1 dev wg0 metric 1024 pref medium\n";
    let routes = parse_ip_route(output);
    assert_eq!(routes.len(), 3);

    assert_eq!(routes[0].destination, "0.0.0.0/0");
    assert_eq!(routes[0].gateway, Some(IpAddress::V4(v4(192, 168, 1, 1))));
    assert_eq!(routes[0].interface, "eth0");
    assert_eq!(routes[0].metric, 100);
    assert!(routes[0].flags.is_empty());

    assert_eq!(routes[1].destination, "10.8.0.0/24");
    assert_eq!(routes[1].gateway, None);
    assert_eq!(routes[1].interface, "tun0");
    assert_eq!(routes[1].metric, 0);

    assert_eq!(routes[2].destination, "fd00::/64");
    assert_eq!(routes[2].gateway, Some(IpAddress::V6((0xfd00u128 << 112) | 1)));
    assert_eq!(routes[2].interface, "wg0");
    assert_eq!(routes[2].metric, 1024);
}

#[test]
fn keywords_take_the_next_word_whatever_it_is() {
    let routes = parse_ip_route("1.0.0.0/8 via dev dev via metric metric\r\n2.0.0.0/8 via 1.1.1.1 via nope\n3.0.0.0/8 metric 4294967296 dev\n4.0.0.0/8 src via");
    assert_eq!(routes.len(), 4);
    assert_eq!(routes[0].gateway, None);
    assert_eq!(routes[0].interface, "via");
    assert_eq!(routes[0].metric, 0);
    assert_eq!(routes[1].gateway, None);
    assert_eq!(routes[2].metric, 0);
    assert_eq!(routes[2].interface, "");
    assert_eq!(routes[3].gateway, None);
    assert!(parse_ip_route("").is_empty());
    assert!(parse_ip_route("\n\n").is_empty());
    let routes = parse_ip_route("default");
    assert_eq!(routes[0].destination, "0.0.0.0/0");
    assert_eq!(routes[0].interface, "");
}

#[test]
fn parsed_routes_can_be_looked_up() {
    let table = RoutingTable {
        hostname: "h".to_string(),
        routes: parse_ip_route("default via 10.0.0.1 dev eth0\n10.8.0.0/24 dev tun0\n"),
        timestamp: "t".to_string(),
    };
    let engine = RouteEngine::new(&table);
    let found = engine.lookup(IpAddress::V4(v4(10, 8, 0, 9))).unwrap();
    assert_eq!(found.interface, "tun0");
    let found = engine.lookup(IpAddress::V4(v4(1, 1, 1, 1))).unwrap();
    assert_eq!(found.destination, "0.0.0.0/0");
    assert_eq!(found.gateway, Some(IpAddress::V4(v4(10, 0, 0, 1))));
}

#[test]
fn a_host_without_a_name_is_unknown() {
    assert_eq!(hostname_or_unknown(None), "unknown");
    assert_eq!(hostname_or_unknown(Some("box".to_string())), "box");
    assert_eq!(hostname_or_unknown(Some(String::new())), "");
}

#[test]
fn the_host_has_some_name() {
    let name = get_hostname();
    assert_eq!(name, get_hostname());
}

#[test]
fn json_routes_are_read_member_by_member() {
    let text = r#"[
        {"dst":"default","gateway":"192.168.1.1","dev":"eth0","protocol":"dhcp","metric":100,"flags":[]},
        {"dst":"10.8.0.0/24","dev":"tun0","scope":"link","prefsrc":"10.8.0.5","flags":["linkdown", 7, "onlink", null]},
        {"gateway":"not an address","metric":4294967297},
        {"dst":5,"dev":null,"metric":"7","flags":"none","gateway":"fd00::1"},
        {"metric":-1},
        {"metric":1.5},
        17,
        []
    ]"#;
    let routes = parse_ip_json(text).unwrap();
    assert_eq!(routes.len(), 8);

    assert_eq!(routes[0].destination, "default");
    assert_eq!(routes[0].gateway, Some(IpAddress::V4(v4(192, 168, 1, 1))));
    assert_eq!(routes[0].interface, "eth0");
    assert_eq!(routes[0].metric, 100);
    assert!(routes[0].flags.is_empty());

    assert_eq!(routes[1].destination, "10.8.0.0/24");
    assert_eq!(routes[1].gateway, None);
    assert_eq!(routes[1].interface, "tun0");
    assert_eq!(routes[1].metric, 0);
    assert_eq!(routes[1].flags, vec!["linkdown".to_string(), "onlink".to_string()]);

    assert_eq!(routes[2].destination, "default");
    assert_eq!(routes[2].gateway, None);
    assert_eq!(routes[2].interface, "unknown");
    assert_eq!(routes[2].metric, 1);

    assert_eq!(routes[3].destination, "default");
    assert_eq!(routes[3].gateway, Some(IpAddress::V6((0xfd00u128 << 112) | 1)));
    assert_eq!(routes[3].interface, "unknown");
    assert_eq!(routes[3].metric, 0);
    assert!(routes[3].flags.is_empty());

    assert_eq!(routes[4].metric, 0);
    assert_eq!(routes[5].metric, 0);
    for route in &routes[6..] {
        assert_eq!(route.destination, "default");
        assert_eq!(route.gateway, None);
        assert_eq!(route.interface, "unknown");
        assert_eq!(route.metric, 0);
        assert!(route.flags.is_empty());
    }
}

#[test]
fn what_is_no_json_array_is_refused_in_words() {
    for text in ["", "{", "{}", "\"x\"", "[1,", "null", "[] []"] {
        let error = parse_ip_json(text).unwrap_err();
        assert!(error.starts_with("Failed to parse JSON: "), "{:?}: {}", text, error);
        assert!(error.len() > "Failed to parse JSON: ".len());
    }
    assert!(parse_ip_json("[]").unwrap().is_empty());
    assert!(parse_ip_json(" [ ] ").unwrap().is_empty());
}

#[test]
fn absent_fields_take_their_defaults() {
    let route = route_from_json(JsonRoute { dst: None, gateway: None, dev: None, metric: None, flags: None });
    assert_eq!(route.destination, "default");
    assert_eq!(route.gateway, None);
    assert_eq!(route.interface, "unknown");
    assert_eq!(route.metric, 0);
    assert!(route.flags.is_empty());

    let route = route_from_json(JsonRoute {
        dst: Some("::/0".to_string()),
        gateway: Some("10.0.0.1".to_string()),
        dev: Some(String::new()),
        metric: Some(u64::MAX),
        flags: Some(vec![None, Some("a".to_string()), None, Some(String::new())]),
    });
    assert_eq!(route.destination, "::/0");
    assert_eq!(route.gateway, Some(IpAddress::V4(v4(10, 0, 0, 1))));
    assert_eq!(route.interface, "");
    assert_eq!(route.metric, u32::MAX);
    assert_eq!(route.flags, vec!["a".to_string(), String::new()]);

    let route = route_from_json(JsonRoute {
        dst: None,
        gateway: Some(" 10.0.0.1".to_string()),
        dev: None,
        metric: Some(0x1_0000_0005),
        flags: Some(Vec::new()),
    });
    assert_eq!(route.gateway, None);
    assert_eq!(route.metric, 5);
}

#[test]
fn a_routing_table_holds_the_routes_it_was_given() {
    let table = network_route_visualizer::routes::routing_table(parse_ip_route("default dev eth0\n"));
    assert_eq!(table.routes.len(), 1);
    assert_eq!(table.routes[0].interface, "eth0");
    assert_eq!(table.hostname, get_hostname());
    assert!(table.timestamp.contains('T'));
    let empty = network_route_visualizer::routes::routing_table(Vec::new());
    assert!(empty.routes.is_empty());
}
