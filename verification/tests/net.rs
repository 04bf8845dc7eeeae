use network_route_visualizer::net::{
    copy_addresses, find_gap, ipv4_addresses, parse_group_list, parse_hex_group, parse_ip,
    parse_ipv4, parse_ipv6, parse_octet, parse_socket_addr, Endpoint, IpAddress,
};

fn chars(text: &str) -> Vec<char> {
    text.chars().collect()
}

#[test]
fn octets_are_plain_decimals_up_to_255() {
    assert_eq!(parse_octet(&chars("0")), Some(0));
    assert_eq!(parse_octet(&chars("9")), Some(9));
    assert_eq!(parse_octet(&chars("10")), Some(10));
    assert_eq!(parse_octet(&chars("255")), Some(255));
    assert_eq!(parse_octet(&chars("256")), None);
    assert_eq!(parse_octet(&chars("00")), None);
    assert_eq!(parse_octet(&chars("01")), None);
    assert_eq!(parse_octet(&chars("1000")), None);
    assert_eq!(parse_octet(&chars("")), None);
    assert_eq!(parse_octet(&chars("+1")), None);
    assert_eq!(parse_octet(&chars("1a")), None);
}

#[test]
fn ipv4_text_is_four_octets() {
    assert_eq!(parse_ipv4(&chars("192.168.1.100")), Some(0xC0A8_0164));
    assert_eq!(parse_ipv4(&chars("0.0.0.0")), Some(0));
    assert_eq!(parse_ipv4(&chars("255.255.255.255")), Some(0xFFFF_FFFF));
    assert_eq!(parse_ipv4(&chars("1.2.3")), None);
    assert_eq!(parse_ipv4(&chars("1.2.3.4.5")), None);
    assert_eq!(parse_ipv4(&chars("1.2.3.")), None);
    assert_eq!(parse_ipv4(&chars(".1.2.3")), None);
    assert_eq!(parse_ipv4(&chars("1..2.3")), None);
    assert_eq!(parse_ipv4(&chars("1.2.3.256")), None);
    assert_eq!(parse_ipv4(&chars("01.2.3.4")), None);
    assert_eq!(parse_ipv4(&chars(" 1.2.3.4")), None);
    assert_eq!(parse_ipv4(&chars("")), None);
}

#[test]
fn hex_groups_have_one_to_four_digits() {
    assert_eq!(parse_hex_group(&chars("0")), Some(0));
    assert_eq!(parse_hex_group(&chars("ffff")), Some(0xFFFF));
    assert_eq!(parse_hex_group(&chars("FfFf")), Some(0xFFFF));
    assert_eq!(parse_hex_group(&chars("0db8")), Some(0x0DB8));
    assert_eq!(parse_hex_group(&chars("A9")), Some(0xA9));
    assert_eq!(parse_hex_group(&chars("00000")), None);
    assert_eq!(parse_hex_group(&chars("")), None);
    assert_eq!(parse_hex_group(&chars("g")), None);
    assert_eq!(parse_hex_group(&chars("1 ")), None);
}

#[test]
fn group_lists_may_end_in_a_dotted_quad() {
    assert_eq!(parse_group_list(&chars(""), true), Some(Vec::new()));
    assert_eq!(parse_group_list(&chars("1:2:3"), false), Some(vec![1, 2, 3]));
    assert_eq!(parse_group_list(&chars("ffff:1.2.3.4"), true), Some(vec![0xFFFF, 0x0102, 0x0304]));
    assert_eq!(parse_group_list(&chars("ffff:1.2.3.4"), false), None);
    assert_eq!(parse_group_list(&chars("1.2.3.4:ffff"), true), None);
    assert_eq!(parse_group_list(&chars("1::2"), true), None);
    assert_eq!(parse_group_list(&chars(":"), true), None);
}

#[test]
fn the_gap_is_the_first_pair_of_colons() {
    assert_eq!(find_gap(&chars("::")), 0);
    assert_eq!(find_gap(&chars("1::2")), 1);
    assert_eq!(find_gap(&chars("1:2::3::4")), 3);
    assert_eq!(find_gap(&chars("1:2:3")), 5);
    assert_eq!(find_gap(&chars(":")), 1);
    assert_eq!(find_gap(&chars("")), 0);
}

#[test]
fn ipv6_text_is_eight_groups_or_has_one_gap() {
    assert_eq!(parse_ipv6(&chars("::1")), Some(1));
    assert_eq!(parse_ipv6(&chars("::")), Some(0));
    assert_eq!(parse_ipv6(&chars("1::")), Some(1u128 << 112));
    assert_eq!(
        parse_ipv6(&chars("2001:db8:85a3:0:0:8a2e:370:7334")),
        Some(0x2001_0db8_85a3_0000_0000_8a2e_0370_7334)
    );
    assert_eq!(
        parse_ipv6(&chars("2001:DB8::8A2E:370:7334")),
        Some(0x2001_0db8_0000_0000_0000_8a2e_0370_7334)
    );
    assert_eq!(parse_ipv6(&chars("::ffff:192.168.1.1")), Some(0xFFFF_C0A8_0101));
    assert_eq!(
        parse_ipv6(&chars("1:2:3:4:5:6:1.2.3.4")),
        Some(0x0001_0002_0003_0004_0005_0006_0102_0304)
    );
    assert_eq!(
        parse_ipv6(&chars("1:2:3:4:5:6:7::")),
        Some(0x0001_0002_0003_0004_0005_0006_0007_0000)
    );
    assert_eq!(
        parse_ipv6(&chars("::2:3:4:5:6:7:8")),
        Some(0x0000_0002_0003_0004_0005_0006_0007_0008)
    );
    assert_eq!(parse_ipv6(&chars("1:2:3:4:5:6:7")), None);
    assert_eq!(parse_ipv6(&chars("1:2:3:4:5:6:7:8:9")), None);
    assert_eq!(parse_ipv6(&chars("1:2:3:4:5:6:7:8::")), None);
    assert_eq!(parse_ipv6(&chars("1::2::3")), None);
    assert_eq!(parse_ipv6(&chars(":::")), None);
    assert_eq!(parse_ipv6(&chars(":1::2")), None);
    assert_eq!(parse_ipv6(&chars("1:2:3:4:5:6::1.2.3.4")), None);
    assert_eq!(parse_ipv6(&chars("1.2.3.4::")), None);
    assert_eq!(parse_ipv6(&chars("12345::")), None);
    assert_eq!(parse_ipv6(&chars("fe80::1%3")), None);
    assert_eq!(parse_ipv6(&chars("")), None);
    assert_eq!(parse_ipv6(&chars("1.2.3.4")), None);
}

#[test]
fn addresses_of_either_family_are_read() {
    assert_eq!(parse_ip(&chars("10.0.0.1")), Some(IpAddress::V4(0x0A00_0001)));
    assert_eq!(parse_ip(&chars("::1")), Some(IpAddress::V6(1)));
    assert_eq!(parse_ip(&chars("localhost")), None);
    assert_eq!(parse_ip(&chars("")), None);
}

#[test]
fn socket_addresses_need_digits_for_the_port() {
    assert_eq!(
        parse_socket_addr(&chars("127.0.0.1:8080")),
        Some(Endpoint { ip: IpAddress::V4(0x7F00_0001), port: 8080 })
    );
    assert_eq!(
        parse_socket_addr(&chars("[::1]:8080")),
        Some(Endpoint { ip: IpAddress::V6(1), port: 8080 })
    );
    assert_eq!(
        parse_socket_addr(&chars("[fe80::2%12]:1")),
        Some(Endpoint { ip: IpAddress::V6(0xfe80_0000_0000_0000_0000_0000_0000_0002), port: 1 })
    );
    assert_eq!(parse_socket_addr(&chars("[fe80::2%]:1")), None);
    assert_eq!(parse_socket_addr(&chars("[fe80::2%4294967296]:1")), None);
    assert_eq!(parse_socket_addr(&chars("127.0.0.1:+80")), None);
    assert_eq!(parse_socket_addr(&chars("127.0.0.1")), None);
    assert_eq!(parse_socket_addr(&chars("::1:80")), None);
    assert_eq!(parse_socket_addr(&chars("[1.2.3.4]:80")), None);
    assert_eq!(parse_socket_addr(&chars("[::1]80")), None);
    assert_eq!(parse_socket_addr(&chars("[::1]:80 ")), None);
    assert_eq!(parse_socket_addr(&chars("[::1]:65536")), None);
}

#[test]
fn address_lists_are_copied_and_lifted() {
    let list = vec![IpAddress::V4(1), IpAddress::V6(2)];
    assert_eq!(copy_addresses(&list), list);
    assert!(copy_addresses(&Vec::new()).is_empty());
    assert_eq!(ipv4_addresses(&vec![7, 8]), vec![IpAddress::V4(7), IpAddress::V4(8)]);
}
