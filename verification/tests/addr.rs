use mbim_connect::addr::{parse_ip, parse_ipv4, parse_ipv6, render_ip, render_ipv4, render_ipv6,
    IpAddress, Ipv4Address, Ipv6Address};

fn v4(a: u8, b: u8, c: u8, d: u8) -> Ipv4Address {
    Ipv4Address { a, b, c, d }
}

fn v6(s: [u16; 8]) -> Ipv6Address {
    Ipv6Address {
        s0: s[0],
        s1: s[1],
        s2: s[2],
        s3: s[3],
        s4: s[4],
        s5: s[5],
        s6: s[6],
        s7: s[7],
    }
}

#[test]
fn ipv4_valid_forms() {
    assert_eq!(parse_ipv4(b"0.0.0.0"), Some(v4(0, 0, 0, 0)));
    assert_eq!(parse_ipv4(b"255.255.255.255"), Some(v4(255, 255, 255, 255)));
    assert_eq!(parse_ipv4(b"111.22.3.100"), Some(v4(111, 22, 3, 100)));
}

#[test]
fn ipv4_invalid_forms() {
    assert_eq!(parse_ipv4(b""), None);
    assert_eq!(parse_ipv4(b"1.2.3"), None);
    assert_eq!(parse_ipv4(b"1.2.3.4.5"), None);
    assert_eq!(parse_ipv4(b"256.0.0.1"), None);
    assert_eq!(parse_ipv4(b"01.2.3.4"), None);
    assert_eq!(parse_ipv4(b"1.2.3.04"), None);
    assert_eq!(parse_ipv4(b"1.2.3."), None);
    assert_eq!(parse_ipv4(b" 1.2.3.4"), None);
    assert_eq!(parse_ipv4(b"1.2.3.+4"), None);
    assert_eq!(parse_ipv4(b"a.b.c.d"), None);
}

#[test]
fn ipv6_valid_forms() {
    assert_eq!(parse_ipv6(b"::"), Some(v6([0, 0, 0, 0, 0, 0, 0, 0])));
    assert_eq!(parse_ipv6(b"::1"), Some(v6([0, 0, 0, 0, 0, 0, 0, 1])));
    assert_eq!(parse_ipv6(b"1::"), Some(v6([1, 0, 0, 0, 0, 0, 0, 0])));
    assert_eq!(
        parse_ipv6(b"1:2:3:4:5:6:7:8"),
        Some(v6([1, 2, 3, 4, 5, 6, 7, 8]))
    );
    assert_eq!(
        parse_ipv6(b"fe80::1234:4321:1234:4321"),
        Some(v6([0xfe80, 0, 0, 0, 0x1234, 0x4321, 0x1234, 0x4321]))
    );
    assert_eq!(
        parse_ipv6(b"4321:4321:1234::1"),
        Some(v6([0x4321, 0x4321, 0x1234, 0, 0, 0, 0, 1]))
    );
    // upper-case hex and redundant zero digits are accepted
    assert_eq!(
        parse_ipv6(b"FE80::00FF"),
        Some(v6([0xfe80, 0, 0, 0, 0, 0, 0, 0xff]))
    );
    // seven explicit groups beside the gap
    assert_eq!(
        parse_ipv6(b"1:2:3:4:5:6:7::"),
        Some(v6([1, 2, 3, 4, 5, 6, 7, 0]))
    );
    assert_eq!(
        parse_ipv6(b"::1:2:3:4:5:6:7"),
        Some(v6([0, 1, 2, 3, 4, 5, 6, 7]))
    );
}

#[test]
fn ipv6_embedded_dotted_quad_tail() {
    assert_eq!(
        parse_ipv6(b"::ffff:192.168.1.40"),
        Some(v6([0, 0, 0, 0, 0, 0xffff, 0xc0a8, 0x0128]))
    );
    assert_eq!(
        parse_ipv6(b"1:2:3:4:5:6:1.2.3.4"),
        Some(v6([1, 2, 3, 4, 5, 6, 0x0102, 0x0304]))
    );
    assert_eq!(
        parse_ipv6(b"::1.2.3.4"),
        Some(v6([0, 0, 0, 0, 0, 0, 0x0102, 0x0304]))
    );
    // the dotted quad may only stand at the very end
    assert_eq!(parse_ipv6(b"1.2.3.4::1"), None);
    assert_eq!(parse_ipv6(b"::1.2.3.4:ffff"), None);
    // and its octets follow the strict dotted-quad grammar
    assert_eq!(parse_ipv6(b"::ffff:192.168.01.40"), None);
    assert_eq!(parse_ipv6(b"1:2:3:4:5:6:7:1.2.3.4"), None);
}

#[test]
fn ipv6_invalid_forms() {
    assert_eq!(parse_ipv6(b""), None);
    assert_eq!(parse_ipv6(b":"), None);
    assert_eq!(parse_ipv6(b":::"), None);
    assert_eq!(parse_ipv6(b":1"), None);
    assert_eq!(parse_ipv6(b"1:"), None);
    assert_eq!(parse_ipv6(b"1:2:3:4:5:6:7"), None);
    assert_eq!(parse_ipv6(b"1:2:3:4:5:6:7:8:9"), None);
    assert_eq!(parse_ipv6(b"1:2:3:4:5:6:7:8::"), None);
    assert_eq!(parse_ipv6(b"1::2::3"), None);
    assert_eq!(parse_ipv6(b"12345::"), None);
    assert_eq!(parse_ipv6(b"g::1"), None);
}

#[test]
fn families_are_disjoint() {
    assert_eq!(
        parse_ip(b"10.0.0.1"),
        Some(IpAddress::V4(v4(10, 0, 0, 1)))
    );
    assert_eq!(
        parse_ip(b"fe80::1"),
        Some(IpAddress::V6(v6([0xfe80, 0, 0, 0, 0, 0, 0, 1])))
    );
    assert_eq!(parse_ip(b"not an address"), None);
}

#[test]
fn ipv4_render_round_trip() {
    let a = v4(111, 22, 3, 100);
    let text = render_ipv4(&a);
    assert_eq!(text, b"111.22.3.100".to_vec());
    assert_eq!(parse_ipv4(&text), Some(a));
}

#[test]
fn ipv6_render_round_trip() {
    let a = v6([0xfe80, 0, 0, 0, 0x1234, 0x4321, 0x1234, 0x4321]);
    let text = render_ipv6(&a);
    assert_eq!(text, b"fe80:0:0:0:1234:4321:1234:4321".to_vec());
    assert_eq!(parse_ipv6(&text), Some(a));
}

#[test]
fn either_family_render_round_trip() {
    for addr in [
        IpAddress::V4(v4(8, 8, 8, 8)),
        IpAddress::V6(v6([0x4321, 0x4321, 0x1234, 0, 0, 0, 0, 2])),
    ] {
        let text = render_ip(&addr);
        assert_eq!(parse_ip(&text), Some(addr));
    }
}
