use mbim_connect::addr::{IpAddress, Ipv4Address, Ipv6Address};
use mbim_connect::ip_configuration::ConfigEntry;
use mbim_connect::parser::{parse_config_line, parse_ip_configuration, parse_trid};
use mbim_connect::ConfigError;

fn v4(a: u8, b: u8, c: u8, d: u8) -> Ipv4Address {
    Ipv4Address { a, b, c, d }
}

fn v6(s: [u16; 8]) -> Ipv6Address {
    Ipv6Address {
        s0: s[0],
        s1: s[1],
        s2: s[2],
        s3: s[3],
        s4: s[4],
        s5: s[5],
        s6: s[6],
        s7: s[7],
    }
}

const FIXTURE: &[u8] = b"[/dev/cdc-wdm0] IPv4 configuration available: 'address, gateway, dns'\n     IP [0]: '111.22.3.100/16'\n    Gateway: '111.22.3.1'\n    DNS [0]: '8.8.8.8'\n    DNS [1]: '8.8.6.6'\n\n[/dev/cdc-wdm0] IPv6 configuration available: 'address, gateway, dns'\n     IP [0]: 'fe80::1234:4321:1234:4321/120'\n    Gateway: 'fe80::1234:4321:1234:1'\n    DNS [0]: '4321:4321:1234::1'\n    DNS [1]: '4321:4321:1234::2'\n[/dev/cdc-wdm0] Session not closed:\n\t    TRID: '8'";

#[test]
fn parser() {
    let trid = parse_trid(FIXTURE).unwrap();
    assert_eq!(trid, 8);

    let config = parse_ip_configuration(FIXTURE).unwrap();
    assert_eq!(config.ipv4.ip.len(), 1);
    assert_eq!(config.ipv4.ip[0].addr, v4(111, 22, 3, 100));
    assert_eq!(config.ipv4.ip[0].mask, 16);
    assert_eq!(config.ipv4.gw, v4(111, 22, 3, 1));
    assert_eq!(config.ipv4.dns.len(), 2);
    assert_eq!(config.ipv4.dns[0], v4(8, 8, 8, 8));
    assert_eq!(config.ipv4.dns[1], v4(8, 8, 6, 6));
    assert_eq!(config.ipv6.ip.len(), 1);
    assert_eq!(
        config.ipv6.ip[0].addr,
        v6([0xfe80, 0x0, 0x0, 0x0, 0x1234, 0x4321, 0x1234, 0x4321])
    );
    assert_eq!(config.ipv6.ip[0].mask, 120);
    assert_eq!(
        config.ipv6.gw,
        v6([0xfe80, 0x0, 0x0, 0x0, 0x1234, 0x4321, 0x1234, 0x1])
    );
    assert_eq!(config.ipv6.dns.len(), 2);
    assert_eq!(
        config.ipv6.dns[0],
        v6([0x4321, 0x4321, 0x1234, 0x0, 0x0, 0x0, 0x0, 0x1])
    );
    assert_eq!(
        config.ipv6.dns[1],
        v6([0x4321, 0x4321, 0x1234, 0x0, 0x0, 0x0, 0x0, 0x2])
    );
    assert_eq!(config.trid, 8);
}

#[test]
fn empty_document_fails() {
    let r = parse_ip_configuration(b"");
    assert!(matches!(r, Err(ConfigError::ConfigurationNotFound)));
}

#[test]
fn single_entry_fails() {
    let r = parse_ip_configuration(b"Gateway: '10.0.0.1'\nbanner line without records\n");
    assert!(matches!(r, Err(ConfigError::ConfigurationNotFound)));
}

#[test]
fn two_entries_succeed() {
    let config =
        parse_ip_configuration(b"IP [0]: '10.0.0.2/24'\nGateway: '10.0.0.1'\n").unwrap();
    assert_eq!(config.ipv4.ip.len(), 1);
    assert_eq!(config.ipv4.ip[0].addr, v4(10, 0, 0, 2));
    assert_eq!(config.ipv4.ip[0].mask, 24);
    assert_eq!(config.ipv4.gw, v4(10, 0, 0, 1));
    assert_eq!(config.trid, 0);
    assert!(config.ipv6.ip.is_empty());
    assert!(config.ipv6.dns.is_empty());
}

#[test]
fn gateway_last_wins() {
    let config = parse_ip_configuration(
        b"IP [0]: '10.0.0.2/24'\nGateway: '10.0.0.1'\nGateway: '10.0.0.7'\n",
    )
    .unwrap();
    assert_eq!(config.ipv4.gw, v4(10, 0, 0, 7));
}

#[test]
fn trid_last_wins_in_aggregation() {
    let config =
        parse_ip_configuration(b"TRID: '3'\nIP [0]: '10.0.0.2/24'\nTRID: '9'\n").unwrap();
    assert_eq!(config.trid, 9);
}

#[test]
fn trid_first_wins_in_extraction() {
    let trid = parse_trid(b"TRID: '3'\nTRID: '9'\n").unwrap();
    assert_eq!(trid, 3);
}

#[test]
fn trid_missing_fails() {
    let r = parse_trid(b"Gateway: '10.0.0.1'\nno records here\n");
    assert!(matches!(r, Err(ConfigError::TransactionIdNotFound)));
}

#[test]
fn malformed_lines_are_skipped() {
    // a bad address, an out-of-range mask, and a non-numeric
    // transaction id never abort the scan of the rest
    let config = parse_ip_configuration(
        b"IP [0]: '10.0.0.300/24'\nIP [1]: '10.0.0.2/999'\nTRID: 'abc'\nIP [2]: '10.0.0.2/24'\nGateway: '10.0.0.1'\n",
    )
    .unwrap();
    assert_eq!(config.ipv4.ip.len(), 1);
    assert_eq!(config.ipv4.ip[0].addr, v4(10, 0, 0, 2));
    assert_eq!(config.ipv4.gw, v4(10, 0, 0, 1));
    assert_eq!(config.trid, 0);
}

#[test]
fn line_without_colon_matches_nothing() {
    assert_eq!(parse_config_line(b"no separator here 'IP 1.2.3.4/8'"), None);
}

#[test]
fn line_without_quotes_matches_nothing() {
    assert_eq!(parse_config_line(b"IP [0]: 1.2.3.4/8"), None);
}

#[test]
fn line_with_empty_quotes_matches_nothing() {
    assert_eq!(parse_config_line(b"IP [0]: ''"), None);
}

#[test]
fn unknown_name_is_no_value() {
    assert_eq!(
        parse_config_line(b"Session [0]: 'whatever'"),
        Some(ConfigEntry::NoValue)
    );
}

#[test]
fn bracket_qualifier_is_dropped_from_name() {
    assert_eq!(
        parse_config_line(b"   DNS [1]: '9.9.9.9'"),
        Some(ConfigEntry::Dns(IpAddress::V4(v4(9, 9, 9, 9))))
    );
    // the name ends at any whitespace, a tab included
    assert_eq!(
        parse_config_line(b"\tDNS\t[1]: '9.9.9.9'"),
        Some(ConfigEntry::Dns(IpAddress::V4(v4(9, 9, 9, 9))))
    );
}

#[test]
fn ip_line_without_slash_is_malformed() {
    assert_eq!(parse_config_line(b"IP [0]: '1.2.3.4'"), None);
}

#[test]
fn gateway_line_takes_either_family() {
    assert_eq!(
        parse_config_line(b"Gateway: '10.0.0.1'"),
        Some(ConfigEntry::Gw(IpAddress::V4(v4(10, 0, 0, 1))))
    );
    let e = parse_config_line(b"Gateway: '::'").unwrap();
    match e {
        ConfigEntry::Gw(IpAddress::V6(a)) => {
            assert_eq!(a, mbim_connect::addr::Ipv6Address {
                s0: 0, s1: 0, s2: 0, s3: 0, s4: 0, s5: 0, s6: 0, s7: 0,
            });
        }
        other => panic!("expected an IPv6 gateway, got {:?}", other),
    }
}

#[test]
fn trid_line_parses() {
    assert_eq!(
        parse_config_line(b"TRID: '18446744073709551615'"),
        Some(ConfigEntry::TRID(u64::MAX))
    );
    assert_eq!(parse_config_line(b"TRID: '18446744073709551616'"), None);
}

#[test]
fn mask_with_plus_sign_is_accepted() {
    // the unsigned-integer grammar admits one leading plus
    let e = parse_config_line(b"IP [0]: '1.2.3.4/+16'").unwrap();
    match e {
        ConfigEntry::Ip(x) => assert_eq!(x.mask, 16),
        _ => panic!("expected an address record"),
    }
}

#[test]
fn describe_names_each_failure() {
    assert_eq!(
        ConfigError::ConfigurationNotFound.describe(),
        "Ip configuration entries not found"
    );
    assert_eq!(ConfigError::TransactionIdNotFound.describe(), "Could not parse TRID");
    assert_eq!(
        ConfigError::InvocationError(b"boom".to_vec()).describe(),
        "External command failed"
    );
}
