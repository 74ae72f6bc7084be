use mbim_connect::addr::{render_ip, IpAddress, Ipv4Address, Ipv6Address};
use mbim_connect::commands::{ip_addr_add_args, ip_flush_args, ip_link_up_args,
    ip_route_add_args, render_ipv4_with_mask};
use mbim_connect::ip_configuration::{ConfigEntry, Ipv4AddrWithMask};
use mbim_connect::parser::parse_config_line;

const DEV: &[u8] = b"wwp0s20f0u6";

#[test]
fn flush_arguments() {
    assert_eq!(
        ip_flush_args(DEV),
        vec![b"addr".to_vec(), b"flush".to_vec(), b"dev".to_vec(), DEV.to_vec()]
    );
}

#[test]
fn link_up_arguments() {
    assert_eq!(
        ip_link_up_args(DEV),
        vec![b"link".to_vec(), b"set".to_vec(), DEV.to_vec(), b"up".to_vec()]
    );
}

#[test]
fn addr_add_arguments() {
    let x = Ipv4AddrWithMask { addr: Ipv4Address { a: 10, b: 0, c: 0, d: 2 }, mask: 24 };
    assert_eq!(
        ip_addr_add_args(&x, DEV),
        vec![
            b"addr".to_vec(),
            b"add".to_vec(),
            b"10.0.0.2/24".to_vec(),
            b"dev".to_vec(),
            DEV.to_vec(),
        ]
    );
}

#[test]
fn route_add_arguments() {
    let gw = Ipv4Address { a: 10, b: 0, c: 0, d: 1 };
    let src = Ipv4Address { a: 10, b: 0, c: 0, d: 2 };
    assert_eq!(
        ip_route_add_args(&gw, DEV, &src),
        vec![
            b"route".to_vec(),
            b"add".to_vec(),
            b"default".to_vec(),
            b"via".to_vec(),
            b"10.0.0.1".to_vec(),
            b"dev".to_vec(),
            DEV.to_vec(),
            b"src".to_vec(),
            b"10.0.0.2".to_vec(),
        ]
    );
}

#[test]
fn addr_with_mask_text() {
    let x = Ipv4AddrWithMask { addr: Ipv4Address { a: 111, b: 22, c: 3, d: 100 }, mask: 16 };
    assert_eq!(render_ipv4_with_mask(&x), b"111.22.3.100/16".to_vec());
}

#[test]
fn rendered_ip_line_parses_back() {
    // an address rendered into a record line reads back to the same
    // address and mask, for either family
    let addrs = [
        IpAddress::V4(Ipv4Address { a: 192, b: 168, c: 1, d: 40 }),
        IpAddress::V6(Ipv6Address {
            s0: 0xfe80,
            s1: 0,
            s2: 0,
            s3: 0,
            s4: 0x1234,
            s5: 0x4321,
            s6: 0x1234,
            s7: 0x4321,
        }),
    ];
    for addr in addrs {
        let mask: u8 = 64;
        let mut line: Vec<u8> = b"IP [0]: '".to_vec();
        line.extend_from_slice(&render_ip(&addr));
        line.push(b'/');
        line.extend_from_slice(format!("{}", mask).as_bytes());
        line.push(b'\'');
        let parsed = parse_config_line(&line).unwrap();
        match parsed {
            ConfigEntry::Ip(x) => {
                assert_eq!(x.addr, addr);
                assert_eq!(x.mask, mask);
            }
            other => panic!("expected an address record, got {:?}", other),
        }
    }
}
