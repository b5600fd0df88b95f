use miner_factory::address::{IpAddr, Ipv4Addr, Ipv6Addr};
use miner_factory::error::FactoryError;
use miner_factory::subnet::{hosts_from_subnet, subnet_hosts, Subnet};

fn v4(bits: u32) -> IpAddr {
    IpAddr::V4(Ipv4Addr { bits })
}

fn v6(bits: u128) -> IpAddr {
    IpAddr::V6(Ipv6Addr { bits })
}

#[test]
fn a_subnet_holds_its_network_and_broadcast_addresses() {
    let hosts = hosts_from_subnet("192.168.1.0/30").unwrap();
    assert_eq!(
        hosts,
        vec![v4(0xc0a8_0100), v4(0xc0a8_0101), v4(0xc0a8_0102), v4(0xc0a8_0103)]
    );
}

#[test]
fn the_address_of_a_subnet_need_not_be_its_first() {
    assert_eq!(
        hosts_from_subnet("192.168.1.7/30").unwrap(),
        vec![v4(0xc0a8_0104), v4(0xc0a8_0105), v4(0xc0a8_0106), v4(0xc0a8_0107)]
    );
}

#[test]
fn subnets_at_the_ends_of_the_address_space() {
    assert_eq!(hosts_from_subnet("255.255.255.255/32").unwrap(), vec![v4(u32::MAX)]);
    assert_eq!(
        hosts_from_subnet("255.255.255.254/31").unwrap(),
        vec![v4(u32::MAX - 1), v4(u32::MAX)]
    );
    assert_eq!(hosts_from_subnet("0.0.0.0/32").unwrap(), vec![v4(0)]);
    assert_eq!(hosts_from_subnet("10.0.0.0/16").unwrap().len(), 65536);
}

#[test]
fn version_six_subnets_are_supported() {
    let start: u128 = 0xfd00 << 112;
    assert_eq!(
        hosts_from_subnet("fd00::5/126").unwrap(),
        vec![v6(start + 4), v6(start + 5), v6(start + 6), v6(start + 7)]
    );
    assert_eq!(hosts_from_subnet("::1/128").unwrap(), vec![v6(1)]);
    assert_eq!(
        hosts_from_subnet("ffff:ffff:ffff:ffff:ffff:ffff:ffff:ffff/127").unwrap(),
        vec![v6(u128::MAX - 1), v6(u128::MAX)]
    );
    assert_eq!(hosts_from_subnet("fd00::/112").unwrap().len(), 65536);
}

#[test]
fn texts_that_are_no_subnet_are_refused() {
    for text in ["", "10.0.0.0", "10.0.0.0/33", "10.0.0/8", "fd00::/129", "x", "10.0.0.0/-1"] {
        let error = hosts_from_subnet(text).unwrap_err();
        assert!(matches!(error, FactoryError::Subnet), "{text}");
        assert_eq!(error.message(), "invalid IP address syntax");
    }
}

#[test]
fn subnets_can_be_given_as_values() {
    assert_eq!(
        subnet_hosts(Subnet::V4 { addr: 0x0a00_0003, prefix_len: 31 }),
        vec![v4(0x0a00_0002), v4(0x0a00_0003)]
    );
    assert_eq!(subnet_hosts(Subnet::V6 { addr: 9, prefix_len: 127 }), vec![v6(8), v6(9)]);
}
