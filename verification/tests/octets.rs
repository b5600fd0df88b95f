use miner_factory::address::{IpAddr, Ipv4Addr};
use miner_factory::error::{FactoryError, OctetError};
use miner_factory::octets::{
    generate_ips_from_ranges, hosts_from_octets, hosts_from_range, parse_octet_range,
};
use miner_factory::text::{chars_of, contains_char, parse_octet, split_str};
use std::num::IntErrorKind;

fn v4(a: u8, b: u8, c: u8, d: u8) -> IpAddr {
    IpAddr::V4(Ipv4Addr::new(a, b, c, d))
}

#[test]
fn test_parse_octet_range() {
    let result = parse_octet_range("10").unwrap();
    assert_eq!(result, vec![10]);

    let result = parse_octet_range("1-5").unwrap();
    assert_eq!(result, vec![1, 2, 3, 4, 5]);

    let result = parse_octet_range("200-255").unwrap();
    assert_eq!(result, (200..=255).collect::<Vec<u8>>());

    let result = parse_octet_range("200-100");
    assert!(result.is_err());

    let result = parse_octet_range("1-5-10");
    assert!(result.is_err());

    let result = parse_octet_range("300");
    assert!(result.is_err());
}

#[test]
fn test_generate_ips_from_ranges() {
    let octet1 = vec![192];
    let octet2 = vec![168];
    let octet3 = vec![1];
    let octet4 = vec![1, 2];

    let ips = generate_ips_from_ranges(&octet1, &octet2, &octet3, &octet4);

    assert_eq!(ips.len(), 2);
    assert!(ips.contains(&IpAddr::V4(Ipv4Addr::new(192, 168, 1, 1))));
    assert!(ips.contains(&IpAddr::V4(Ipv4Addr::new(192, 168, 1, 2))));
}

#[test]
fn addresses_are_generated_last_octet_first() {
    let ips = generate_ips_from_ranges(&[10], &[0, 1], &[7], &[8, 9]);
    assert_eq!(
        ips,
        vec![v4(10, 0, 7, 8), v4(10, 0, 7, 9), v4(10, 1, 7, 8), v4(10, 1, 7, 9)]
    );
    assert!(generate_ips_from_ranges(&[10], &[], &[7], &[8]).is_empty());
}

#[test]
fn dotted_addresses_pack_from_the_left() {
    assert_eq!(Ipv4Addr::new(192, 168, 1, 2).bits, 0xc0a8_0102);
}

#[test]
fn a_range_of_one_value_selects_it() {
    assert_eq!(parse_octet_range("7-7").unwrap(), vec![7]);
    assert_eq!(parse_octet_range("0-255").unwrap().len(), 256);
    assert_eq!(parse_octet_range("+7").unwrap(), vec![7]);
    assert_eq!(parse_octet_range("007").unwrap(), vec![7]);
}

#[test]
fn range_format_error_names_the_text() {
    let error = parse_octet_range("1-5-10").unwrap_err();
    assert!(matches!(&error, FactoryError::RangeFormat { text } if text == "1-5-10"));
    assert_eq!(error.message(), "Invalid range format: 1-5-10");
}

#[test]
fn range_order_error_names_the_text() {
    let error = parse_octet_range("200-100").unwrap_err();
    assert!(matches!(&error, FactoryError::RangeOrder { text } if text == "200-100"));
    assert_eq!(error.message(), "Invalid range: start > end in 200-100");
}

#[test]
fn octet_errors_say_what_is_wrong() {
    let error = parse_octet_range("").unwrap_err();
    assert!(matches!(error, FactoryError::Octet { cause: OctetError::Empty }));
    assert_eq!(error.message(), "cannot parse integer from empty string");

    let error = parse_octet_range("1x").unwrap_err();
    assert!(matches!(error, FactoryError::Octet { cause: OctetError::InvalidDigit }));
    assert_eq!(error.message(), "invalid digit found in string");

    let error = parse_octet_range("300").unwrap_err();
    assert!(matches!(error, FactoryError::Octet { cause: OctetError::TooLarge }));
    assert_eq!(error.message(), "number too large to fit in target type");

    assert!(matches!(
        parse_octet_range("-5"),
        Err(FactoryError::Octet { cause: OctetError::Empty })
    ));
    assert!(matches!(
        parse_octet_range("5-"),
        Err(FactoryError::Octet { cause: OctetError::Empty })
    ));
}

#[test]
fn octets_are_read_as_the_standard_library_reads_them() {
    let pieces = ["", "0", "1", "2", "5", "9", "25", "26", "99", "00", "+", "-", "a", " ", "٣"];
    for first in pieces {
        for second in pieces {
            for third in pieces {
                let text = format!("{first}{second}{third}");
                let expected = text.parse::<u8>().map_err(|error| match error.kind() {
                    IntErrorKind::Empty => OctetError::Empty,
                    IntErrorKind::PosOverflow => OctetError::TooLarge,
                    _ => OctetError::InvalidDigit,
                });
                assert_eq!(parse_octet(&text), expected, "{text:?}");
            }
        }
    }
}

#[test]
fn texts_split_as_the_standard_library_splits_them() {
    for text in ["", ".", "a", "a.b", ".a.", "1.2.3.4", "é.ü", "..", "a-b"] {
        let expected: Vec<&str> = text.split('.').collect();
        assert_eq!(split_str(text, '.'), expected);
        assert_eq!(contains_char(text, '.'), text.contains('.'));
        assert_eq!(chars_of(text), text.chars().collect::<Vec<char>>());
        assert_eq!(split_str(text, '.').join("."), text);
    }
}

#[test]
fn hosts_come_from_four_selectors() {
    let hosts = hosts_from_octets("192", "168", "1", "1-3").unwrap();
    assert_eq!(hosts, vec![v4(192, 168, 1, 1), v4(192, 168, 1, 2), v4(192, 168, 1, 3)]);
}

#[test]
fn the_first_bad_selector_is_reported() {
    let error = hosts_from_octets("10", "9-1", "", "x").unwrap_err();
    assert!(matches!(&error, FactoryError::RangeOrder { text } if text == "9-1"));
}

#[test]
fn hosts_come_from_a_range_string() {
    let hosts = hosts_from_range("10.1-2.0.254-255").unwrap();
    assert_eq!(
        hosts,
        vec![v4(10, 1, 0, 254), v4(10, 1, 0, 255), v4(10, 2, 0, 254), v4(10, 2, 0, 255)]
    );
    assert_eq!(hosts, hosts_from_octets("10", "1-2", "0", "254-255").unwrap());
}

#[test]
fn a_range_string_has_four_parts() {
    for text in ["", "10", "10.0.0", "10.0.0.0.1", "10-1"] {
        let error = hosts_from_range(text).unwrap_err();
        assert!(matches!(error, FactoryError::RangeParts));
        assert_eq!(
            error.message(),
            "Invalid IP range format. Expected format: 10.1-199.0.1-199"
        );
    }
    assert!(matches!(
        hosts_from_range("10..0.1"),
        Err(FactoryError::Octet { cause: OctetError::Empty })
    ));
}

#[test]
fn a_range_string_selects_each_address_once() {
    let hosts = hosts_from_range("10.0-1.0-3.0-255").unwrap();
    assert_eq!(hosts.len(), 2 * 4 * 256);
    let mut bits: Vec<u32> = hosts
        .iter()
        .map(|ip| match ip {
            IpAddr::V4(ip) => ip.bits,
            IpAddr::V6(_) => unreachable!(),
        })
        .collect();
    bits.sort();
    bits.dedup();
    assert_eq!(bits.len(), hosts.len());
}

#[test]
fn selected_addresses_ascend_and_have_their_places() {
    let first = [10u8, 11];
    let second = [0u8, 2, 4];
    let third = [7u8, 8];
    let fourth = [1u8, 3, 5, 255];
    let ips = generate_ips_from_ranges(&first, &second, &third, &fourth);
    for i in 0..2 {
        for j in 0..3 {
            for k in 0..2 {
                for l in 0..4 {
                    let place = i * (3 * (2 * 4)) + j * (2 * 4) + k * 4 + l;
                    assert_eq!(ips[place], v4(first[i], second[j], third[k], fourth[l]));
                }
            }
        }
    }
    let hosts = hosts_from_range("9-10.254-255.0-1.0-255").unwrap();
    let bits: Vec<u32> = hosts
        .iter()
        .map(|ip| match ip {
            IpAddr::V4(ip) => ip.bits,
            IpAddr::V6(_) => unreachable!(),
        })
        .collect();
    assert!(bits.windows(2).all(|pair| pair[0] < pair[1]));
}
