//! The IP literal grammar: dotted-quad IPv4 and colon-separated IPv6
//! parsing, and formatting back to text.

use externalip_manager::addr::{AddressKind, IpAddress};
use externalip_manager::ip_text::{
    format_ip, format_ip_bytes, parse_ip, parse_ip_of_family, parse_ipv4, parse_ipv6,
};

#[test]
fn parses_dotted_quads() {
    assert_eq!(parse_ipv4(b"10.0.0.1"), Some(0x0a00_0001));
    assert_eq!(parse_ipv4(b"0.0.0.0"), Some(0));
    assert_eq!(parse_ipv4(b"255.255.255.0"), Some(0xffff_ff00));
    assert_eq!(parse_ipv4(b"0.0.0.255"), Some(0x0000_00ff));
    assert_eq!(parse_ipv4(b"203.0.113.77"), Some(0xcb00_714d));
}

#[test]
fn rejects_malformed_dotted_quads() {
    assert_eq!(parse_ipv4(b""), None);
    assert_eq!(parse_ipv4(b"10.0.0"), None);
    assert_eq!(parse_ipv4(b"10.0.0.1.2"), None);
    assert_eq!(parse_ipv4(b"256.0.0.1"), None);
    assert_eq!(parse_ipv4(b"01.0.0.1"), None, "leading zeros are not accepted");
    assert_eq!(parse_ipv4(b"1000.0.0.1"), None);
    assert_eq!(parse_ipv4(b"10.0.0.1 "), None);
    assert_eq!(parse_ipv4(b"10..0.1"), None);
    assert_eq!(parse_ipv4(b"a.b.c.d"), None);
}

#[test]
fn parses_ipv6_literals() {
    assert_eq!(parse_ipv6(b"::"), Some(0));
    assert_eq!(parse_ipv6(b"::1"), Some(1));
    assert_eq!(parse_ipv6(b"1::"), Some(1u128 << 112));
    assert_eq!(
        parse_ipv6(b"1:2:3:4:5:6:7:8"),
        Some(
            (1u128 << 112) | (2u128 << 96) | (3u128 << 80) | (4u128 << 64) | (5u128 << 48)
                | (6u128 << 32) | (7u128 << 16) | 8,
        ),
    );
    assert_eq!(parse_ipv6(b"2001:db8::ff00:42:8329"), Some(0x2001_0db8_0000_0000_0000_ff00_0042_8329));
    assert_eq!(parse_ipv6(b"fe80::1"), Some(0xfe80_0000_0000_0000_0000_0000_0000_0001));
    assert_eq!(parse_ipv6(b"ABCD::ef01"), Some(0xabcd_0000_0000_0000_0000_0000_0000_ef01));
}

#[test]
fn rejects_malformed_ipv6_literals() {
    assert_eq!(parse_ipv6(b""), None);
    assert_eq!(parse_ipv6(b":"), None);
    assert_eq!(parse_ipv6(b":::"), None);
    assert_eq!(parse_ipv6(b"1:2:3:4:5:6:7"), None, "too few groups without compression");
    assert_eq!(parse_ipv6(b"1:2:3:4:5:6:7:8:9"), None);
    assert_eq!(parse_ipv6(b"1:2:3:4:5:6:7:8::"), None);
    assert_eq!(parse_ipv6(b"12345::"), None, "groups have at most four digits");
    assert_eq!(parse_ipv6(b"1::2::3"), None, "at most one compression");
    assert_eq!(parse_ipv6(b"g::1"), None);
    assert_eq!(parse_ipv6(b"1:"), None);
}

#[test]
fn parses_either_family() {
    assert_eq!(parse_ip(b"10.0.0.1"), Some(IpAddress::V4(0x0a00_0001)));
    assert_eq!(parse_ip(b"::1"), Some(IpAddress::V6(1)));
    assert_eq!(parse_ip(b"not-an-address"), None);
}

#[test]
fn parses_by_requested_family() {
    assert_eq!(
        parse_ip_of_family(b"10.0.0.1", AddressKind::IPv4),
        Some(IpAddress::V4(0x0a00_0001)),
    );
    assert_eq!(parse_ip_of_family(b"10.0.0.1", AddressKind::IPv6), None);
    assert_eq!(parse_ip_of_family(b"::1", AddressKind::IPv6), Some(IpAddress::V6(1)));
    assert_eq!(parse_ip_of_family(b"::1", AddressKind::IPv4), None);
}

#[test]
fn parses_embedded_dotted_quads() {
    assert_eq!(
        parse_ipv6(b"::ffff:192.0.2.4"),
        Some(0x0000_0000_0000_0000_0000_ffff_c000_0204),
    );
    assert_eq!(
        parse_ipv6(b"64:ff9b::1.2.3.4"),
        Some(0x0064_ff9b_0000_0000_0000_0000_0102_0304),
    );
    assert_eq!(
        parse_ipv6(b"1:2:3:4:5:6:1.2.3.4"),
        Some(0x0001_0002_0003_0004_0005_0006_0102_0304),
    );
    // the dotted quad must be last, and needs room for two groups
    assert_eq!(parse_ipv6(b"1.2.3.4::1"), None);
    assert_eq!(parse_ipv6(b"1:2:3:4:5:6:7:1.2.3.4"), None);
    assert_eq!(parse_ipv6(b"::1.2.3.4.5"), None);
}

#[test]
fn formats_addresses() {
    assert_eq!(format_ip(&IpAddress::V4(0x0a00_004d)), "10.0.0.77");
    assert_eq!(format_ip(&IpAddress::V4(0)), "0.0.0.0");
    assert_eq!(format_ip(&IpAddress::V4(0xffff_ffff)), "255.255.255.255");
    assert_eq!(format_ip(&IpAddress::V6(0)), "::");
    assert_eq!(format_ip(&IpAddress::V6(1)), "::1");
    assert_eq!(format_ip(&IpAddress::V6(1u128 << 112)), "1::");
    assert_eq!(
        format_ip(&IpAddress::V6(0x2001_0db8_0000_0000_0000_ff00_0042_8329)),
        "2001:db8::ff00:42:8329",
    );
    // the longest zero run is the one compressed; the leftmost wins ties
    assert_eq!(
        format_ip(&IpAddress::V6(0x0001_0000_0000_0002_0000_0000_0000_0003)),
        "1:0:0:2::3",
    );
    assert_eq!(
        format_ip(&IpAddress::V6(0x0001_0000_0000_0002_0000_0000_0003_0004)),
        "1::2:0:0:3:4",
    );
    // a single zero group is written out, not compressed
    assert_eq!(
        format_ip(&IpAddress::V6(0x0001_0000_0002_0003_0004_0005_0006_0007)),
        "1:0:2:3:4:5:6:7",
    );
    // an IPv4-mapped address is written in mixed notation
    assert_eq!(
        format_ip(&IpAddress::V6(0x0000_0000_0000_0000_0000_ffff_c000_0204)),
        "::ffff:192.0.2.4",
    );
    assert_eq!(format_ip_bytes(&IpAddress::V4(0x0a00_004d)), b"10.0.0.77".to_vec());
}

#[test]
fn formatted_addresses_parse_back() {
    let samples = vec![
        IpAddress::V4(0),
        IpAddress::V4(0x0a00_0001),
        IpAddress::V4(0xffff_ffff),
        IpAddress::V6(0),
        IpAddress::V6(1),
        IpAddress::V6(u128::MAX),
        IpAddress::V6(0x2001_0db8_0000_0000_0000_ff00_0042_8329),
        IpAddress::V6(0x0000_0000_0000_0000_0000_ffff_c000_0204),
        IpAddress::V6(0x0001_0000_0000_0002_0000_0000_0000_0003),
    ];
    for a in samples {
        let text = format_ip_bytes(&a);
        assert_eq!(parse_ip(&text), Some(a), "round trip of {:?}", a);
    }
}
