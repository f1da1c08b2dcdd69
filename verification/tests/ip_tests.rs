use zonesync::ip::{Ipv4Address, ipv4_text, parse_ipv4_text};

fn addr(o1: u8, o2: u8, o3: u8, o4: u8) -> Ipv4Address {
    Ipv4Address { o1, o2, o3, o4 }
}

#[test]
fn test_parse_plain_address() {
    assert_eq!(parse_ipv4_text("192.168.1.1"), Some(addr(192, 168, 1, 1)));
}

#[test]
fn test_parse_rejects_invalid_text() {
    assert_eq!(parse_ipv4_text("invalid_ip"), None);
}

#[test]
fn test_parse_strips_surrounding_whitespace() {
    assert_eq!(parse_ipv4_text("  10.0.0.1  \n"), Some(addr(10, 0, 0, 1)));
}

#[test]
fn test_parse_rejects_empty_text() {
    assert_eq!(parse_ipv4_text(""), None);
    assert_eq!(parse_ipv4_text("   \n"), None);
}

#[test]
fn test_parse_rejects_wrong_octet_count() {
    assert_eq!(parse_ipv4_text("1.2.3"), None);
    assert_eq!(parse_ipv4_text("1.2.3.4.5"), None);
    assert_eq!(parse_ipv4_text("1.2.3."), None);
    assert_eq!(parse_ipv4_text(".1.2.3"), None);
}

#[test]
fn test_parse_rejects_leading_zero() {
    assert_eq!(parse_ipv4_text("01.2.3.4"), None);
    assert_eq!(parse_ipv4_text("1.2.3.007"), None);
    assert_eq!(parse_ipv4_text("0.0.0.0"), Some(addr(0, 0, 0, 0)));
}

#[test]
fn test_parse_rejects_octet_out_of_range() {
    assert_eq!(parse_ipv4_text("256.1.1.1"), None);
    assert_eq!(parse_ipv4_text("1.2.3.999"), None);
    assert_eq!(parse_ipv4_text("255.255.255.255"), Some(addr(255, 255, 255, 255)));
}

#[test]
fn test_parse_rejects_inner_whitespace() {
    assert_eq!(parse_ipv4_text("1. 2.3.4"), None);
    assert_eq!(parse_ipv4_text("1.2.3 .4"), None);
}

#[test]
fn test_format_dotted_decimal() {
    assert_eq!(ipv4_text(&addr(192, 168, 1, 1)), "192.168.1.1");
    assert_eq!(ipv4_text(&addr(0, 0, 0, 0)), "0.0.0.0");
    assert_eq!(ipv4_text(&addr(255, 255, 255, 255)), "255.255.255.255");
    assert_eq!(ipv4_text(&addr(8, 34, 210, 7)), "8.34.210.7");
}

#[test]
fn test_format_then_parse_round_trip() {
    for ip in [
        addr(0, 0, 0, 0),
        addr(9, 10, 99, 100),
        addr(127, 0, 0, 1),
        addr(203, 0, 113, 254),
        addr(255, 255, 255, 255),
    ] {
        assert_eq!(parse_ipv4_text(&ipv4_text(&ip)), Some(ip));
    }
}
