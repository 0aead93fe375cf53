//! Networks that requests may come from.
use kirino::service::verify::address::{parse_v4, parse_v6, IpAddr};
use kirino::service::verify::network_source::NetworkSourceVerifier;

fn v4(bytes: [u8; 4]) -> IpAddr {
    IpAddr::V4(u32::from_be_bytes(bytes))
}

fn v6(groups: [u16; 8]) -> IpAddr {
    IpAddr::V6(groups.iter().fold(0u128, |acc, g| (acc << 16) | u128::from(*g)))
}

#[test]
fn test_single_ip_match() {
    let v = NetworkSourceVerifier::new(vec!["192.168.1.1".to_string()]);
    let ip = v4([192, 168, 1, 1]);
    assert!(v.is_allowed(ip).unwrap());
}

#[test]
fn test_single_ip_no_match() {
    let v = NetworkSourceVerifier::new(vec!["192.168.1.1".to_string()]);
    let ip = v4([10, 0, 0, 1]);
    assert!(!v.is_allowed(ip).unwrap());
}

#[test]
fn test_cidr_24_match() {
    let v = NetworkSourceVerifier::new(vec!["192.168.1.0/24".to_string()]);
    let ip = v4([192, 168, 1, 100]);
    assert!(v.is_allowed(ip).unwrap());
}

#[test]
fn test_cidr_24_no_match() {
    let v = NetworkSourceVerifier::new(vec!["192.168.1.0/24".to_string()]);
    let ip = v4([192, 168, 2, 1]);
    assert!(!v.is_allowed(ip).unwrap());
}

#[test]
fn test_cidr_16() {
    let v = NetworkSourceVerifier::new(vec!["10.0.0.0/16".to_string()]);
    let ip = v4([10, 0, 255, 255]);
    assert!(v.is_allowed(ip).unwrap());
    let ip2 = v4([10, 1, 0, 0]);
    assert!(!v.is_allowed(ip2).unwrap());
}

#[test]
fn test_cidr_32_exact_match() {
    let v = NetworkSourceVerifier::new(vec!["192.168.1.1/32".to_string()]);
    assert!(v
        .is_allowed(v4([192, 168, 1, 1]))
        .unwrap());
    assert!(!v
        .is_allowed(v4([192, 168, 1, 2]))
        .unwrap());
}

#[test]
fn test_cidr_0_match_all() {
    let v = NetworkSourceVerifier::new(vec!["0.0.0.0/0".to_string()]);
    assert!(v.is_allowed(v4([1, 2, 3, 4])).unwrap());
    assert!(v
        .is_allowed(v4([255, 255, 255, 255]))
        .unwrap());
}

#[test]
fn test_invalid_cidr_returns_false() {
    let v = NetworkSourceVerifier::new(vec!["not-a-cidr".to_string()]);
    assert!(!v
        .is_allowed(v4([127, 0, 0, 1]))
        .unwrap());
}

#[test]
fn test_invalid_cidr_prefix_returns_false() {
    let v = NetworkSourceVerifier::new(vec!["10.0.0.0/abc".to_string()]);
    assert!(!v
        .is_allowed(v4([10, 0, 0, 1]))
        .unwrap());
}

#[test]
fn test_ipv6_loopback() {
    let v = NetworkSourceVerifier::new(vec!["::1/128".to_string()]);
    let ip = v6([0, 0, 0, 0, 0, 0, 0, 1]);
    assert!(v.is_allowed(ip).unwrap());
}

#[test]
fn test_ipv6_subnet() {
    let v = NetworkSourceVerifier::new(vec!["2001:db8::/32".to_string()]);
    assert!(v
        .is_allowed(v6([0x2001, 0xdb8, 0, 0, 0, 0, 0, 1]))
        .unwrap());
    assert!(!v
        .is_allowed(v6([0x2001, 0xdb9, 0, 0, 0, 0, 0, 1]))
        .unwrap());
}

#[test]
fn test_ipv6_all_any() {
    let v = NetworkSourceVerifier::new(vec!["::/0".to_string()]);
    assert!(v.is_allowed(v6([0, 0, 0, 0, 0, 0, 0, 1])).unwrap());
    assert!(v
        .is_allowed(v6([0x2001, 0xdb8, 0, 0, 0, 0, 0, 1]))
        .unwrap());
}

#[test]
fn test_ipv6_exact() {
    let v = NetworkSourceVerifier::new(vec!["fe80::1".to_string()]);
    assert!(v
        .is_allowed(v6([0xfe80, 0, 0, 0, 0, 0, 0, 1]))
        .unwrap());
    assert!(!v
        .is_allowed(v6([0xfe80, 0, 0, 0, 0, 0, 0, 2]))
        .unwrap());
}

#[test]
fn test_empty_allowed() {
    let v = NetworkSourceVerifier::new(vec![]);
    let ip = v4([127, 0, 0, 1]);
    assert!(!v.is_allowed(ip).unwrap());
}

#[test]
fn test_multiple_networks() {
    let v = NetworkSourceVerifier::new(vec![
        "192.168.0.0/16".to_string(),
        "10.0.0.0/8".to_string(),
    ]);
    assert!(v
        .is_allowed(v4([192, 168, 1, 1]))
        .unwrap());
    assert!(v
        .is_allowed(v4([10, 42, 0, 1]))
        .unwrap());
    assert!(!v
        .is_allowed(v4([172, 16, 0, 1]))
        .unwrap());
}

#[test]
fn test_allowed_networks_accessor() {
    let v = NetworkSourceVerifier::new(vec!["10.0.0.0/8".to_string()]);
    assert_eq!(v.allowed_networks().len(), 1);
    assert_eq!(v.allowed_networks()[0], "10.0.0.0/8");
}

#[test]
fn test_mixed_ipv4_ipv6_networks() {
    let v =
        NetworkSourceVerifier::new(vec!["192.168.1.0/24".to_string(), "::1/128".to_string()]);
    assert!(v
        .is_allowed(v4([192, 168, 1, 1]))
        .unwrap());
    assert!(v.is_allowed(v6([0, 0, 0, 0, 0, 0, 0, 1])).unwrap());
    assert!(!v
        .is_allowed(v4([10, 0, 0, 1]))
        .unwrap());
}

#[test]
fn test_ipv4_network_against_ipv6_ip() {
    let v = NetworkSourceVerifier::new(vec!["192.168.1.0/24".to_string()]);
    assert!(!v.is_allowed(v6([0, 0, 0, 0, 0, 0, 0, 1])).unwrap());
}

#[test]
fn test_prefix_len_over_32_returns_false() {
    let v = NetworkSourceVerifier::new(vec!["10.0.0.0/33".to_string()]);
    assert!(!v
        .is_allowed(v4([10, 0, 0, 1]))
        .unwrap());
}

#[test]
fn test_prefix_len_over_128_returns_false() {
    let v = NetworkSourceVerifier::new(vec!["::1/129".to_string()]);
    assert!(!v.is_allowed(v6([0, 0, 0, 0, 0, 0, 0, 1])).unwrap());
}

#[test]
fn test_prefix_len_exactly_32() {
    let v = NetworkSourceVerifier::new(vec!["10.0.0.0/32".to_string()]);
    assert!(v
        .is_allowed(v4([10, 0, 0, 0]))
        .unwrap());
    assert!(!v
        .is_allowed(v4([10, 0, 0, 1]))
        .unwrap());
}

#[test]
fn addresses_are_read_in_their_written_forms() {
    assert_eq!(parse_v4("192.168.1.1"), Some(0xC0A8_0101));
    assert_eq!(parse_v4("0.0.0.0"), Some(0));
    assert_eq!(parse_v4("255.255.255.255"), Some(u32::MAX));
    for text in ["", "1.2.3", "1.2.3.4.5", "256.0.0.1", "01.2.3.4", "1.2.3.", " 1.2.3.4", "1.2.3.a"] {
        assert_eq!(parse_v4(text), None, "{text}");
    }
    assert_eq!(parse_v6("::"), Some(0));
    assert_eq!(parse_v6("::1"), Some(1));
    assert_eq!(parse_v6("1::"), Some(1 << 112));
    assert_eq!(parse_v6("2001:db8::ff00:42:8329"), Some(0x2001_0db8_0000_0000_0000_ff00_0042_8329));
    assert_eq!(parse_v6("::ffff:1.2.3.4"), Some(0xffff_0102_0304));
    assert_eq!(parse_v6("1:2:3:4:5:6:7:8"), Some(0x0001_0002_0003_0004_0005_0006_0007_0008));
    assert_eq!(parse_v6("1:2:3:4:5:6:7::"), Some(0x0001_0002_0003_0004_0005_0006_0007_0000));
    for text in ["", ":", "1", "1::2::3", "1:2:3:4:5:6:7:8:9", "12345::", "g::", ":::", "1:2:3:4:5:6:7:8::"] {
        assert_eq!(parse_v6(text), None, "{text}");
    }
}

#[test]
fn a_network_holds_its_neighbours_up_to_its_prefix() {
    let v = NetworkSourceVerifier::new(vec!["10.20.30.40/31".to_string()]);
    assert!(v.is_allowed(v4([10, 20, 30, 40])).unwrap());
    assert!(v.is_allowed(v4([10, 20, 30, 41])).unwrap());
    assert!(!v.is_allowed(v4([10, 20, 30, 42])).unwrap());
    let v = NetworkSourceVerifier::new(vec!["2001:db8::/127".to_string()]);
    assert!(v.is_allowed(v6([0x2001, 0xdb8, 0, 0, 0, 0, 0, 1])).unwrap());
    assert!(!v.is_allowed(v6([0x2001, 0xdb8, 0, 0, 0, 0, 0, 2])).unwrap());
}

#[test]
fn a_prefix_length_is_a_small_number() {
    for text in ["10.0.0.0/", "10.0.0.0/-1", "10.0.0.0/256", "10.0.0.0/8/8", "10.0.0.0/ 8"] {
        let v = NetworkSourceVerifier::new(vec![text.to_string()]);
        assert!(!v.is_allowed(v4([10, 0, 0, 1])).unwrap(), "{text}");
    }
    let v = NetworkSourceVerifier::new(vec!["10.0.0.0/+8".to_string()]);
    assert!(v.is_allowed(v4([10, 0, 0, 1])).unwrap());
    let v = NetworkSourceVerifier::new(vec!["10.0.0.0/008".to_string()]);
    assert!(v.is_allowed(v4([10, 0, 0, 1])).unwrap());
}
