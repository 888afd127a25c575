use rfw::cidr::{parse_cidr_to_lpm, prefix_mask};

#[test]
fn parses_network_prefix() {
    assert_eq!(parse_cidr_to_lpm("1.0.1.0/24"), Some((0x0100_0100, 24)));
}

#[test]
fn clears_host_bits() {
    assert_eq!(parse_cidr_to_lpm("192.168.1.77/16"), Some((0xc0a8_0000, 16)));
    assert_eq!(parse_cidr_to_lpm("10.1.2.3/8"), Some((0x0a00_0000, 8)));
}

#[test]
fn prefix_zero_and_thirty_two() {
    assert_eq!(parse_cidr_to_lpm("8.8.8.8/0"), Some((0, 0)));
    assert_eq!(parse_cidr_to_lpm("8.8.8.8/32"), Some((0x0808_0808, 32)));
}

#[test]
fn masked_network_is_stable() {
    for text in ["203.0.113.7/24", "1.2.3.4/8", "255.255.255.255/31", "0.0.0.0/0", "9.9.9.9/17"] {
        let (net, p) = parse_cidr_to_lpm(text).unwrap();
        assert!(p <= 32);
        assert_eq!(net & prefix_mask(p), net);
    }
}

#[test]
fn rejects_malformed_text() {
    for text in [
        "", "1.2.3.4", "1.2.3/24", "1.2.3.4.5/24", "1.2.3.4/24/1", "1.2.3.256/24", "1.2.3.4/33",
        "1.2.3.-1/24", "a.b.c.d/8", "1.2.3.4/", "/24", "1..3.4/24", "1.2.3.4/2x", "1.2.3.+/8",
    ] {
        assert_eq!(parse_cidr_to_lpm(text), None, "{text}");
    }
}

#[test]
fn accepts_leading_plus_and_zeros() {
    assert_eq!(parse_cidr_to_lpm("+1.02.003.4/+024"), Some((0x0102_0300, 24)));
    assert_eq!(parse_cidr_to_lpm("1.2.3.4/00000000000000000032"), Some((0x0102_0304, 32)));
}

#[test]
fn mask_values() {
    assert_eq!(prefix_mask(0), 0);
    assert_eq!(prefix_mask(1), 0x8000_0000);
    assert_eq!(prefix_mask(24), 0xffff_ff00);
    assert_eq!(prefix_mask(32), 0xffff_ffff);
}
