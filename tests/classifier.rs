use rfw::classifier::{classify, parse_ipv4, Verdict};
use rfw::config::{
    RULE_BLOCK_ALL, RULE_BLOCK_EMAIL, RULE_BLOCK_FET_LOOSE, RULE_BLOCK_FET_STRICT, RULE_BLOCK_HTTP,
    RULE_BLOCK_QUIC, RULE_BLOCK_SOCKS5, RULE_BLOCK_WIREGUARD, RULE_GEOIP_ENABLED,
    RULE_GEOIP_WHITELIST,
};
use rfw::lpm::PrefixTable;

const RANDOM: [u8; 32] = [
    0xa3, 0xf7, 0x46, 0x0e, 0x4f, 0x0d, 0xbd, 0xd9, 0x62, 0x1e, 0x2b, 0x6f, 0x00, 0xf7, 0xdf, 0x0b,
    0xef, 0x52, 0x36, 0x91, 0x5e, 0x77, 0x84, 0x24, 0xa1, 0xa1, 0xba, 0xda, 0x6d, 0x63, 0x38, 0xae,
];

fn ipv4_frame(src: [u8; 4], proto: u8, l4: &[u8]) -> Vec<u8> {
    let mut f = vec![0x02, 0, 0, 0, 0, 1, 0x02, 0, 0, 0, 0, 2, 0x08, 0x00];
    let total = (20 + l4.len()) as u16;
    f.extend_from_slice(&[0x45, 0, (total >> 8) as u8, total as u8, 0, 0, 0x40, 0, 64, proto, 0, 0]);
    f.extend_from_slice(&src);
    f.extend_from_slice(&[10, 0, 0, 1]);
    f.extend_from_slice(l4);
    f
}

fn tcp_frame(src: [u8; 4], dport: u16, payload: &[u8]) -> Vec<u8> {
    let mut seg = vec![0xc3, 0x50, (dport >> 8) as u8, dport as u8, 0, 0, 0, 1, 0, 0, 0, 0, 0x50, 0x18,
        0xff, 0xff, 0, 0, 0, 0];
    seg.extend_from_slice(payload);
    ipv4_frame(src, 6, &seg)
}

fn udp_frame(src: [u8; 4], dport: u16, payload: &[u8]) -> Vec<u8> {
    let len = (8 + payload.len()) as u16;
    let mut seg = vec![0xc3, 0x50, (dport >> 8) as u8, dport as u8, (len >> 8) as u8, len as u8, 0, 0];
    seg.extend_from_slice(payload);
    ipv4_frame(src, 17, &seg)
}

fn table_of(cidrs: &[&str]) -> PrefixTable {
    let mut t = PrefixTable::new();
    let batch: Vec<String> = cidrs.iter().map(|s| s.to_string()).collect();
    let r = t.load_prefixes(&batch);
    assert_eq!(r.loaded, cidrs.len());
    t
}

#[test]
fn http_dropped_everywhere() {
    let t = PrefixTable::new();
    let f = tcp_frame([8, 8, 8, 8], 80, b"GET / HTTP/1.1\r\n");
    assert_eq!(classify(&f, RULE_BLOCK_HTTP, &t), Verdict::Drop);
    assert_eq!(classify(&f, 0, &t), Verdict::Pass);
}

#[test]
fn email_submission_ports() {
    let t = PrefixTable::new();
    assert_eq!(classify(&tcp_frame([8, 8, 8, 8], 25, b""), RULE_BLOCK_EMAIL, &t), Verdict::Drop);
    assert_eq!(classify(&tcp_frame([8, 8, 8, 8], 110, b""), RULE_BLOCK_EMAIL, &t), Verdict::Pass);
    assert_eq!(classify(&tcp_frame([8, 8, 8, 8], 587, b""), RULE_BLOCK_EMAIL, &t), Verdict::Drop);
    assert_eq!(classify(&tcp_frame([8, 8, 8, 8], 993, b""), RULE_BLOCK_EMAIL, &t), Verdict::Pass);
}

#[test]
fn geo_gated_http() {
    let t = table_of(&["1.0.1.0/24"]);
    let cfg = RULE_GEOIP_ENABLED | RULE_BLOCK_HTTP;
    let inside = tcp_frame([1, 0, 1, 42], 80, b"GET / HTTP/1.1\r\n");
    let outside = tcp_frame([1, 0, 2, 1], 80, b"GET / HTTP/1.1\r\n");
    assert_eq!(classify(&inside, cfg, &t), Verdict::Drop);
    assert_eq!(classify(&outside, cfg, &t), Verdict::Pass);
}

#[test]
fn whitelist_drops_outsiders() {
    let t = table_of(&["203.0.113.0/24"]);
    let cfg = RULE_GEOIP_ENABLED | RULE_GEOIP_WHITELIST;
    assert_eq!(classify(&tcp_frame([198, 51, 100, 5], 443, b""), cfg, &t), Verdict::Drop);
    assert_eq!(classify(&tcp_frame([203, 0, 113, 7], 443, b""), cfg, &t), Verdict::Pass);
}

#[test]
fn whitelist_is_blacklist_complement() {
    let t = table_of(&["203.0.113.0/24"]);
    let white = RULE_GEOIP_ENABLED | RULE_GEOIP_WHITELIST;
    let black = RULE_GEOIP_ENABLED | RULE_BLOCK_ALL;
    for src in [[198, 51, 100, 5], [203, 0, 113, 7], [203, 0, 114, 7]] {
        for f in [tcp_frame(src, 22, b"SSH-2.0"), udp_frame(src, 53, &[1, 2, 3]), ipv4_frame(src, 1, &[8, 0])] {
            let w = classify(&f, white, &t);
            let b = classify(&f, black, &t);
            assert_eq!(w == Verdict::Drop, b == Verdict::Pass);
        }
    }
}

#[test]
fn wireguard_types_dropped() {
    let t = PrefixTable::new();
    let wg = udp_frame([8, 8, 8, 8], 51820, &[1, 0, 0, 0, 7, 7, 7, 7]);
    let other = udp_frame([8, 8, 8, 8], 51820, &[5, 0, 0, 0, 7, 7, 7, 7]);
    assert_eq!(classify(&wg, RULE_BLOCK_WIREGUARD, &t), Verdict::Drop);
    assert_eq!(classify(&other, RULE_BLOCK_WIREGUARD, &t), Verdict::Pass);
}

#[test]
fn fet_strict_drops_random() {
    let t = PrefixTable::new();
    let random = tcp_frame([8, 8, 8, 8], 443, &RANDOM);
    let mut http = b"GET / HTTP/1.1\r\nHost: example\r\n".to_vec();
    http.truncate(32);
    let get = tcp_frame([8, 8, 8, 8], 443, &http);
    assert_eq!(classify(&random, RULE_BLOCK_FET_STRICT, &t), Verdict::Drop);
    assert_eq!(classify(&get, RULE_BLOCK_FET_STRICT, &t), Verdict::Pass);
}

#[test]
fn fet_modes_differ_on_short_windows() {
    let t = PrefixTable::new();
    let short = tcp_frame([8, 8, 8, 8], 443, &RANDOM[..4]);
    assert_eq!(classify(&short, RULE_BLOCK_FET_STRICT, &t), Verdict::Drop);
    assert_eq!(classify(&short, RULE_BLOCK_FET_LOOSE, &t), Verdict::Pass);
    let random = tcp_frame([8, 8, 8, 8], 443, &RANDOM);
    assert_eq!(classify(&random, RULE_BLOCK_FET_LOOSE, &t), Verdict::Drop);
    let empty = tcp_frame([8, 8, 8, 8], 443, b"");
    assert_eq!(classify(&empty, RULE_BLOCK_FET_STRICT, &t), Verdict::Pass);
}

#[test]
fn socks5_greeting_dropped() {
    let t = PrefixTable::new();
    assert_eq!(classify(&tcp_frame([8, 8, 8, 8], 1080, &[5, 2, 0, 2]), RULE_BLOCK_SOCKS5, &t), Verdict::Drop);
    assert_eq!(classify(&tcp_frame([8, 8, 8, 8], 1080, &[5, 2, 0]), RULE_BLOCK_SOCKS5, &t), Verdict::Pass);
}

#[test]
fn block_all_from_prefix() {
    let t = table_of(&["1.0.0.0/8"]);
    let cfg = RULE_BLOCK_ALL | RULE_GEOIP_ENABLED;
    for f in [tcp_frame([1, 2, 3, 4], 80, b""), udp_frame([1, 2, 3, 4], 53, b""), ipv4_frame([1, 2, 3, 4], 1, &[8, 0])] {
        assert_eq!(classify(&f, cfg, &t), Verdict::Drop);
    }
    assert_eq!(classify(&tcp_frame([9, 9, 9, 9], 80, b""), cfg, &t), Verdict::Pass);
}

#[test]
fn quic_long_header_dropped() {
    let t = PrefixTable::new();
    let initial = udp_frame([8, 8, 8, 8], 443, &[0xc0, 0, 0, 0, 1, 8, 1, 2]);
    let short = udp_frame([8, 8, 8, 8], 443, &[0x40, 0, 0, 0, 1, 8, 1, 2]);
    assert_eq!(classify(&initial, RULE_BLOCK_QUIC, &t), Verdict::Drop);
    assert_eq!(classify(&short, RULE_BLOCK_QUIC, &t), Verdict::Pass);
}

#[test]
fn rule_off_keeps_other_verdicts() {
    let t = PrefixTable::new();
    let http = tcp_frame([8, 8, 8, 8], 25, b"GET / HTTP/1.1\r\n");
    let all = RULE_BLOCK_HTTP | RULE_BLOCK_EMAIL;
    assert_eq!(classify(&http, all, &t), Verdict::Drop);
    assert_eq!(classify(&http, all & !RULE_BLOCK_HTTP, &t), Verdict::Drop);
    let web = tcp_frame([8, 8, 8, 8], 80, b"GET / HTTP/1.1\r\n");
    assert_eq!(classify(&web, all & !RULE_BLOCK_EMAIL, &t), classify(&web, all, &t));
}

#[test]
fn non_ipv4_and_malformed_pass() {
    let t = PrefixTable::new();
    let mut ipv6 = tcp_frame([1, 2, 3, 4], 80, b"GET / HTTP/1.1\r\n");
    ipv6[12] = 0x86;
    ipv6[13] = 0xdd;
    assert_eq!(classify(&ipv6, RULE_BLOCK_ALL, &t), Verdict::Pass);
    let full = tcp_frame([1, 2, 3, 4], 80, b"GET / HTTP/1.1\r\n");
    assert_eq!(classify(&full[..30], RULE_BLOCK_ALL, &t), Verdict::Pass);
    let mut bad_ihl = full.clone();
    bad_ihl[14] = 0x44;
    assert_eq!(classify(&bad_ihl, RULE_BLOCK_ALL, &t), Verdict::Pass);
    let mut long_total = full.clone();
    long_total[16] = 0x40;
    assert_eq!(classify(&long_total, RULE_BLOCK_ALL, &t), Verdict::Pass);
    let mut bad_doff = full.clone();
    bad_doff[14 + 20 + 12] = 0x40;
    assert_eq!(classify(&bad_doff, RULE_BLOCK_HTTP, &t), Verdict::Pass);
    assert_eq!(classify(&[], RULE_BLOCK_ALL, &t), Verdict::Pass);
}

#[test]
fn header_fields_read() {
    let f = udp_frame([198, 51, 100, 5], 53, &[1, 2]);
    let h = parse_ipv4(&f).unwrap();
    assert_eq!(h.src, 0xc633_6405);
    assert_eq!(h.proto, 17);
    assert_eq!(h.l4, 34);
    assert_eq!(h.end, f.len());
}
