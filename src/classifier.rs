//! Classification of received frames: Ethernet and IPv4 headers, the prefix
//! set gate and the protocol rules. A frame that cannot be read is passed.
use vstd::prelude::*;
use crate::cidr::octets_value;
use crate::config::{
    config_has, has_flag, RULE_BLOCK_ALL, RULE_BLOCK_EMAIL, RULE_BLOCK_FET_LOOSE,
    RULE_BLOCK_FET_STRICT, RULE_BLOCK_HTTP, RULE_BLOCK_QUIC, RULE_BLOCK_SOCKS5,
    RULE_BLOCK_WIREGUARD, RULE_GEOIP_ENABLED, RULE_GEOIP_WHITELIST,
};
use crate::dpi::{
    http_at, http_request_spec, is_smtp_port, quic_at, quic_long_header_spec, smtp_port_spec,
    socks5_at, socks5_greeting_spec, wireguard_at, wireguard_spec,
};
use crate::fet::{classify_payload_at, fet_payload_class, FetClass};
use crate::lpm::{covers, PrefixTable};

verus! {

/// Length of an Ethernet header.
pub const ETH_HEADER_LEN: usize = 14;
/// IP protocol number of TCP.
pub const PROTO_TCP: u8 = 6;
/// IP protocol number of UDP.
pub const PROTO_UDP: u8 = 17;

/// What happens to a frame.
#[derive(PartialEq, Eq, Structural, Clone, Copy, Debug)]
pub enum Verdict {
    /// Hand the frame to the network stack.
    Pass,
    /// Discard the frame.
    Drop,
}

/// The fields of an IPv4 header that the rules read, with the frame offsets
/// of the transport header (`l4`) and of the end of the datagram (`end`).
#[derive(PartialEq, Eq, Structural, Clone, Copy, Debug)]
pub struct Ipv4Header {
    pub src: u32,
    pub proto: u8,
    pub l4: usize,
    pub end: usize,
}

/// The IPv4 header of an Ethernet frame: EtherType 0x0800, version 4, a
/// header length of at least 20 bytes, within a total length that fits the
/// frame. `None` for any other frame.
pub open spec fn ipv4_header_spec(f: Seq<u8>) -> Option<Ipv4Header> {
    if f.len() >= 34 && f[12] == 0x08 && f[13] == 0x00 && f[14] / 16 == 4 && f[14] % 16 >= 5 {
        let hlen = (f[14] % 16) * 4;
        let total = f[16] * 256 + f[17];
        if hlen <= total && 14 + total <= f.len() {
            Some(
                Ipv4Header {
                    src: octets_value(f[26] as nat, f[27] as nat, f[28] as nat, f[29] as nat),
                    proto: f[23],
                    l4: (14 + hlen) as usize,
                    end: (14 + total) as usize,
                },
            )
        } else {
            None
        }
    } else {
        None
    }
}

/// The destination port and payload range of a TCP segment.
pub open spec fn tcp_segment_spec(f: Seq<u8>, h: Ipv4Header) -> Option<(u16, usize, usize)> {
    if h.proto == PROTO_TCP && h.l4 + 20 <= h.end {
        let hlen = (f[h.l4 + 12] / 16) * 4;
        if hlen >= 20 && h.l4 + hlen <= h.end {
            Some(((f[h.l4 + 2] * 256 + f[h.l4 + 3]) as u16, (h.l4 + hlen) as usize, h.end))
        } else {
            None
        }
    } else {
        None
    }
}

/// The payload range of a UDP datagram.
pub open spec fn udp_payload_spec(h: Ipv4Header) -> Option<(usize, usize)> {
    if h.proto == PROTO_UDP && h.l4 + 8 <= h.end {
        Some(((h.l4 + 8) as usize, h.end))
    } else {
        None
    }
}

/// The destination port and payload of a frame carrying TCP.
pub open spec fn tcp_view(f: Seq<u8>) -> Option<(u16, Seq<u8>)> {
    match ipv4_header_spec(f) {
        Some(h) => match tcp_segment_spec(f, h) {
            Some((port, a, b)) => Some((port, f.subrange(a as int, b as int))),
            None => None,
        },
        None => None,
    }
}

/// The payload of a frame carrying UDP.
pub open spec fn udp_view(f: Seq<u8>) -> Option<Seq<u8>> {
    match ipv4_header_spec(f) {
        Some(h) => match udp_payload_spec(h) {
            Some((a, b)) => Some(f.subrange(a as int, b as int)),
            None => None,
        },
        None => None,
    }
}

/// The protocol rules, each one flag of the configuration word.
pub open spec fn is_dpi_rule(rule: u32) -> bool {
    rule == RULE_BLOCK_EMAIL || rule == RULE_BLOCK_HTTP || rule == RULE_BLOCK_SOCKS5 || rule
        == RULE_BLOCK_FET_STRICT || rule == RULE_BLOCK_FET_LOOSE || rule == RULE_BLOCK_WIREGUARD
        || rule == RULE_BLOCK_QUIC
}

/// Whether the recognizer of a protocol rule fires on a frame.
pub open spec fn rule_matches(f: Seq<u8>, rule: u32) -> bool {
    if rule == RULE_BLOCK_EMAIL {
        tcp_view(f) matches Some((port, _)) && smtp_port_spec(port)
    } else if rule == RULE_BLOCK_HTTP {
        tcp_view(f) matches Some((_, p)) && http_request_spec(p)
    } else if rule == RULE_BLOCK_SOCKS5 {
        tcp_view(f) matches Some((_, p)) && socks5_greeting_spec(p)
    } else if rule == RULE_BLOCK_FET_STRICT {
        tcp_view(f) matches Some((_, p)) && p.len() > 0 && fet_payload_class(p) != FetClass::Exempt
    } else if rule == RULE_BLOCK_FET_LOOSE {
        tcp_view(f) matches Some((_, p)) && p.len() > 0 && fet_payload_class(p) == FetClass::Random
    } else if rule == RULE_BLOCK_WIREGUARD {
        udp_view(f) matches Some(p) && wireguard_spec(p)
    } else if rule == RULE_BLOCK_QUIC {
        udp_view(f) matches Some(p) && quic_long_header_spec(p)
    } else {
        false
    }
}

pub open spec fn rule_drops(f: Seq<u8>, config: u32, rule: u32) -> bool {
    has_flag(config, rule) && rule_matches(f, rule)
}

/// Whether an enabled protocol rule fires on a frame.
pub open spec fn dpi_drops(f: Seq<u8>, config: u32) -> bool {
    ||| rule_drops(f, config, RULE_BLOCK_EMAIL)
    ||| rule_drops(f, config, RULE_BLOCK_HTTP)
    ||| rule_drops(f, config, RULE_BLOCK_SOCKS5)
    ||| rule_drops(f, config, RULE_BLOCK_FET_STRICT)
    ||| rule_drops(f, config, RULE_BLOCK_FET_LOOSE)
    ||| rule_drops(f, config, RULE_BLOCK_WIREGUARD)
    ||| rule_drops(f, config, RULE_BLOCK_QUIC)
}

/// The verdict on a frame. Frames without a well-formed IPv4 header pass.
/// With the prefix table enabled, whitelist mode drops exactly the sources
/// outside the set; blacklist mode passes sources outside the set and
/// applies the rules to the others. Without it the rules apply to every
/// source. `BLOCK_ALL` drops before any protocol rule.
pub open spec fn verdict_spec(f: Seq<u8>, config: u32, prefixes: Set<(u32, u32)>) -> Verdict {
    match ipv4_header_spec(f) {
        None => Verdict::Pass,
        Some(h) => {
            let hit = covers(prefixes, h.src);
            if has_flag(config, RULE_GEOIP_ENABLED) && has_flag(config, RULE_GEOIP_WHITELIST) {
                if hit {
                    Verdict::Pass
                } else {
                    Verdict::Drop
                }
            } else if has_flag(config, RULE_GEOIP_ENABLED) && !hit {
                Verdict::Pass
            } else if has_flag(config, RULE_BLOCK_ALL) {
                Verdict::Drop
            } else if dpi_drops(f, config) {
                Verdict::Drop
            } else {
                Verdict::Pass
            }
        },
    }
}

/// Reads the IPv4 header of an Ethernet frame.
pub fn parse_ipv4(f: &[u8]) -> (r: Option<Ipv4Header>)
    ensures
        r == ipv4_header_spec(f@),
{
    if f.len() < 34 || f[12] != 0x08 || f[13] != 0x00 || f[14] / 16 != 4 || f[14] % 16 < 5 {
        return None;
    }
    let hlen = ((f[14] % 16) as usize) * 4;
    let total = (f[16] as usize) * 256 + f[17] as usize;
    if hlen > total || 14 + total > f.len() {
        return None;
    }
    let src: u32 = (f[26] as u32) * 16777216 + (f[27] as u32) * 65536 + (f[28] as u32) * 256
        + f[29] as u32;
    Some(Ipv4Header { src, proto: f[23], l4: 14 + hlen, end: 14 + total })
}

fn tcp_segment(f: &[u8], h: Ipv4Header) -> (r: Option<(u16, usize, usize)>)
    requires
        ipv4_header_spec(f@) == Some(h),
    ensures
        r == tcp_segment_spec(f@, h),
        r matches Some((_, a, b)) ==> a <= b <= f@.len(),
{
    if h.proto != PROTO_TCP || h.l4 + 20 > h.end {
        return None;
    }
    let hlen = ((f[h.l4 + 12] / 16) as usize) * 4;
    if hlen < 20 || h.l4 + hlen > h.end {
        return None;
    }
    let port = ((f[h.l4 + 2] as u32) * 256 + f[h.l4 + 3] as u32) as u16;
    Some((port, h.l4 + hlen, h.end))
}

/// The verdict on one Ethernet frame under a configuration word and a
/// prefix table.
pub fn classify(frame: &[u8], config: u32, table: &PrefixTable) -> (r: Verdict)
    requires
        table.wf(),
    ensures
        r == verdict_spec(frame@, config, table@),
{
    let f = frame;
    let h = match parse_ipv4(f) {
        None => return Verdict::Pass,
        Some(h) => h,
    };
    let enabled = config_has(config, RULE_GEOIP_ENABLED);
    if enabled {
        let hit = table.contains_addr(h.src);
        if config_has(config, RULE_GEOIP_WHITELIST) {
            return if hit {
                Verdict::Pass
            } else {
                Verdict::Drop
            };
        }
        if !hit {
            return Verdict::Pass;
        }
    }
    if config_has(config, RULE_BLOCK_ALL) {
        return Verdict::Drop;
    }
    let ghost fs = f@;
    if h.proto == PROTO_TCP {
        match tcp_segment(f, h) {
            None => {
                assert(tcp_view(fs) is None && udp_view(fs) is None);
                Verdict::Pass
            },
            Some((port, a, b)) => {
                assert(udp_view(fs) is None);
                assert(tcp_view(fs) == Some((port, fs.subrange(a as int, b as int))));
                let drop = (config_has(config, RULE_BLOCK_EMAIL) && is_smtp_port(port)) || (
                config_has(config, RULE_BLOCK_HTTP) && http_at(f, a, b)) || (config_has(
                    config,
                    RULE_BLOCK_SOCKS5,
                ) && socks5_at(f, a, b)) || (config_has(config, RULE_BLOCK_FET_STRICT) && a < b
                    && classify_payload_at(f, a, b) != FetClass::Exempt) || (config_has(
                    config,
                    RULE_BLOCK_FET_LOOSE,
                ) && a < b && classify_payload_at(f, a, b) == FetClass::Random);
                if drop {
                    Verdict::Drop
                } else {
                    Verdict::Pass
                }
            },
        }
    } else if h.proto == PROTO_UDP && h.l4 + 8 <= h.end {
        let a = h.l4 + 8;
        let b = h.end;
        assert(tcp_view(fs) is None);
        assert(udp_view(fs) == Some(fs.subrange(a as int, b as int)));
        let drop = (config_has(config, RULE_BLOCK_WIREGUARD) && wireguard_at(f, a, b)) || (
        config_has(config, RULE_BLOCK_QUIC) && quic_at(f, a, b));
        if drop {
            Verdict::Drop
        } else {
            Verdict::Pass
        }
    } else {
        assert(tcp_view(fs) is None && udp_view(fs) is None);
        Verdict::Pass
    }
}

/// Whitelist and blacklist are complements: with the prefix table enabled and
/// the same prefix set, an IPv4 frame is dropped in whitelist mode exactly
/// when it passes in blacklist mode (where matched sources are dropped).
pub proof fn lemma_whitelist_complement(f: Seq<u8>, config: u32, prefixes: Set<(u32, u32)>)
    requires
        ipv4_header_spec(f) is Some,
        has_flag(config, RULE_GEOIP_ENABLED),
    ensures
        verdict_spec(f, config | RULE_GEOIP_WHITELIST, prefixes) == Verdict::Drop
            <==> verdict_spec(f, (config & !RULE_GEOIP_WHITELIST) | RULE_BLOCK_ALL, prefixes)
            == Verdict::Pass,
{
    let w = config | RULE_GEOIP_WHITELIST;
    let b = (config & !RULE_GEOIP_WHITELIST) | RULE_BLOCK_ALL;
    assert(w & 1 != 0 && w & 2 != 0 && b & 1 != 0 && b & 2 == 0 && b & 0x200 != 0) by (bit_vector)
        requires
            config & 1 != 0,
            w == config | 2,
            b == (config & !2u32) | 0x200,
    ;
}

proof fn lemma_clear_rule(c: u32, r: u32)
    requires
        is_dpi_rule(r),
    ensures
        !has_flag(c & !r, r),
        forall|b: u32|
            (b == RULE_GEOIP_ENABLED || b == RULE_GEOIP_WHITELIST || b == RULE_BLOCK_ALL
                || is_dpi_rule(b)) && b != r ==> #[trigger] has_flag(c & !r, b) == has_flag(c, b),
{
    let d = c & !r;
    if r == 4 {
        assert(d & 4 == 0 && (d & 1 != 0 <==> c & 1 != 0) && (d & 2 != 0 <==> c & 2 != 0) && (d
            & 8 != 0 <==> c & 8 != 0) && (d & 0x10 != 0 <==> c & 0x10 != 0) && (d & 0x20 != 0
            <==> c & 0x20 != 0) && (d & 0x40 != 0 <==> c & 0x40 != 0) && (d & 0x80 != 0 <==> c
            & 0x80 != 0) && (d & 0x100 != 0 <==> c & 0x100 != 0) && (d & 0x200 != 0 <==> c & 0x200
            != 0)) by (bit_vector)
            requires
                d == c & !4u32,
        ;
    } else if r == 8 {
        assert(d & 8 == 0 && (d & 1 != 0 <==> c & 1 != 0) && (d & 2 != 0 <==> c & 2 != 0) && (d
            & 4 != 0 <==> c & 4 != 0) && (d & 0x10 != 0 <==> c & 0x10 != 0) && (d & 0x20 != 0
            <==> c & 0x20 != 0) && (d & 0x40 != 0 <==> c & 0x40 != 0) && (d & 0x80 != 0 <==> c
            & 0x80 != 0) && (d & 0x100 != 0 <==> c & 0x100 != 0) && (d & 0x200 != 0 <==> c & 0x200
            != 0)) by (bit_vector)
            requires
                d == c & !8u32,
        ;
    } else if r == 0x10 {
        assert(d & 0x10 == 0 && (d & 1 != 0 <==> c & 1 != 0) && (d & 2 != 0 <==> c & 2 != 0) && (d
            & 4 != 0 <==> c & 4 != 0) && (d & 8 != 0 <==> c & 8 != 0) && (d & 0x20 != 0
            <==> c & 0x20 != 0) && (d & 0x40 != 0 <==> c & 0x40 != 0) && (d & 0x80 != 0 <==> c
            & 0x80 != 0) && (d & 0x100 != 0 <==> c & 0x100 != 0) && (d & 0x200 != 0 <==> c & 0x200
            != 0)) by (bit_vector)
            requires
                d == c & !0x10u32,
        ;
    } else if r == 0x20 {
        assert(d & 0x20 == 0 && (d & 1 != 0 <==> c & 1 != 0) && (d & 2 != 0 <==> c & 2 != 0) && (d
            & 4 != 0 <==> c & 4 != 0) && (d & 8 != 0 <==> c & 8 != 0) && (d & 0x10 != 0
            <==> c & 0x10 != 0) && (d & 0x40 != 0 <==> c & 0x40 != 0) && (d & 0x80 != 0 <==> c
            & 0x80 != 0) && (d & 0x100 != 0 <==> c & 0x100 != 0) && (d & 0x200 != 0 <==> c & 0x200
            != 0)) by (bit_vector)
            requires
                d == c & !0x20u32,
        ;
    } else if r == 0x40 {
        assert(d & 0x40 == 0 && (d & 1 != 0 <==> c & 1 != 0) && (d & 2 != 0 <==> c & 2 != 0) && (d
            & 4 != 0 <==> c & 4 != 0) && (d & 8 != 0 <==> c & 8 != 0) && (d & 0x10 != 0
            <==> c & 0x10 != 0) && (d & 0x20 != 0 <==> c & 0x20 != 0) && (d & 0x80 != 0 <==> c
            & 0x80 != 0) && (d & 0x100 != 0 <==> c & 0x100 != 0) && (d & 0x200 != 0 <==> c & 0x200
            != 0)) by (bit_vector)
            requires
                d == c & !0x40u32,
        ;
    } else if r == 0x80 {
        assert(d & 0x80 == 0 && (d & 1 != 0 <==> c & 1 != 0) && (d & 2 != 0 <==> c & 2 != 0) && (d
            & 4 != 0 <==> c & 4 != 0) && (d & 8 != 0 <==> c & 8 != 0) && (d & 0x10 != 0
            <==> c & 0x10 != 0) && (d & 0x20 != 0 <==> c & 0x20 != 0) && (d & 0x40 != 0 <==> c
            & 0x40 != 0) && (d & 0x100 != 0 <==> c & 0x100 != 0) && (d & 0x200 != 0 <==> c & 0x200
            != 0)) by (bit_vector)
            requires
                d == c & !0x80u32,
        ;
    } else {
        assert(d & 0x100 == 0 && (d & 1 != 0 <==> c & 1 != 0) && (d & 2 != 0 <==> c & 2 != 0) && (d
            & 4 != 0 <==> c & 4 != 0) && (d & 8 != 0 <==> c & 8 != 0) && (d & 0x10 != 0
            <==> c & 0x10 != 0) && (d & 0x20 != 0 <==> c & 0x20 != 0) && (d & 0x40 != 0 <==> c
            & 0x40 != 0) && (d & 0x80 != 0 <==> c & 0x80 != 0) && (d & 0x200 != 0 <==> c & 0x200
            != 0)) by (bit_vector)
            requires
                d == c & !0x100u32,
        ;
    }
}

/// Turning off a protocol rule leaves the verdict unchanged on every frame
/// that the rule's recognizer does not match.
pub proof fn lemma_rule_independence(f: Seq<u8>, config: u32, rule: u32, prefixes: Set<(u32, u32)>)
    requires
        is_dpi_rule(rule),
        !rule_matches(f, rule),
    ensures
        verdict_spec(f, config & !rule, prefixes) == verdict_spec(f, config, prefixes),
{
    lemma_clear_rule(config, rule);
    let c2 = config & !rule;
    assert(has_flag(c2, RULE_GEOIP_ENABLED) == has_flag(config, RULE_GEOIP_ENABLED));
    assert(has_flag(c2, RULE_GEOIP_WHITELIST) == has_flag(config, RULE_GEOIP_WHITELIST));
    assert(has_flag(c2, RULE_BLOCK_ALL) == has_flag(config, RULE_BLOCK_ALL));
    assert(has_flag(c2, RULE_BLOCK_EMAIL) == has_flag(config, RULE_BLOCK_EMAIL) || rule == RULE_BLOCK_EMAIL);
    assert(has_flag(c2, RULE_BLOCK_HTTP) == has_flag(config, RULE_BLOCK_HTTP) || rule == RULE_BLOCK_HTTP);
    assert(has_flag(c2, RULE_BLOCK_SOCKS5) == has_flag(config, RULE_BLOCK_SOCKS5) || rule == RULE_BLOCK_SOCKS5);
    assert(has_flag(c2, RULE_BLOCK_FET_STRICT) == has_flag(config, RULE_BLOCK_FET_STRICT) || rule == RULE_BLOCK_FET_STRICT);
    assert(has_flag(c2, RULE_BLOCK_FET_LOOSE) == has_flag(config, RULE_BLOCK_FET_LOOSE) || rule == RULE_BLOCK_FET_LOOSE);
    assert(has_flag(c2, RULE_BLOCK_WIREGUARD) == has_flag(config, RULE_BLOCK_WIREGUARD) || rule == RULE_BLOCK_WIREGUARD);
    assert(has_flag(c2, RULE_BLOCK_QUIC) == has_flag(config, RULE_BLOCK_QUIC) || rule == RULE_BLOCK_QUIC);
    assert(dpi_drops(f, c2) == dpi_drops(f, config));
}

} // verus!
