//! Recognizers over the first bytes of a transport payload.
use vstd::prelude::*;

verus! {

/// Longest DPI window, in bytes.
pub const DPI_WINDOW: usize = 32;

/// The first `min(len, 32)` bytes of a payload.
pub open spec fn window_of(p: Seq<u8>) -> Seq<u8> {
    if p.len() <= DPI_WINDOW { p } else { p.subrange(0, DPI_WINDOW as int) }
}

pub open spec fn starts4(p: Seq<u8>, a: u8, b: u8, c: u8, d: u8) -> bool {
    p.len() >= 4 && p[0] == a && p[1] == b && p[2] == c && p[3] == d
}

/// The payload starts with one of the HTTP request-line prefixes `GET `,
/// `POST`, `HEAD`, `PUT `, `DELE`, `OPTI`, `PATC`, `CONN`, `TRAC`.
pub open spec fn http_request_spec(p: Seq<u8>) -> bool {
    ||| starts4(p, 0x47, 0x45, 0x54, 0x20)
    ||| starts4(p, 0x50, 0x4f, 0x53, 0x54)
    ||| starts4(p, 0x48, 0x45, 0x41, 0x44)
    ||| starts4(p, 0x50, 0x55, 0x54, 0x20)
    ||| starts4(p, 0x44, 0x45, 0x4c, 0x45)
    ||| starts4(p, 0x4f, 0x50, 0x54, 0x49)
    ||| starts4(p, 0x50, 0x41, 0x54, 0x43)
    ||| starts4(p, 0x43, 0x4f, 0x4e, 0x4e)
    ||| starts4(p, 0x54, 0x52, 0x41, 0x43)
}

/// A SOCKS5 client greeting: version 5, `n >= 1` methods, and at least
/// `n + 2` bytes in the segment.
pub open spec fn socks5_greeting_spec(p: Seq<u8>) -> bool {
    p.len() >= 2 && p[0] == 5 && p[1] >= 1 && p.len() >= p[1] + 2
}

/// WireGuard framing: a message type of 1 to 4, then three zero bytes.
pub open spec fn wireguard_spec(p: Seq<u8>) -> bool {
    p.len() >= 4 && 1 <= p[0] <= 4 && p[1] == 0 && p[2] == 0 && p[3] == 0
}

/// A QUIC long header of version 1, version 2 or a Google QUIC tag `Q0dd`.
pub open spec fn quic_long_header_spec(p: Seq<u8>) -> bool {
    &&& p.len() >= 5
    &&& p[0] >= 0x80
    &&& {
        ||| (p[1] == 0 && p[2] == 0 && p[3] == 0 && p[4] == 1)
        ||| (p[1] == 0x6b && p[2] == 0x33 && p[3] == 0x43 && p[4] == 0xcf)
        ||| (p[1] == 0x51 && p[2] == 0x30 && 0x30 <= p[3] <= 0x39 && 0x30 <= p[4] <= 0x39)
    }
}

/// The SMTP submission ports: 25, 465, 587 and 2525.
pub open spec fn smtp_port_spec(port: u16) -> bool {
    port == 25 || port == 465 || port == 587 || port == 2525
}

/// Whether `port` is an SMTP submission port; the mail-reading ports
/// (110, 143, 993, 995) are not.
pub fn is_smtp_port(port: u16) -> (r: bool)
    ensures
        r == smtp_port_spec(port),
{
    port == 25 || port == 465 || port == 587 || port == 2525
}

pub(crate) fn http_at(s: &[u8], start: usize, end: usize) -> (r: bool)
    requires
        start <= end <= s@.len(),
    ensures
        r == http_request_spec(s@.subrange(start as int, end as int)),
{
    if end - start < 4 {
        return false;
    }
    let (a, b, c, d) = (s[start], s[start + 1], s[start + 2], s[start + 3]);
    (a == 0x47 && b == 0x45 && c == 0x54 && d == 0x20) || (a == 0x50 && b == 0x4f && c == 0x53
        && d == 0x54) || (a == 0x48 && b == 0x45 && c == 0x41 && d == 0x44) || (a == 0x50 && b
        == 0x55 && c == 0x54 && d == 0x20) || (a == 0x44 && b == 0x45 && c == 0x4c && d == 0x45)
        || (a == 0x4f && b == 0x50 && c == 0x54 && d == 0x49) || (a == 0x50 && b == 0x41 && c
        == 0x54 && d == 0x43) || (a == 0x43 && b == 0x4f && c == 0x4e && d == 0x4e) || (a == 0x54
        && b == 0x52 && c == 0x41 && d == 0x43)
}

pub(crate) fn socks5_at(s: &[u8], start: usize, end: usize) -> (r: bool)
    requires
        start <= end <= s@.len(),
    ensures
        r == socks5_greeting_spec(s@.subrange(start as int, end as int)),
{
    if end - start < 2 {
        return false;
    }
    s[start] == 5 && s[start + 1] >= 1 && end - start >= s[start + 1] as usize + 2
}

pub(crate) fn wireguard_at(s: &[u8], start: usize, end: usize) -> (r: bool)
    requires
        start <= end <= s@.len(),
    ensures
        r == wireguard_spec(s@.subrange(start as int, end as int)),
{
    if end - start < 4 {
        return false;
    }
    1 <= s[start] && s[start] <= 4 && s[start + 1] == 0 && s[start + 2] == 0 && s[start + 3] == 0
}

pub(crate) fn quic_at(s: &[u8], start: usize, end: usize) -> (r: bool)
    requires
        start <= end <= s@.len(),
    ensures
        r == quic_long_header_spec(s@.subrange(start as int, end as int)),
{
    if end - start < 5 {
        return false;
    }
    if s[start] < 0x80 {
        return false;
    }
    let (a, b, c, d) = (s[start + 1], s[start + 2], s[start + 3], s[start + 4]);
    (a == 0 && b == 0 && c == 0 && d == 1) || (a == 0x6b && b == 0x33 && c == 0x43 && d == 0xcf)
        || (a == 0x51 && b == 0x30 && 0x30 <= c && c <= 0x39 && 0x30 <= d && d <= 0x39)
}

/// Whether the payload starts with an HTTP request line.
pub fn is_http_request(payload: &[u8]) -> (r: bool)
    ensures
        r == http_request_spec(payload@),
{
    proof { assert(payload@.subrange(0, payload@.len() as int) =~= payload@); }
    http_at(payload, 0, payload.len())
}

/// Whether the payload is a SOCKS5 client greeting.
pub fn is_socks5_greeting(payload: &[u8]) -> (r: bool)
    ensures
        r == socks5_greeting_spec(payload@),
{
    proof { assert(payload@.subrange(0, payload@.len() as int) =~= payload@); }
    socks5_at(payload, 0, payload.len())
}

/// Whether the payload has WireGuard framing.
pub fn is_wireguard(payload: &[u8]) -> (r: bool)
    ensures
        r == wireguard_spec(payload@),
{
    proof { assert(payload@.subrange(0, payload@.len() as int) =~= payload@); }
    wireguard_at(payload, 0, payload.len())
}

/// Whether the payload opens with a QUIC long header of a known version.
pub fn is_quic_long_header(payload: &[u8]) -> (r: bool)
    ensures
        r == quic_long_header_spec(payload@),
{
    proof { assert(payload@.subrange(0, payload@.len() as int) =~= payload@); }
    quic_at(payload, 0, payload.len())
}

} // verus!
