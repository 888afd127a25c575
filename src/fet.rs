//! The fully-encrypted-traffic recognizer.
//!
//! Decision table over the window `w` (the first `min(len, 32)` payload bytes):
//! - `Exempt` when any exemption fires: bits per byte outside `[3.4, 4.6]`;
//!   six leading printable bytes; more than half of `w` printable; an HTTP
//!   request line; a TLS record header.
//! - otherwise `Undecided` when `w` is shorter than `FET_MIN_WINDOW` bytes;
//! - otherwise `Random`.
//!
//! Strict mode drops `Random` and `Undecided`; loose mode drops `Random` only.
use vstd::prelude::*;
use crate::dpi::{http_at, http_request_spec, window_of, DPI_WINDOW};

verus! {

/// Fewest window bytes on which the recognizer decides.
pub const FET_MIN_WINDOW: usize = 8;

/// The recognizer's classification of a window.
#[derive(PartialEq, Eq, Structural, Clone, Copy, Debug)]
pub enum FetClass {
    /// An exemption fired: not fully encrypted.
    Exempt,
    /// No exemption fired, but the window is too short to decide.
    Undecided,
    /// No exemption fired on a long enough window: fully encrypted.
    Random,
}

pub open spec fn bit_at(b: u8, k: u8) -> nat {
    ((b >> k) & 1u8) as nat
}

/// Number of set bits in a byte.
pub open spec fn byte_popcount(b: u8) -> nat {
    bit_at(b, 0) + bit_at(b, 1) + bit_at(b, 2) + bit_at(b, 3) + bit_at(b, 4) + bit_at(b, 5)
        + bit_at(b, 6) + bit_at(b, 7)
}

/// Number of set bits in a byte string.
pub open spec fn popcount(s: Seq<u8>) -> nat
    decreases s.len(),
{
    if s.len() == 0 {
        0
    } else {
        popcount(s.drop_last()) + byte_popcount(s.last())
    }
}

pub open spec fn is_printable(b: u8) -> bool {
    0x20 <= b <= 0x7e
}

/// Number of printable ASCII bytes in a byte string.
pub open spec fn printable_count(s: Seq<u8>) -> nat
    decreases s.len(),
{
    if s.len() == 0 {
        0
    } else {
        printable_count(s.drop_last()) + if is_printable(s.last()) { 1nat } else { 0nat }
    }
}

/// A TLS record header: content type 0x14 to 0x17, then version 0x0301 to 0x0304.
pub open spec fn tls_record_spec(w: Seq<u8>) -> bool {
    w.len() >= 3 && 0x14 <= w[0] <= 0x17 && w[1] == 3 && 1 <= w[2] <= 4
}

/// Bits per byte outside `[3.4, 4.6]`.
pub open spec fn popcount_exempt(w: Seq<u8>) -> bool {
    10 * popcount(w) < 34 * w.len() || 10 * popcount(w) > 46 * w.len()
}

pub open spec fn printable_prefix_exempt(w: Seq<u8>) -> bool {
    w.len() >= 6 && forall|i: int| 0 <= i < 6 ==> is_printable(#[trigger] w[i])
}

pub open spec fn printable_fraction_exempt(w: Seq<u8>) -> bool {
    2 * printable_count(w) > w.len()
}

pub open spec fn exempt_spec(w: Seq<u8>) -> bool {
    ||| popcount_exempt(w)
    ||| printable_prefix_exempt(w)
    ||| printable_fraction_exempt(w)
    ||| http_request_spec(w)
    ||| tls_record_spec(w)
}

/// The classification of a window.
pub open spec fn fet_class_of(w: Seq<u8>) -> FetClass {
    if exempt_spec(w) {
        FetClass::Exempt
    } else if w.len() < FET_MIN_WINDOW {
        FetClass::Undecided
    } else {
        FetClass::Random
    }
}

/// The classification of a payload, over its DPI window.
pub open spec fn fet_payload_class(p: Seq<u8>) -> FetClass {
    fet_class_of(window_of(p))
}

fn byte_bits(b: u8) -> (r: u32)
    ensures
        r as nat == byte_popcount(b),
        r <= 8,
{
    let mut n: u32 = 0;
    let mut k: u8 = 0;
    while k < 8
        invariant
            k <= 8,
            n <= k,
            n as nat == bit_at(b, 0) * (if k > 0 { 1nat } else { 0nat }) + bit_at(b, 1) * (if k
                > 1 { 1nat } else { 0nat }) + bit_at(b, 2) * (if k > 2 { 1nat } else { 0nat })
                + bit_at(b, 3) * (if k > 3 { 1nat } else { 0nat }) + bit_at(b, 4) * (if k > 4 {
                1nat
            } else { 0nat }) + bit_at(b, 5) * (if k > 5 { 1nat } else { 0nat }) + bit_at(b, 6) * (
            if k > 6 { 1nat } else { 0nat }) + bit_at(b, 7) * (if k > 7 { 1nat } else { 0nat }),
        decreases 8 - k,
    {
        let bit = (b >> k) & 1u8;
        assert(bit <= 1) by (bit_vector)
            requires
                bit == (b >> k) & 1u8,
        ;
        n = n + bit as u32;
        k = k + 1;
    }
    n
}

/// Classifies `s[start..end]`, a window of at most `DPI_WINDOW` bytes.
fn classify_window(s: &[u8], start: usize, end: usize) -> (r: FetClass)
    requires
        start <= end <= s@.len(),
        end - start <= DPI_WINDOW,
    ensures
        r == fet_class_of(s@.subrange(start as int, end as int)),
{
    let ghost w = s@.subrange(start as int, end as int);
    let n = end - start;
    let mut pop: usize = 0;
    let mut printable: usize = 0;
    let mut i = start;
    while i < end
        invariant
            start <= i <= end <= s@.len(),
            end - start <= DPI_WINDOW,
            pop as nat == popcount(s@.subrange(start as int, i as int)),
            printable as nat == printable_count(s@.subrange(start as int, i as int)),
            pop <= 8 * (i - start),
            printable <= i - start,
        decreases end - i,
    {
        assert(s@.subrange(start as int, i + 1).drop_last() =~= s@.subrange(start as int, i as int));
        let b = s[i];
        pop = pop + byte_bits(b) as usize;
        if 0x20 <= b && b <= 0x7e {
            printable = printable + 1;
        }
        i = i + 1;
    }
    assert(s@.subrange(start as int, i as int) =~= w);
    let by_popcount = 10 * pop < 34 * n || 10 * pop > 46 * n;
    let by_prefix = n >= 6 && 0x20 <= s[start] && s[start] <= 0x7e && 0x20 <= s[start + 1]
        && s[start + 1] <= 0x7e && 0x20 <= s[start + 2] && s[start + 2] <= 0x7e && 0x20 <= s[start
        + 3] && s[start + 3] <= 0x7e && 0x20 <= s[start + 4] && s[start + 4] <= 0x7e && 0x20 <= s[
        start + 5] && s[start + 5] <= 0x7e;
    assert(by_prefix == printable_prefix_exempt(w)) by {
        if n >= 6 {
            assert(w[0] == s@[start as int] && w[1] == s@[start + 1] && w[2] == s@[start + 2]
                && w[3] == s@[start + 3] && w[4] == s@[start + 4] && w[5] == s@[start + 5]);
        }
    }
    let by_fraction = 2 * printable > n;
    let by_tls = n >= 3 && 0x14 <= s[start] && s[start] <= 0x17 && s[start + 1] == 3 && 1 <= s[start
        + 2] && s[start + 2] <= 4;
    let by_http = http_at(s, start, end);
    if by_popcount || by_prefix || by_fraction || by_http || by_tls {
        FetClass::Exempt
    } else if n < FET_MIN_WINDOW {
        FetClass::Undecided
    } else {
        FetClass::Random
    }
}

pub(crate) fn classify_payload_at(s: &[u8], start: usize, end: usize) -> (r: FetClass)
    requires
        start <= end <= s@.len(),
    ensures
        r == fet_payload_class(s@.subrange(start as int, end as int)),
{
    let wend = if end - start <= DPI_WINDOW { end } else { start + DPI_WINDOW };
    assert(window_of(s@.subrange(start as int, end as int)) =~= s@.subrange(start as int, wend as int));
    classify_window(s, start, wend)
}

/// Classifies a payload over its first `min(len, 32)` bytes. The result is a
/// function of those bytes alone: evaluating it again gives the same class.
pub fn fet_classify(payload: &[u8]) -> (r: FetClass)
    ensures
        r == fet_payload_class(payload@),
{
    proof { assert(payload@.subrange(0, payload@.len() as int) =~= payload@); }
    classify_payload_at(payload, 0, payload.len())
}

proof fn lemma_popcount_constant(s: Seq<u8>, b: u8)
    requires
        forall|i: int| 0 <= i < s.len() ==> s[i] == b,
    ensures
        popcount(s) == s.len() * byte_popcount(b),
    decreases s.len(),
{
    if s.len() > 0 {
        lemma_popcount_constant(s.drop_last(), b);
        assert(popcount(s) == (s.len() - 1) * byte_popcount(b) + byte_popcount(b));
        assert((s.len() - 1) * byte_popcount(b) + byte_popcount(b) == s.len() * byte_popcount(b))
            by (nonlinear_arith);
    }
}

proof fn lemma_window_bytes(p: Seq<u8>)
    ensures
        window_of(p).len() <= p.len(),
        p.len() > 0 ==> window_of(p).len() > 0,
        forall|i: int| 0 <= i < window_of(p).len() ==> #[trigger] window_of(p)[i] == p[i],
{
}

/// A payload of zero bytes only is exempt: it has no set bits, below the band.
pub proof fn lemma_zero_payload_exempt(p: Seq<u8>)
    requires
        p.len() > 0,
        forall|i: int| 0 <= i < p.len() ==> p[i] == 0,
    ensures
        fet_payload_class(p) == FetClass::Exempt,
{
    let w = window_of(p);
    lemma_window_bytes(p);
    assert(byte_popcount(0) == 0) by {
        assert(((0u8 >> 0u8) & 1u8) == 0 && ((0u8 >> 1u8) & 1u8) == 0 && ((0u8 >> 2u8) & 1u8) == 0
            && ((0u8 >> 3u8) & 1u8) == 0 && ((0u8 >> 4u8) & 1u8) == 0 && ((0u8 >> 5u8) & 1u8) == 0
            && ((0u8 >> 6u8) & 1u8) == 0 && ((0u8 >> 7u8) & 1u8) == 0) by (bit_vector);
    }
    lemma_popcount_constant(w, 0);
    assert(popcount_exempt(w));
}

/// A payload of 0xFF bytes only is exempt: eight set bits per byte, above the band.
pub proof fn lemma_ones_payload_exempt(p: Seq<u8>)
    requires
        p.len() > 0,
        forall|i: int| 0 <= i < p.len() ==> p[i] == 0xff,
    ensures
        fet_payload_class(p) == FetClass::Exempt,
{
    let w = window_of(p);
    lemma_window_bytes(p);
    assert(byte_popcount(0xff) == 8) by {
        assert(((0xffu8 >> 0u8) & 1u8) == 1 && ((0xffu8 >> 1u8) & 1u8) == 1 && ((0xffu8 >> 2u8)
            & 1u8) == 1 && ((0xffu8 >> 3u8) & 1u8) == 1 && ((0xffu8 >> 4u8) & 1u8) == 1 && ((0xffu8
            >> 5u8) & 1u8) == 1 && ((0xffu8 >> 6u8) & 1u8) == 1 && ((0xffu8 >> 7u8) & 1u8) == 1)
            by (bit_vector);
    }
    lemma_popcount_constant(w, 0xff);
    assert(popcount_exempt(w));
}

/// A payload that starts with an HTTP request line (such as `GET /`) is exempt.
pub proof fn lemma_http_payload_exempt(p: Seq<u8>)
    requires
        http_request_spec(p),
    ensures
        fet_payload_class(p) == FetClass::Exempt,
{
    lemma_window_bytes(p);
    assert(window_of(p).len() >= 4);
    assert(http_request_spec(window_of(p)));
}

/// A payload that starts with a TLS record header (`16 03 01` for a
/// ClientHello) is exempt.
pub proof fn lemma_tls_payload_exempt(p: Seq<u8>)
    requires
        tls_record_spec(p),
    ensures
        fet_payload_class(p) == FetClass::Exempt,
{
    lemma_window_bytes(p);
    assert(window_of(p).len() >= 3);
    assert(tls_record_spec(window_of(p)));
}

} // verus!
