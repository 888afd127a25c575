//! Parsing of IPv4 prefixes written as `A.B.C.D/p`.
use vstd::prelude::*;
use vstd::string::StringSliceAdditionalSpecFns;

verus! {

/// The network mask of a prefix length: the top `p` bits set.
pub open spec fn mask_of(p: u32) -> u32 {
    if p == 0 {
        0u32
    } else {
        (!0u32) << ((32 - p) as u32)
    }
}

/// Index of the first `c` in `s` at or after `from`, or `s.len()` if there is none.
pub open spec fn find_from(s: Seq<u8>, c: u8, from: int) -> int
    decreases s.len() - from,
{
    if from >= s.len() {
        s.len() as int
    } else if s[from] == c {
        from
    } else {
        find_from(s, c, from + 1)
    }
}

pub open spec fn is_digit(b: u8) -> bool {
    0x30 <= b <= 0x39
}

pub open spec fn all_digits(s: Seq<u8>) -> bool {
    forall|i: int| 0 <= i < s.len() ==> is_digit(#[trigger] s[i])
}

/// The value of a string of decimal digits.
pub open spec fn digits_value(s: Seq<u8>) -> nat
    decreases s.len(),
{
    if s.len() == 0 {
        0
    } else {
        digits_value(s.drop_last()) * 10 + (s.last() - 0x30) as nat
    }
}

/// An unsigned decimal field: an optional `+`, then at least one digit, of
/// value at most `max`.
pub open spec fn decimal_field(s: Seq<u8>, max: nat) -> Option<nat> {
    let d = if s.len() > 0 && s[0] == 0x2b { s.drop_first() } else { s };
    if d.len() > 0 && all_digits(d) && digits_value(d) <= max {
        Some(digits_value(d))
    } else {
        None
    }
}

/// The address whose big-endian octets are `a`, `b`, `c`, `d`.
pub open spec fn octets_value(a: nat, b: nat, c: nat, d: nat) -> u32 {
    (a * 16777216 + b * 65536 + c * 256 + d) as u32
}

/// What `A.B.C.D/p` denotes: the network address (host bits cleared) and the
/// prefix length, when the text splits into exactly two parts at `/`, the
/// first into exactly four parts at `.`, each octet is a decimal field of at
/// most 255 and the prefix length one of at most 32.
pub open spec fn cidr_spec(s: Seq<u8>) -> Option<(u32, u32)> {
    let slash = find_from(s, 0x2f, 0);
    let head = s.subrange(0, slash);
    let tail = s.subrange(slash + 1, s.len() as int);
    let e1 = find_from(head, 0x2e, 0);
    let e2 = find_from(head, 0x2e, e1 + 1);
    let e3 = find_from(head, 0x2e, e2 + 1);
    if slash < s.len() && find_from(s, 0x2f, slash + 1) == s.len() && e3 < head.len()
        && find_from(head, 0x2e, e3 + 1) == head.len() {
        let a = decimal_field(head.subrange(0, e1), 255);
        let b = decimal_field(head.subrange(e1 + 1, e2), 255);
        let c = decimal_field(head.subrange(e2 + 1, e3), 255);
        let d = decimal_field(head.subrange(e3 + 1, head.len() as int), 255);
        let p = decimal_field(tail, 0xffff_ffff);
        if a.is_some() && b.is_some() && c.is_some() && d.is_some() && p.is_some()
            && p.unwrap() <= 32 {
            let ip = octets_value(a.unwrap(), b.unwrap(), c.unwrap(), d.unwrap());
            let pl = p.unwrap() as u32;
            Some((ip & mask_of(pl), pl))
        } else {
            None
        }
    } else {
        None
    }
}

/// Builds the network mask of a prefix length.
pub fn prefix_mask(p: u32) -> (r: u32)
    requires
        p <= 32,
    ensures
        r == mask_of(p),
{
    if p == 0 {
        0
    } else {
        !0u32 << (32 - p)
    }
}

/// A masked address keeps its value under the same mask.
pub proof fn lemma_mask_idempotent(ip: u32, m: u32)
    ensures
        (ip & m) & m == ip & m,
{
    assert((ip & m) & m == ip & m) by (bit_vector);
}

fn find_byte(s: &[u8], c: u8, from: usize, end: usize) -> (r: usize)
    requires
        from <= end <= s@.len(),
    ensures
        r == find_from(s@.subrange(0, end as int), c, from as int),
{
    let ghost t = s@.subrange(0, end as int);
    let mut i = from;
    while i < end
        invariant
            from <= i <= end <= s@.len(),
            t == s@.subrange(0, end as int),
            find_from(t, c, from as int) == find_from(t, c, i as int),
        decreases end - i,
    {
        if s[i] == c {
            return i;
        }
        i += 1;
    }
    i
}

proof fn lemma_find_bounds(s: Seq<u8>, c: u8, from: int)
    requires
        0 <= from,
    ensures
        from <= find_from(s, c, from) || find_from(s, c, from) == s.len(),
        find_from(s, c, from) <= s.len() || from > s.len(),
        find_from(s, c, from) < s.len() ==> s[find_from(s, c, from)] == c,
    decreases s.len() - from,
{
    if from < s.len() && s[from] != c {
        lemma_find_bounds(s, c, from + 1);
    }
}

/// Reads the decimal field `s[start..end]`, of value at most `max`.
fn parse_decimal(s: &[u8], start: usize, end: usize, max: u32) -> (r: Option<u32>)
    requires
        start <= end <= s@.len(),
    ensures
        r == (match decimal_field(s@.subrange(start as int, end as int), max as nat) {
            Some(v) => Some(v as u32),
            None => None::<u32>,
        }),
{
    let ghost f = s@.subrange(start as int, end as int);
    let mut i = start;
    if i < end && s[i] == 0x2b {
        i += 1;
    }
    let ghost d = if f.len() > 0 && f[0] == 0x2b { f.drop_first() } else { f };
    assert(d =~= s@.subrange(i as int, end as int));
    if i == end {
        return None;
    }
    let first = i;
    let mut v: u32 = 0;
    while i < end
        invariant
            start <= first <= i <= end <= s@.len(),
            d =~= s@.subrange(first as int, end as int),
            f == s@.subrange(start as int, end as int),
            d == (if f.len() > 0 && f[0] == 0x2b { f.drop_first() } else { f }),
            all_digits(s@.subrange(first as int, i as int)),
            v as nat == digits_value(s@.subrange(first as int, i as int)),
            v <= max,
        decreases end - i,
    {
        let b = s[i];
        let ghost before = s@.subrange(first as int, i as int);
        let ghost after = s@.subrange(first as int, i + 1);
        assert(after.drop_last() =~= before);
        if b < 0x30 || b > 0x39 {
            assert(d[i - first] == b);
            assert(!is_digit(d[i - first]));
            assert(!all_digits(d));
            return None;
        }
        let dv = (b - 0x30) as u32;
        assert(digits_value(after) == v * 10 + dv);
        if dv > max || v > (max - dv) / 10 {
            assert(digits_value(after) > max as nat) by (nonlinear_arith)
                requires
                    digits_value(after) == v * 10 + dv,
                    dv > max || v > (max - dv) / 10,
            ;
            proof {
                lemma_digits_monotone(d, (i + 1 - first) as int);
            }
            assert(d.subrange(0, (i + 1 - first) as int) =~= after);
            assert(digits_value(d) > max as nat);
            return None;
        }
        assert(v * 10 + dv <= max) by (nonlinear_arith)
            requires
                v <= (max - dv) / 10,
                dv <= max,
        ;
        v = v * 10 + dv;
        i += 1;
    }
    assert(s@.subrange(first as int, i as int) =~= d);
    Some(v)
}

proof fn lemma_digits_monotone(s: Seq<u8>, k: int)
    requires
        0 <= k <= s.len(),
    ensures
        digits_value(s.subrange(0, k)) <= digits_value(s),
    decreases s.len() - k,
{
    if k < s.len() {
        lemma_digits_monotone(s, k + 1);
        assert(s.subrange(0, k + 1).drop_last() =~= s.subrange(0, k));
    } else {
        assert(s.subrange(0, k) =~= s);
    }
}

/// Parses `A.B.C.D/p` into the network address (host bits cleared, host
/// order) and the prefix length; `None` for text of any other shape or with
/// an octet above 255 or a prefix length above 32.
pub fn parse_cidr_to_lpm(cidr: &str) -> (r: Option<(u32, u32)>)
    ensures
        r == cidr_spec(cidr.spec_bytes()),
        r matches Some((net, p)) ==> p <= 32 && net & mask_of(p) == net,
{
    let s = cidr.as_bytes();
    let n = s.len();
    let ghost t = s@;
    assert(t.subrange(0, n as int) =~= t);
    let slash = find_byte(s, 0x2f, 0, n);
    proof { lemma_find_bounds(t, 0x2f, 0); }
    if slash == n {
        return None;
    }
    if find_byte(s, 0x2f, slash + 1, n) != n {
        return None;
    }
    let ghost head = t.subrange(0, slash as int);
    let e1 = find_byte(s, 0x2e, 0, slash);
    proof { lemma_find_bounds(head, 0x2e, 0); }
    if e1 == slash {
        return None;
    }
    let e2 = find_byte(s, 0x2e, e1 + 1, slash);
    proof { lemma_find_bounds(head, 0x2e, e1 + 1); }
    if e2 == slash {
        return None;
    }
    let e3 = find_byte(s, 0x2e, e2 + 1, slash);
    proof { lemma_find_bounds(head, 0x2e, e2 + 1); }
    if e3 == slash {
        return None;
    }
    if find_byte(s, 0x2e, e3 + 1, slash) != slash {
        return None;
    }
    assert(head.subrange(0, e1 as int) =~= t.subrange(0, e1 as int));
    assert(head.subrange(e1 + 1, e2 as int) =~= t.subrange(e1 + 1, e2 as int));
    assert(head.subrange(e2 + 1, e3 as int) =~= t.subrange(e2 + 1, e3 as int));
    assert(head.subrange(e3 + 1, head.len() as int) =~= t.subrange(e3 + 1, slash as int));
    let a = parse_decimal(s, 0, e1, 255);
    let b = parse_decimal(s, e1 + 1, e2, 255);
    let c = parse_decimal(s, e2 + 1, e3, 255);
    let d = parse_decimal(s, e3 + 1, slash, 255);
    let p = parse_decimal(s, slash + 1, n, 0xffff_ffff);
    match (a, b, c, d, p) {
        (Some(a), Some(b), Some(c), Some(d), Some(p)) => {
            if p > 32 {
                return None;
            }
            let ip: u32 = a * 16777216 + b * 65536 + c * 256 + d;
            let mask = prefix_mask(p);
            proof { lemma_mask_idempotent(ip, mask); }
            Some((ip & mask, p))
        },
        _ => None,
    }
}

} // verus!
