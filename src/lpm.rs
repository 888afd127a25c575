//! The prefix table: a set of IPv4 prefixes with longest-prefix membership.
use vstd::prelude::*;
use vstd::string::StringSliceAdditionalSpecFns;
use std::collections::HashSet;
use crate::cidr::{cidr_spec, lemma_mask_idempotent, mask_of, octets_value, parse_cidr_to_lpm, prefix_mask};

verus! {

broadcast use vstd::std_specs::hash::group_hash_axioms;

/// Most prefixes the table holds.
pub const MAX_PREFIXES: usize = 65536;

/// A table key: the prefix length in host order and the network address as
/// its four bytes in network order.
#[derive(Clone, Copy, Debug)]
pub struct LpmKey {
    pub prefix_len: u32,
    pub data: [u8; 4],
}

/// The address, in host order, that a key's bytes hold.
pub open spec fn key_net(k: LpmKey) -> u32 {
    octets_value(k.data@[0] as nat, k.data@[1] as nat, k.data@[2] as nat, k.data@[3] as nat)
}

/// The big-endian bytes of `net`.
pub open spec fn net_bytes(net: u32) -> Seq<u8> {
    seq![
        (net / 16777216) as u8,
        (net / 65536 % 256) as u8,
        (net / 256 % 256) as u8,
        (net % 256) as u8,
    ]
}

/// Builds the key of prefix `net/prefix_len`, the address in network byte order.
pub fn lpm_key(net: u32, prefix_len: u32) -> (r: LpmKey)
    ensures
        r.prefix_len == prefix_len,
        r.data@ == net_bytes(net),
        key_net(r) == net,
{
    let data: [u8; 4] = [
        (net / 16777216) as u8,
        (net / 65536 % 256) as u8,
        (net / 256 % 256) as u8,
        (net % 256) as u8,
    ];
    assert(data@ =~= net_bytes(net));
    let a = net / 16777216;
    let b = net / 65536 % 256;
    let c = net / 256 % 256;
    let d = net % 256;
    assert(a * 16777216 + b * 65536 + c * 256 + d == net) by (nonlinear_arith)
        requires
            a == net / 16777216,
            b == net / 65536 % 256,
            c == net / 256 % 256,
            d == net % 256,
    ;
    LpmKey { prefix_len, data }
}

/// The number of a prefix in the index.
pub open spec fn key_code(p: u32, net: u32) -> u64 {
    (p * 4294967296 + net) as u64
}

proof fn lemma_key_code_injective(p1: u32, n1: u32, p2: u32, n2: u32)
    requires
        p1 <= 32,
        p2 <= 32,
        key_code(p1, n1) == key_code(p2, n2),
    ensures
        p1 == p2,
        n1 == n2,
{
    assert(p1 * 4294967296 + n1 <= 33 * 4294967296) by (nonlinear_arith)
        requires
            p1 <= 32,
            n1 < 4294967296,
    ;
    assert(p2 * 4294967296 + n2 <= 33 * 4294967296) by (nonlinear_arith)
        requires
            p2 <= 32,
            n2 < 4294967296,
    ;
    assert(p1 == p2 && n1 == n2) by (nonlinear_arith)
        requires
            p1 * 4294967296 + n1 == p2 * 4294967296 + n2,
            n1 < 4294967296,
            n2 < 4294967296,
            p1 >= 0,
            p2 >= 0,
    ;
}

/// Whether some prefix of `prefixes` covers `addr` (host order).
pub open spec fn covers(prefixes: Set<(u32, u32)>, addr: u32) -> bool {
    exists|p: u32| p <= 32 && #[trigger] prefixes.contains((p, addr & mask_of(p)))
}

/// The prefix `(prefix length, network address)` that a CIDR string denotes,
/// read as UTF-8 bytes.
pub open spec fn string_cidr(s: String) -> Option<(u32, u32)> {
    match cidr_spec(vstd::utf8::encode_utf8(s@)) {
        Some((net, p)) => Some((p, net)),
        None => None,
    }
}

/// The number of strings of `ss` that are no valid CIDR.
pub open spec fn count_invalid(ss: Seq<String>) -> nat
    decreases ss.len(),
{
    if ss.len() == 0 {
        0
    } else {
        count_invalid(ss.drop_last()) + if string_cidr(ss.last()) is None { 1nat } else { 0nat }
    }
}

/// Why an insertion was refused.
#[derive(PartialEq, Eq, Structural, Clone, Copy, Debug)]
pub enum InsertError {
    /// The prefix is already in the table.
    Duplicate,
    /// The table holds `MAX_PREFIXES` prefixes.
    Full,
}

/// What loading a batch of CIDR strings did.
#[derive(PartialEq, Eq, Structural, Clone, Copy, Debug)]
pub struct LoadReport {
    /// Prefixes added to the table.
    pub loaded: usize,
    /// Strings that are no valid CIDR.
    pub invalid: usize,
    /// Valid prefixes the table refused (duplicates, or the table was full).
    pub rejected: usize,
}

/// A set of IPv4 prefixes, each `(prefix length, network address)` with the
/// host bits clear, kept in insertion order for export.
pub struct PrefixTable {
    entries: Vec<LpmKey>,
    index: HashSet<u64>,
}

impl PrefixTable {
    /// The prefixes held: pairs of prefix length and network address (host order).
    pub closed spec fn view(&self) -> Set<(u32, u32)> {
        Set::new(
            |k: (u32, u32)|
                k.0 <= 32 && k.1 & mask_of(k.0) == k.1 && self.index@.contains(key_code(k.0, k.1)),
        )
    }

    /// The number of prefixes held.
    pub closed spec fn size(&self) -> nat {
        self.entries@.len()
    }

    /// The table's invariant.
    pub closed spec fn wf(&self) -> bool {
        &&& self.entries@.len() <= MAX_PREFIXES
        &&& forall|i: int|
            0 <= i < self.entries@.len() ==> {
                let k = #[trigger] self.entries@[i];
                &&& k.prefix_len <= 32
                &&& key_net(k) & mask_of(k.prefix_len) == key_net(k)
                &&& self.index@.contains(key_code(k.prefix_len, key_net(k)))
            }
        &&& forall|c: u64|
            #[trigger] self.index@.contains(c) ==> exists|i: int|
                0 <= i < self.entries@.len() && c == key_code(
                    #[trigger] self.entries@[i].prefix_len,
                    key_net(self.entries@[i]),
                )
    }

    /// An empty table.
    pub fn new() -> (r: PrefixTable)
        ensures
            r.wf(),
            r@ == Set::<(u32, u32)>::empty(),
            r.size() == 0,
    {
        let r = PrefixTable { entries: Vec::new(), index: HashSet::new() };
        assert(r@ =~= Set::<(u32, u32)>::empty());
        r
    }

    /// The number of prefixes held.
    pub fn len(&self) -> (r: usize)
        requires
            self.wf(),
        ensures
            r == self.size(),
            r <= MAX_PREFIXES,
    {
        self.entries.len()
    }

    /// Adds the prefix `net/prefix_len`, host bits cleared. A prefix already
    /// held is refused, and so is any new one once the table is full.
    pub fn insert(&mut self, net: u32, prefix_len: u32) -> (r: Result<(), InsertError>)
        requires
            old(self).wf(),
            prefix_len <= 32,
        ensures
            final(self).wf(),
            ({
                let k = (prefix_len, net & mask_of(prefix_len));
                &&& old(self)@.contains(k) ==> r == Err::<(), InsertError>(InsertError::Duplicate)
                &&& !old(self)@.contains(k) && old(self).size() >= MAX_PREFIXES ==> r == Err::<
                    (),
                    InsertError,
                >(InsertError::Full)
                &&& !old(self)@.contains(k) && old(self).size() < MAX_PREFIXES ==> r == Ok::<
                    (),
                    InsertError,
                >(())
                &&& r is Ok ==> final(self)@ == old(self)@.insert(k) && final(self).size()
                    == old(self).size() + 1
                &&& r is Err ==> final(self)@ == old(self)@ && final(self).size() == old(self).size()
            }),
    {
        let mask = prefix_mask(prefix_len);
        let masked = net & mask;
        proof { lemma_mask_idempotent(net, mask); }
        let code = (prefix_len as u64) * 4294967296u64 + masked as u64;
        assert(code == key_code(prefix_len, masked));
        if self.index.contains(&code) {
            assert(self@.contains((prefix_len, masked)));
            return Err(InsertError::Duplicate);
        }
        assert(!self@.contains((prefix_len, masked)));
        if self.entries.len() >= MAX_PREFIXES {
            return Err(InsertError::Full);
        }
        let key = lpm_key(masked, prefix_len);
        let ghost old_self = *self;
        self.entries.push(key);
        self.index.insert(code);
        proof {
            let k = (prefix_len, masked);
            assert forall|c: u64| #[trigger] self.index@.contains(c) implies exists|i: int|
                0 <= i < self.entries@.len() && c == key_code(
                    #[trigger] self.entries@[i].prefix_len,
                    key_net(self.entries@[i]),
                ) by {
                if c == code {
                    assert(self.entries@[self.entries@.len() - 1] == key);
                } else {
                    let i = choose|i: int|
                        0 <= i < old_self.entries@.len() && c == key_code(
                            #[trigger] old_self.entries@[i].prefix_len,
                            key_net(old_self.entries@[i]),
                        );
                    assert(self.entries@[i] == old_self.entries@[i]);
                }
            }
            assert forall|q: (u32, u32)| #[trigger] self@.contains(q) <==> old_self@.insert(k).contains(q) by {
                if q.0 <= 32 && self.index@.contains(key_code(q.0, q.1)) && key_code(q.0, q.1) == code {
                    lemma_key_code_injective(q.0, q.1, prefix_len, masked);
                }
            }
            assert(self@ =~= old_self@.insert(k));
        }
        Ok(())
    }

    /// Whether some held prefix covers `addr` (host order).
    pub fn contains_addr(&self, addr: u32) -> (r: bool)
        requires
            self.wf(),
        ensures
            r == covers(self@, addr),
    {
        let mut p: u32 = 0;
        while p <= 32
            invariant
                p <= 33,
                forall|q: u32| q < p ==> !(#[trigger] self@.contains((q, addr & mask_of(q)))),
            decreases 33 - p,
        {
            let mask = prefix_mask(p);
            let masked = addr & mask;
            proof { lemma_mask_idempotent(addr, mask); }
            let code = (p as u64) * 4294967296u64 + masked as u64;
            assert(code == key_code(p, masked));
            if self.index.contains(&code) {
                assert(self@.contains((p, addr & mask_of(p))));
                return true;
            }
            assert(!self@.contains((p, addr & mask_of(p))));
            p = p + 1;
        }
        false
    }

    /// Parses each CIDR string and inserts the prefixes it denotes, going on
    /// past invalid strings and refused insertions. Every prefix the table
    /// then holds was held before or comes from the batch; every valid prefix
    /// of the batch is held unless the table is full.
    pub fn load_prefixes(&mut self, cidrs: &Vec<String>) -> (r: LoadReport)
        requires
            old(self).wf(),
        ensures
            final(self).wf(),
            r.loaded + r.invalid + r.rejected == cidrs@.len(),
            r.invalid == count_invalid(cidrs@),
            final(self).size() == old(self).size() + r.loaded,
            old(self)@.subset_of(final(self)@),
            forall|k: (u32, u32)|
                #[trigger] final(self)@.contains(k) ==> old(self)@.contains(k) || exists|j: int|
                    0 <= j < cidrs@.len() && string_cidr(#[trigger] cidrs@[j]) == Some(k),
            forall|j: int|
                0 <= j < cidrs@.len() && #[trigger] string_cidr(cidrs@[j]) is Some
                    ==> final(self)@.contains(string_cidr(cidrs@[j]).unwrap())
                    || final(self).size() >= MAX_PREFIXES,
    {
        let ghost start = *self;
        let mut loaded: usize = 0;
        let mut invalid: usize = 0;
        let mut rejected: usize = 0;
        let mut i: usize = 0;
        while i < cidrs.len()
            invariant
                i <= cidrs@.len(),
                self.wf(),
                loaded + invalid + rejected == i,
                invalid == count_invalid(cidrs@.subrange(0, i as int)),
                self.size() == start.size() + loaded,
                start@.subset_of(self@),
                forall|k: (u32, u32)|
                    #[trigger] self@.contains(k) ==> start@.contains(k) || exists|j: int|
                        0 <= j < i && string_cidr(#[trigger] cidrs@[j]) == Some(k),
                forall|j: int|
                    0 <= j < i && #[trigger] string_cidr(cidrs@[j]) is Some ==> self@.contains(
                        string_cidr(cidrs@[j]).unwrap(),
                    ) || self.size() >= MAX_PREFIXES,
            decreases cidrs@.len() - i,
        {
            assert(cidrs@.subrange(0, i + 1).drop_last() =~= cidrs@.subrange(0, i as int));
            let ghost before = *self;
            let text = cidrs[i].as_str();
            let parsed = parse_cidr_to_lpm(text);
            assert(text.spec_bytes() == vstd::utf8::encode_utf8(cidrs@[i as int]@));
            assert(parsed is None <==> string_cidr(cidrs@[i as int]) is None);
            assert(parsed matches Some((net, p)) ==> string_cidr(cidrs@[i as int]) == Some((p, net)));
            match parsed {
                None => {
                    invalid = invalid + 1;
                },
                Some((net, p)) => {
                    assert(net & mask_of(p) == net && p <= 32);
                    let ins = self.insert(net, p);
                    match ins {
                        Ok(()) => {
                            loaded = loaded + 1;
                        },
                        Err(_) => {
                            rejected = rejected + 1;
                        },
                    }
                    assert forall|k: (u32, u32)| #[trigger] self@.contains(k) implies start@.contains(
                        k,
                    ) || exists|j: int| 0 <= j < i + 1 && string_cidr(#[trigger] cidrs@[j]) == Some(
                        k,
                    ) by {
                        if !before@.contains(k) {
                            assert(string_cidr(cidrs@[i as int]) == Some(k));
                        }
                    }
                },
            }
            i = i + 1;
        }
        assert(cidrs@.subrange(0, i as int) =~= cidrs@);
        LoadReport { loaded, invalid, rejected }
    }

    /// The keys held, in insertion order, each the key of a held prefix, and
    /// each held prefix among them.
    pub fn keys(&self) -> (r: &Vec<LpmKey>)
        requires
            self.wf(),
        ensures
            r@.len() == self.size(),
            forall|i: int|
                0 <= i < r@.len() ==> #[trigger] self@.contains((r@[i].prefix_len, key_net(r@[i]))),
            forall|k: (u32, u32)|
                #[trigger] self@.contains(k) ==> exists|i: int|
                    0 <= i < r@.len() && #[trigger] r@[i].prefix_len == k.0 && key_net(r@[i]) == k.1,
    {
        proof {
            assert forall|k: (u32, u32)| #[trigger] self@.contains(k) implies exists|i: int|
                0 <= i < self.entries@.len() && #[trigger] self.entries@[i].prefix_len == k.0
                    && key_net(self.entries@[i]) == k.1 by {
                let c = key_code(k.0, k.1);
                assert(self.index@.contains(c));
                let i = choose|i: int|
                    0 <= i < self.entries@.len() && c == key_code(
                        #[trigger] self.entries@[i].prefix_len,
                        key_net(self.entries@[i]),
                    );
                lemma_key_code_injective(k.0, k.1, self.entries@[i].prefix_len, key_net(self.entries@[i]));
            }
        }
        &self.entries
    }
}

/// A loaded prefix `net/p` covers every address whose first `p` bits are
/// those of `net`; an address that no loaded prefix covers is no member.
pub proof fn lemma_lpm_match(t: PrefixTable, p: u32, net: u32, addr: u32)
    requires
        t@.contains((p, net)),
    ensures
        addr & mask_of(p) == net ==> covers(t@, addr),
        covers(t@, addr) <==> exists|k: (u32, u32)|
            #[trigger] t@.contains(k) && k.0 <= 32 && addr & mask_of(k.0) == k.1,
{
    reveal(PrefixTable::view);
    if addr & mask_of(p) == net {
        assert(t@.contains((p, addr & mask_of(p))));
    }
    if covers(t@, addr) {
        let q = choose|q: u32| q <= 32 && #[trigger] t@.contains((q, addr & mask_of(q)));
        assert(t@.contains((q, addr & mask_of(q))));
    }
}

} // verus!
