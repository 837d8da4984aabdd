//! Subnet matching: parsing of comma-separated CIDR-style subnet lists
//! into normalized (network, mask) pairs, and membership queries against
//! the parsed set.

use vstd::prelude::*;

verus! {

use vstd::string::StringSliceAdditionalSpecFns;

pub const DOT: u8 = 46;
pub const SLASH: u8 = 47;
pub const COMMA: u8 = 44;
pub const DIGIT0: u8 = 48;
pub const DIGIT9: u8 = 57;

pub open spec fn is_digit(b: u8) -> bool {
    DIGIT0 <= b <= DIGIT9
}

pub open spec fn all_digits(s: Seq<u8>) -> bool {
    forall|i: int| 0 <= i < s.len() ==> is_digit(#[trigger] s[i])
}

/// The number a string of decimal digits denotes.
pub open spec fn dec_val(s: Seq<u8>) -> nat
    recommends
        all_digits(s),
    decreases s.len(),
{
    if s.len() == 0 {
        0
    } else {
        (dec_val(s.drop_last()) * 10 + s.last() - DIGIT0) as nat
    }
}

/// One octet of a dotted quad: one to three digits, no leading zero,
/// value at most 255.
pub open spec fn valid_octet(s: Seq<u8>) -> bool {
    &&& 1 <= s.len() <= 3
    &&& all_digits(s)
    &&& (s.len() > 1 ==> s[0] != DIGIT0)
    &&& dec_val(s) <= 255
}

/// A prefix length: a nonempty string of digits denoting at most 32.
pub open spec fn valid_prefix_len(s: Seq<u8>) -> bool {
    &&& s.len() >= 1
    &&& all_digits(s)
    &&& dec_val(s) <= 32
}

/// A longer digit string never denotes a smaller number.
proof fn lemma_dec_val_take_le(s: Seq<u8>, k: int)
    requires
        0 <= k <= s.len(),
        all_digits(s),
    ensures
        dec_val(s.take(k)) <= dec_val(s),
    decreases s.len() - k,
{
    if k == s.len() {
        assert(s.take(k) =~= s);
    } else {
        lemma_dec_val_take_le(s, k + 1);
        assert(s.take(k + 1).drop_last() =~= s.take(k));
        assert(s.take(k + 1).last() == s[k]);
        assert(dec_val(s.take(k + 1)) == dec_val(s.take(k)) * 10 + s[k] - DIGIT0);
        assert(dec_val(s.take(k)) <= dec_val(s.take(k)) * 10);
    }
}

/// The segments of `s` between occurrences of the delimiter `d`.
/// Splitting never drops a byte: an empty string has one empty segment,
/// and each delimiter opens a new (possibly empty) segment.
pub open spec fn split_on(s: Seq<u8>, d: u8) -> Seq<Seq<u8>>
    decreases s.len(),
{
    if s.len() == 0 {
        seq![Seq::<u8>::empty()]
    } else if s.last() == d {
        split_on(s.drop_last(), d).push(Seq::<u8>::empty())
    } else {
        let r = split_on(s.drop_last(), d);
        r.update(r.len() - 1, r.last().push(s.last()))
    }
}

pub proof fn lemma_split_on_len(s: Seq<u8>, d: u8)
    ensures
        split_on(s, d).len() >= 1,
    decreases s.len(),
{
    if s.len() == 0 {
    } else {
        lemma_split_on_len(s.drop_last(), d);
    }
}

/// The boundaries of the segments of `b[lo..hi]` between occurrences of
/// `d`, as index pairs into `b`, in order.
pub fn split_ranges(b: &[u8], lo: usize, hi: usize, d: u8) -> (r: Vec<(usize, usize)>)
    requires
        lo <= hi <= b@.len(),
    ensures
        ({
            let parts = split_on(b@.subrange(lo as int, hi as int), d);
            &&& r@.len() == parts.len()
            &&& forall|j: int|
                0 <= j < r@.len() ==> {
                    &&& lo <= (#[trigger] r@[j]).0 <= r@[j].1 <= hi
                    &&& b@.subrange(r@[j].0 as int, r@[j].1 as int) == parts[j]
                }
        }),
{
    let ghost s = b@.subrange(lo as int, hi as int);
    let mut r: Vec<(usize, usize)> = Vec::new();
    let mut seg_start: usize = lo;
    let mut i: usize = lo;
    while i < hi
        invariant
            lo <= seg_start <= i <= hi <= b@.len(),
            s == b@.subrange(lo as int, hi as int),
            split_on(s.take((i - lo) as int), d).len() == r@.len() + 1,
            split_on(s.take((i - lo) as int), d).last() == b@.subrange(
                seg_start as int,
                i as int,
            ),
            forall|j: int|
                0 <= j < r@.len() ==> {
                    &&& lo <= (#[trigger] r@[j]).0 <= r@[j].1 <= hi
                    &&& b@.subrange(r@[j].0 as int, r@[j].1 as int) == split_on(
                        s.take((i - lo) as int),
                        d,
                    )[j]
                },
        decreases hi - i,
    {
        let ghost pre = split_on(s.take((i - lo) as int), d);
        let c = b[i];
        proof {
            assert(s.take((i + 1 - lo) as int).drop_last() =~= s.take((i - lo) as int));
            assert(s.take((i + 1 - lo) as int).last() == s[(i - lo) as int]);
            assert(s[(i - lo) as int] == b@[i as int]);
            lemma_split_on_len(s.take((i - lo) as int), d);
        }
        if c == d {
            proof {
                assert(split_on(s.take((i + 1 - lo) as int), d) == pre.push(
                    Seq::<u8>::empty(),
                ));
                assert(b@.subrange(((i + 1) as int), ((i + 1) as int)) =~= Seq::<u8>::empty());
            }
            r.push((seg_start, i));
            seg_start = i + 1;
        } else {
            proof {
                assert(split_on(s.take((i + 1 - lo) as int), d) == pre.update(
                    pre.len() - 1,
                    pre.last().push(b@[i as int]),
                ));
                assert(b@.subrange(seg_start as int, i as int).push(b@[i as int]) =~= b@.subrange(
                    seg_start as int,
                    (i + 1) as int,
                ));
            }
        }
        i += 1;
    }
    proof {
        assert(s.take((hi - lo) as int) =~= s);
    }
    r.push((seg_start, hi));
    r
}

/// Parse one octet of a dotted quad, written at `b[lo..hi]`.
fn parse_octet(b: &[u8], lo: usize, hi: usize) -> (r: Option<u8>)
    requires
        lo <= hi <= b@.len(),
    ensures
        ({
            let s = b@.subrange(lo as int, hi as int);
            match r {
                Some(v) => valid_octet(s) && v == dec_val(s),
                None => !valid_octet(s),
            }
        }),
{
    let ghost s = b@.subrange(lo as int, hi as int);
    let len: usize = hi - lo;
    if len == 0 || len > 3 {
        return None;
    }
    let d0 = b[lo];
    proof {
        assert(s[0] == b@[lo as int]);
    }
    if !(DIGIT0 <= d0 && d0 <= DIGIT9) {
        return None;
    }
    if len == 1 {
        proof {
            assert(dec_val(Seq::<u8>::empty()) == 0);
            assert(s.drop_last() =~= Seq::<u8>::empty());
            assert(s.last() == s[0]);
        }
        return Some(d0 - DIGIT0);
    }
    if d0 == DIGIT0 {
        return None;
    }
    let d1 = b[lo + 1];
    proof {
        assert(s[1] == b@[lo + 1 as int]);
    }
    if !(DIGIT0 <= d1 && d1 <= DIGIT9) {
        return None;
    }
    proof {
        assert(dec_val(Seq::<u8>::empty()) == 0);
        assert(s.take(1).drop_last() =~= Seq::<u8>::empty());
        assert(s.take(2).drop_last() =~= s.take(1));
        assert(s.take(1).last() == s[0]);
        assert(s.take(2).last() == s[1]);
    }
    if len == 2 {
        proof {
            assert(s.take(2) =~= s);
        }
        return Some((d0 - DIGIT0) * 10 + (d1 - DIGIT0));
    }
    let d2 = b[lo + 2];
    proof {
        assert(s[2] == b@[lo + 2 as int]);
        assert(s.take(3) =~= s);
        assert(s.take(3).drop_last() =~= s.take(2));
        assert(s.take(3).last() == s[2]);
    }
    if !(DIGIT0 <= d2 && d2 <= DIGIT9) {
        return None;
    }
    let v: u32 = (d0 - DIGIT0) as u32 * 100 + (d1 - DIGIT0) as u32 * 10 + (d2 - DIGIT0) as u32;
    proof {
        assert(dec_val(s) == (dec_val(s.take(2)) * 10 + s[2] - DIGIT0) as nat);
        assert(dec_val(s.take(2)) == (dec_val(s.take(1)) * 10 + s[1] - DIGIT0) as nat);
        assert(dec_val(s.take(1)) == (s[0] - DIGIT0) as nat);
        assert(v == dec_val(s));
    }
    if v > 255 {
        return None;
    }
    Some(v as u8)
}

/// Parse a prefix length, written at `b[lo..hi]`: a nonempty string of
/// digits denoting at most 32. Leading zeros are accepted.
fn parse_prefix(b: &[u8], lo: usize, hi: usize) -> (r: Option<u8>)
    requires
        lo <= hi <= b@.len(),
    ensures
        ({
            let s = b@.subrange(lo as int, hi as int);
            match r {
                Some(v) => valid_prefix_len(s) && v == dec_val(s),
                None => !valid_prefix_len(s),
            }
        }),
{
    let ghost s = b@.subrange(lo as int, hi as int);
    if lo == hi {
        return None;
    }
    let mut acc: u32 = 0;
    let mut i: usize = lo;
    while i < hi
        invariant
            lo <= i <= hi <= b@.len(),
            s == b@.subrange(lo as int, hi as int),
            acc == dec_val(s.take((i - lo) as int)),
            acc <= 32,
            all_digits(s.take((i - lo) as int)),
        decreases hi - i,
    {
        let c = b[i];
        proof {
            assert(s[(i - lo) as int] == b@[i as int]);
            assert(s.take((i + 1 - lo) as int).drop_last() =~= s.take((i - lo) as int));
            assert(s.take((i + 1 - lo) as int).last() == s[(i - lo) as int]);
        }
        if !(DIGIT0 <= c && c <= DIGIT9) {
            return None;
        }
        acc = acc * 10 + (c - DIGIT0) as u32;
        proof {
            assert(all_digits(s.take((i + 1 - lo) as int)));
            assert(acc == dec_val(s.take((i + 1 - lo) as int)));
        }
        if acc > 32 {
            proof {
                if all_digits(s) {
                    lemma_dec_val_take_le(s, i + 1 - lo);
                }
            }
            return None;
        }
        i += 1;
    }
    proof {
        assert(s.take((hi - lo) as int) =~= s);
    }
    Some(acc as u8)
}

/// A syntactically valid dotted quad: four octets separated by dots.
pub open spec fn valid_quad(s: Seq<u8>) -> bool {
    let parts = split_on(s, DOT);
    parts.len() == 4 && (forall|i: int| 0 <= i < 4 ==> valid_octet(#[trigger] parts[i]))
}

/// The 32-bit value of a dotted quad, first octet most significant.
pub open spec fn quad_val(s: Seq<u8>) -> u32
    recommends
        valid_quad(s),
{
    let parts = split_on(s, DOT);
    (((dec_val(parts[0]) * 256 + dec_val(parts[1])) * 256 + dec_val(parts[2])) * 256 + dec_val(
        parts[3],
    )) as u32
}

/// The mask whose top `p` bits are set.
pub open spec fn mask_of(p: u32) -> u32
    recommends
        p <= 32,
{
    if p >= 32 {
        !0u32
    } else {
        !(!0u32 >> p)
    }
}

/// One configured subnet, `address[/prefix]`: a missing prefix length
/// means a single host (/32).
pub open spec fn valid_subnet_seg(s: Seq<u8>) -> bool {
    let parts = split_on(s, SLASH);
    if parts.len() == 1 {
        valid_quad(parts[0])
    } else if parts.len() == 2 {
        valid_quad(parts[0]) && valid_prefix_len(parts[1])
    } else {
        false
    }
}

/// The (network, mask) pair a valid segment denotes: the mask has the
/// top prefix-length bits set, the network is the address masked.
pub open spec fn seg_subnet(s: Seq<u8>) -> (u32, u32) {
    let parts = split_on(s, SLASH);
    let p: u32 = if parts.len() == 1 {
        32
    } else {
        dec_val(parts[1]) as u32
    };
    let m = mask_of(p);
    ((quad_val(parts[0]) & m), m)
}

/// A valid subnet list: comma-separated segments, every one valid.
pub open spec fn valid_subnet_list(s: Seq<u8>) -> bool {
    let parts = split_on(s, COMMA);
    forall|i: int| 0 <= i < parts.len() ==> valid_subnet_seg(#[trigger] parts[i])
}

/// The (network, mask) pairs a valid list denotes, in order.
pub open spec fn subnet_list(s: Seq<u8>) -> Seq<(u32, u32)> {
    split_on(s, COMMA).map_values(|seg: Seq<u8>| seg_subnet(seg))
}

/// Whether `ip` lies in the subnet with network `pair.0` and mask
/// `pair.1`.
pub open spec fn pair_matches(pair: (u32, u32), ip: u32) -> bool {
    ip & pair.1 == pair.0
}

/// Whether `ip` lies in any of the subnets.
pub open spec fn in_subnets(nets: Seq<(u32, u32)>, ip: u32) -> bool {
    exists|i: int| 0 <= i < nets.len() && pair_matches(#[trigger] nets[i], ip)
}

/// Parse a dotted quad written at `b[lo..hi]`.
fn parse_quad(b: &[u8], lo: usize, hi: usize) -> (r: Option<u32>)
    requires
        lo <= hi <= b@.len(),
    ensures
        ({
            let s = b@.subrange(lo as int, hi as int);
            match r {
                Some(v) => valid_quad(s) && v == quad_val(s),
                None => !valid_quad(s),
            }
        }),
{
    let parts = split_ranges(b, lo, hi, DOT);
    if parts.len() != 4 {
        return None;
    }
    let p0 = parts[0];
    let p1 = parts[1];
    let p2 = parts[2];
    let p3 = parts[3];
    let o0 = match parse_octet(b, p0.0, p0.1) {
        Some(v) => v,
        None => {
            return None;
        },
    };
    let o1 = match parse_octet(b, p1.0, p1.1) {
        Some(v) => v,
        None => {
            return None;
        },
    };
    let o2 = match parse_octet(b, p2.0, p2.1) {
        Some(v) => v,
        None => {
            return None;
        },
    };
    let o3 = match parse_octet(b, p3.0, p3.1) {
        Some(v) => v,
        None => {
            return None;
        },
    };
    let v: u32 = ((o0 as u32 * 256 + o1 as u32) * 256 + o2 as u32) * 256 + o3 as u32;
    Some(v)
}

/// The mask whose top `p` bits are set.
fn mask_from_prefix(p: u32) -> (m: u32)
    requires
        p <= 32,
    ensures
        m == mask_of(p),
{
    proof {
        assert(!0u32 == 0xffff_ffffu32) by (bit_vector);
    }
    if p >= 32 {
        0xffff_ffffu32
    } else {
        !(0xffff_ffffu32 >> p)
    }
}

/// Parse one subnet segment written at `b[lo..hi]`.
fn parse_seg(b: &[u8], lo: usize, hi: usize) -> (r: Option<(u32, u32)>)
    requires
        lo <= hi <= b@.len(),
    ensures
        ({
            let s = b@.subrange(lo as int, hi as int);
            match r {
                Some(v) => valid_subnet_seg(s) && v == seg_subnet(s),
                None => !valid_subnet_seg(s),
            }
        }),
{
    let ghost s = b@.subrange(lo as int, hi as int);
    let parts = split_ranges(b, lo, hi, SLASH);
    proof {
        lemma_split_on_len(s, SLASH);
    }
    if parts.len() > 2 {
        return None;
    }
    let p0 = parts[0];
    let addr = match parse_quad(b, p0.0, p0.1) {
        Some(v) => v,
        None => {
            return None;
        },
    };
    let p: u8 = if parts.len() == 2 {
        let p1 = parts[1];
        match parse_prefix(b, p1.0, p1.1) {
            Some(v) => v,
            None => {
                return None;
            },
        }
    } else {
        32
    };
    let m = mask_from_prefix(p as u32);
    Some((addr & m, m))
}

/// A compiled set of subnets, as normalized (network, mask) pairs.
#[derive(Debug)]
pub struct SubnetSet {
    pub nets: Vec<(u32, u32)>,
}

impl SubnetSet {
    /// Whether `ip` belongs to any subnet of the set.
    pub fn matches(&self, ip: u32) -> (r: bool)
        ensures
            r == in_subnets(self.nets@, ip),
    {
        let n = self.nets.len();
        for i in 0..n
            invariant
                n == self.nets@.len(),
                forall|j: int| 0 <= j < i ==> !pair_matches(#[trigger] self.nets@[j], ip),
        {
            let (net, m) = self.nets[i];
            if ip & m == net {
                proof {
                    assert(pair_matches(self.nets@[i as int], ip));
                }
                return true;
            }
        }
        false
    }
}

/// Parse a comma separated list of IPv4 subnets into normalized
/// (network, mask) pairs. The whole parse fails, with no partial
/// result, if any segment is malformed.
pub fn parse_subnets(s: &str) -> (r: Option<SubnetSet>)
    ensures
        match r {
            Some(set) => valid_subnet_list(s.spec_bytes()) && set.nets@ == subnet_list(
                s.spec_bytes(),
            ),
            None => !valid_subnet_list(s.spec_bytes()),
        },
{
    let b = s.as_bytes();
    let ghost segs = split_on(b@, COMMA);
    proof {
        assert(b@.subrange(0, b@.len() as int) =~= b@);
    }
    let parts = split_ranges(b, 0, b.len(), COMMA);
    let mut nets: Vec<(u32, u32)> = Vec::new();
    let n = parts.len();
    for k in 0..n
        invariant
            b@ == s.spec_bytes(),
            n == parts@.len(),
            n == segs.len(),
            segs == split_on(b@, COMMA),
            forall|j: int|
                0 <= j < n ==> {
                    &&& 0 <= (#[trigger] parts@[j]).0 <= parts@[j].1 <= b@.len()
                    &&& b@.subrange(parts@[j].0 as int, parts@[j].1 as int) == segs[j]
                },
            nets@.len() == k,
            forall|j: int|
                0 <= j < k ==> valid_subnet_seg(#[trigger] segs[j]) && nets@[j] == seg_subnet(
                    segs[j],
                ),
    {
        let pk = parts[k];
        match parse_seg(b, pk.0, pk.1) {
            Some(pr) => nets.push(pr),
            None => {
                return None;
            },
        }
    }
    proof {
        assert(nets@ =~= subnet_list(b@));
    }
    Some(SubnetSet { nets })
}

/// Law: the pair a prefix length `p` and address `a` compile to —
/// network `a & mask_of(p)`, mask `mask_of(p)` — matches exactly the
/// addresses that agree with `a` on the top `p` bits; with `p == 0` it
/// matches every address.
pub proof fn lemma_prefix_match(a: u32, p: u32, ip: u32)
    requires
        p <= 32,
    ensures
        pair_matches(((a & mask_of(p)), mask_of(p)), ip) <==> (p == 0 || ip >> (32 - p) as u32
            == a >> (32 - p) as u32),
{
    if p == 0 {
        assert(ip & !(!0u32 >> 0u32) == a & !(!0u32 >> 0u32)) by (bit_vector);
    } else if p == 32 {
        assert((ip & !0u32 == a & !0u32) <==> (ip >> (32u32 - 32u32) == a >> (32u32 - 32u32)))
            by (bit_vector);
    } else {
        assert((ip & !(!0u32 >> p) == a & !(!0u32 >> p)) <==> (ip >> (32u32 - p) as u32 == a >> (
        32u32 - p) as u32)) by (bit_vector)
            requires
                0 < p < 32,
        ;
    }
}

/// Law: a /32 subnet matches only its exact address.
pub proof fn lemma_full_prefix_exact(a: u32, ip: u32)
    ensures
        pair_matches(((a & mask_of(32)), mask_of(32)), ip) <==> ip == a,
{
    assert((ip & !0u32 == a & !0u32) <==> ip == a) by (bit_vector);
}

/// Law: a /0 subnet matches every address.
pub proof fn lemma_zero_prefix_all(a: u32, ip: u32)
    ensures
        pair_matches(((a & mask_of(0)), mask_of(0)), ip),
{
    assert(ip & !(!0u32 >> 0u32) == a & !(!0u32 >> 0u32)) by (bit_vector);
}

/// Law: parsing round-trip for one subnet segment. The compiled pair of
/// a valid `address[/p]` segment matches an address exactly when that
/// address agrees with the parsed one on the network portion — the top
/// `p` bits.
pub proof fn lemma_seg_match(seg: Seq<u8>, ip: u32)
    requires
        valid_subnet_seg(seg),
    ensures
        ({
            let parts = split_on(seg, SLASH);
            let a = quad_val(parts[0]);
            let p: u32 = if parts.len() == 1 {
                32
            } else {
                dec_val(parts[1]) as u32
            };
            pair_matches(seg_subnet(seg), ip) <==> (p == 0 || ip >> (32 - p) as u32 == a >> (32
                - p) as u32)
        }),
{
    let parts = split_on(seg, SLASH);
    let a = quad_val(parts[0]);
    let p: u32 = if parts.len() == 1 {
        32
    } else {
        dec_val(parts[1]) as u32
    };
    lemma_prefix_match(a, p, ip);
}

} // verus!
