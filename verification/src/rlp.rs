//! A verified decoder and encoder for the RLP subset that batch envelopes
//! use: byte strings, unsigned scalars, 256-bit hashes, and list headers.
//!
//! Decoding is canonical: a scalar must be minimally encoded, a one-byte
//! string below 0x80 must stand alone, and a long length must not have a
//! leading zero.

use vstd::prelude::*;
use crate::frame::{be_bytes_to_nat, pow256, lemma_be_bytes_bound, lemma_be_bytes_push,
    lemma_pow256_values, lemma_pow256_mono, read_be_u64};
use crate::types::B256;

verus! {

/// Parses an RLP byte-string item from the front of `d`: its payload and
/// the total bytes the item occupies. `None` on truncation, a list, or a
/// non-canonical encoding.
pub open spec fn spec_rlp_string(d: Seq<u8>) -> Option<(Seq<u8>, int)> {
    if d.len() == 0 {
        None
    } else {
        let b = d[0];
        if b < 0x80 {
            Some((seq![b], 1))
        } else if b <= 0xb7 {
            let n = b - 0x80;
            if d.len() < 1 + n {
                None
            } else if n == 1 && d[1] < 0x80 {
                None
            } else {
                Some((d.subrange(1, 1 + n), 1 + n))
            }
        } else if b <= 0xbf {
            let ll = b - 0xb7;
            if d.len() < 1 + ll {
                None
            } else {
                let n = be_bytes_to_nat(d.subrange(1, 1 + ll)) as int;
                if d[1] == 0 || n < 56 || d.len() < 1 + ll + n {
                    None
                } else {
                    Some((d.subrange(1 + ll, 1 + ll + n), 1 + ll + n))
                }
            }
        } else {
            None
        }
    }
}

/// Parses an RLP list header from the front of `d`: the payload length and
/// the header length. `None` on truncation, a string, or a non-canonical
/// long length.
pub open spec fn spec_rlp_list_header(d: Seq<u8>) -> Option<(int, int)> {
    if d.len() == 0 {
        None
    } else {
        let b = d[0];
        if b < 0xc0 {
            None
        } else if b <= 0xf7 {
            let n = b - 0xc0;
            if d.len() < 1 + n {
                None
            } else {
                Some((n as int, 1))
            }
        } else {
            let ll = b - 0xf7;
            if d.len() < 1 + ll {
                None
            } else {
                let n = be_bytes_to_nat(d.subrange(1, 1 + ll)) as int;
                if d[1] == 0 || n < 56 || d.len() < 1 + ll + n {
                    None
                } else {
                    Some((n, 1 + ll))
                }
            }
        }
    }
}

/// Parses an RLP scalar: a string whose payload is a minimal big-endian
/// integer of at most eight bytes.
pub open spec fn spec_rlp_u64(d: Seq<u8>) -> Option<(u64, int)> {
    match spec_rlp_string(d) {
        Option::None => None,
        Option::Some((p, n)) => {
            if p.len() > 8 || (p.len() > 0 && p[0] == 0) {
                None
            } else {
                Some((be_bytes_to_nat(p) as u64, n))
            }
        },
    }
}

/// Parses an RLP-encoded 256-bit hash: a string of exactly 32 bytes, read
/// big-endian into the four limbs.
pub open spec fn spec_rlp_b256(d: Seq<u8>) -> Option<(B256, int)> {
    match spec_rlp_string(d) {
        Option::None => None,
        Option::Some((p, n)) => {
            if p.len() != 32 {
                None
            } else {
                Some((
                    B256 {
                        w0: be_bytes_to_nat(p.subrange(0, 8)) as u64,
                        w1: be_bytes_to_nat(p.subrange(8, 16)) as u64,
                        w2: be_bytes_to_nat(p.subrange(16, 24)) as u64,
                        w3: be_bytes_to_nat(p.subrange(24, 32)) as u64,
                    },
                    n,
                ))
            }
        },
    }
}

/// Parses exactly `pl` bytes from the front of `d` as a sequence of RLP
/// byte strings.
pub open spec fn spec_rlp_strings(d: Seq<u8>, pl: int) -> Option<Seq<Seq<u8>>>
    decreases pl,
{
    if pl < 0 {
        None
    } else if pl == 0 {
        Some(Seq::empty())
    } else {
        match spec_rlp_string(d) {
            Option::None => None,
            Option::Some((p, n)) => {
                if 0 < n <= pl && n <= d.len() {
                    match spec_rlp_strings(d.skip(n), pl - n) {
                        Option::None => None,
                        Option::Some(rest) => Some(seq![p] + rest),
                    }
                } else {
                    None
                }
            },
        }
    }
}

/// The minimal big-endian byte string of a natural number; empty for zero.
pub open spec fn nat_be_bytes(v: nat) -> Seq<u8>
    decreases v,
{
    if v == 0 {
        Seq::empty()
    } else {
        nat_be_bytes(v / 256).push((v % 256) as u8)
    }
}

/// The RLP encoding of a scalar.
pub open spec fn spec_encode_u64(v: u64) -> Seq<u8> {
    if v == 0 {
        seq![0x80u8]
    } else if v < 0x80 {
        seq![v as u8]
    } else {
        seq![(0x80 + nat_be_bytes(v as nat).len()) as u8] + nat_be_bytes(v as nat)
    }
}

/// The RLP encoding of a byte string.
pub open spec fn spec_encode_bytes(p: Seq<u8>) -> Seq<u8> {
    if p.len() == 1 && p[0] < 0x80 {
        p
    } else if p.len() < 56 {
        seq![(0x80 + p.len()) as u8] + p
    } else {
        seq![(0xb7 + nat_be_bytes(p.len() as nat).len()) as u8]
            + nat_be_bytes(p.len() as nat) + p
    }
}

/// The RLP header of a list with a `pl`-byte payload.
pub open spec fn spec_encode_list_header(pl: nat) -> Seq<u8> {
    if pl < 56 {
        seq![(0xc0 + pl) as u8]
    } else {
        seq![(0xf7 + nat_be_bytes(pl).len()) as u8] + nat_be_bytes(pl)
    }
}

/// The `n` low big-endian bytes of a value.
pub open spec fn nat_be_fixed(v: nat, n: nat) -> Seq<u8>
    decreases n,
{
    if n == 0 {
        Seq::empty()
    } else {
        nat_be_fixed(v / 256, (n - 1) as nat).push((v % 256) as u8)
    }
}

/// The eight big-endian bytes of a 64-bit word.
pub open spec fn u64_be8(v: u64) -> Seq<u8> {
    nat_be_fixed(v as nat, 8)
}

/// Fixed-width big-endian bytes decode to the value, modulo the width.
pub proof fn lemma_be_fixed_value(v: nat, n: nat)
    ensures
        nat_be_fixed(v, n).len() == n,
        be_bytes_to_nat(nat_be_fixed(v, n)) == v % pow256(n),
    decreases n,
{
    if n == 0 {
        assert(pow256(0) == 1);
        assert(v % 1 == 0) by {
            vstd::arithmetic::div_mod::lemma_mod_breakdown(v as int, 1, 1);
        };
    } else {
        lemma_be_fixed_value(v / 256, (n - 1) as nat);
        lemma_pow256_mono(0, (n - 1) as nat);
        lemma_be_bytes_push(nat_be_fixed(v / 256, (n - 1) as nat), (v % 256) as u8);
        vstd::arithmetic::div_mod::lemma_mod_breakdown(
            v as int,
            256,
            pow256((n - 1) as nat) as int,
        );
        assert(pow256(n) == 256 * pow256((n - 1) as nat));
    }
}

/// The RLP encoding of a 256-bit hash: a 32-byte string.
pub open spec fn spec_encode_b256(h: B256) -> Seq<u8> {
    seq![0xa0u8] + u64_be8(h.w0) + u64_be8(h.w1) + u64_be8(h.w2) + u64_be8(h.w3)
}

/// Parses an RLP string item of `d` starting at `from`: returns the
/// absolute payload start, the payload length, and the bytes consumed,
/// exactly as [`spec_rlp_string`] reads the suffix of `d` at `from`.
pub fn rlp_string_range(d: &Vec<u8>, from: usize) -> (r: Option<(usize, usize, usize)>)
    requires
        from <= d@.len(),
    ensures
        match r {
            Option::Some(t) => {
                &&& spec_rlp_string(d@.skip(from as int))
                    == Some((d@.subrange(t.0 as int, t.0 + t.1), t.2 as int))
                &&& from <= t.0
                &&& t.0 + t.1 <= d@.len()
                &&& from + t.2 <= d@.len()
                &&& t.0 + t.1 <= from + t.2
                &&& 0 < t.2
            },
            Option::None => spec_rlp_string(d@.skip(from as int)) is None,
        },
{
    let ghost tail = d@.skip(from as int);
    if d.len() == from {
        return None;
    }
    let b = d[from];
    proof {
        assert(tail[0] == d@[from as int]);
    }
    if b < 0x80 {
        proof {
            assert(d@.subrange(from as int, from + 1) =~= seq![b]);
        }
        Some((from, 1, 1))
    } else if b <= 0xb7 {
        let n = (b - 0x80) as usize;
        if d.len() - from < 1 + n {
            return None;
        }
        if n == 1 && d[from + 1] < 0x80 {
            proof {
                assert(tail[1] == d@[from + 1]);
            }
            return None;
        }
        proof {
            if n == 1 {
                assert(tail[1] == d@[from + 1]);
            }
            assert(d@.subrange(from + 1, from + 1 + n) =~= tail.subrange(1, 1 + n as int));
        }
        Some((from + 1, n, 1 + n))
    } else if b <= 0xbf {
        let ll = (b - 0xb7) as usize;
        if d.len() - from < 1 + ll {
            return None;
        }
        let n64 = read_be_u64(d, from + 1, ll);
        proof {
            assert(d@.subrange(from + 1, from + 1 + ll) =~= tail.subrange(1, 1 + ll as int));
            lemma_be_bytes_bound(tail.subrange(1, 1 + ll as int));
            lemma_pow256_values();
            lemma_pow256_mono(ll as nat, 8);
            assert(tail[1] == d@[from + 1]);
        }
        if d[from + 1] == 0 || n64 < 56 {
            return None;
        }
        if ((d.len() - from - 1 - ll) as u64) < n64 {
            return None;
        }
        let n = n64 as usize;
        proof {
            assert(d@.subrange(from + 1 + ll, from + 1 + ll + n)
                =~= tail.subrange(1 + ll as int, 1 + ll as int + n as int));
        }
        Some((from + 1 + ll, n, 1 + ll + n))
    } else {
        None
    }
}

/// Parses an RLP list header of `d` starting at `from`: returns the payload
/// length and the header length, exactly as [`spec_rlp_list_header`] reads
/// the suffix of `d` at `from`.
pub fn rlp_list_header(d: &Vec<u8>, from: usize) -> (r: Option<(usize, usize)>)
    requires
        from <= d@.len(),
    ensures
        match r {
            Option::Some(t) => {
                &&& spec_rlp_list_header(d@.skip(from as int)) == Some((t.0 as int, t.1 as int))
                &&& from + t.1 + t.0 <= d@.len()
                &&& 0 < t.1
            },
            Option::None => spec_rlp_list_header(d@.skip(from as int)) is None,
        },
{
    let ghost tail = d@.skip(from as int);
    if d.len() == from {
        return None;
    }
    let b = d[from];
    proof {
        assert(tail[0] == d@[from as int]);
    }
    if b < 0xc0 {
        None
    } else if b <= 0xf7 {
        let n = (b - 0xc0) as usize;
        if d.len() - from < 1 + n {
            return None;
        }
        Some((n, 1))
    } else {
        let ll = (b - 0xf7) as usize;
        if d.len() - from < 1 + ll {
            return None;
        }
        let n64 = read_be_u64(d, from + 1, ll);
        proof {
            assert(d@.subrange(from + 1, from + 1 + ll) =~= tail.subrange(1, 1 + ll as int));
            lemma_be_bytes_bound(tail.subrange(1, 1 + ll as int));
            lemma_pow256_values();
            lemma_pow256_mono(ll as nat, 8);
            assert(tail[1] == d@[from + 1]);
        }
        if d[from + 1] == 0 || n64 < 56 {
            return None;
        }
        if ((d.len() - from - 1 - ll) as u64) < n64 {
            return None;
        }
        let n = n64 as usize;
        Some((n, 1 + ll))
    }
}

/// Parses an RLP scalar of `d` starting at `from`, exactly as
/// [`spec_rlp_u64`] reads the suffix of `d` at `from`.
pub fn rlp_u64(d: &Vec<u8>, from: usize) -> (r: Option<(u64, usize)>)
    requires
        from <= d@.len(),
    ensures
        match r {
            Option::Some(t) => {
                &&& spec_rlp_u64(d@.skip(from as int)) == Some((t.0, t.1 as int))
                &&& from + t.1 <= d@.len()
                &&& 0 < t.1
            },
            Option::None => spec_rlp_u64(d@.skip(from as int)) is None,
        },
{
    match rlp_string_range(d, from) {
        Option::None => None,
        Option::Some((ps, pl, n)) => {
            if pl > 8 {
                return None;
            }
            if pl > 0 && d[ps] == 0 {
                proof {
                    assert(d@.subrange(ps as int, ps + pl)[0] == d@[ps as int]);
                }
                return None;
            }
            let v = read_be_u64(d, ps, pl);
            proof {
                if pl > 0 {
                    assert(d@.subrange(ps as int, ps + pl)[0] == d@[ps as int]);
                }
            }
            Some((v, n))
        },
    }
}

/// Parses an RLP-encoded 256-bit hash of `d` starting at `from`, exactly
/// as [`spec_rlp_b256`] reads the suffix of `d` at `from`.
pub fn rlp_b256(d: &Vec<u8>, from: usize) -> (r: Option<(B256, usize)>)
    requires
        from <= d@.len(),
    ensures
        match r {
            Option::Some(t) => {
                &&& spec_rlp_b256(d@.skip(from as int)) == Some((t.0, t.1 as int))
                &&& from + t.1 <= d@.len()
                &&& 0 < t.1
            },
            Option::None => spec_rlp_b256(d@.skip(from as int)) is None,
        },
{
    let _dl: usize = d.len();
    match rlp_string_range(d, from) {
        Option::None => None,
        Option::Some((ps, pl, n)) => {
            if pl != 32 {
                return None;
            }
            let w0 = read_be_u64(d, ps, 8);
            let w1 = read_be_u64(d, ps + 8, 8);
            let w2 = read_be_u64(d, ps + 16, 8);
            let w3 = read_be_u64(d, ps + 24, 8);
            proof {
                let p = d@.subrange(ps as int, ps + 32);
                assert(d@.subrange(ps as int, ps + 8) =~= p.subrange(0, 8));
                assert(d@.subrange(ps + 8, ps + 16) =~= p.subrange(8, 16));
                assert(d@.subrange(ps + 16, ps + 24) =~= p.subrange(16, 24));
                assert(d@.subrange(ps + 24, ps + 32) =~= p.subrange(24, 32));
            }
            Some((B256 { w0, w1, w2, w3 }, n))
        },
    }
}

/// Copies `len` bytes of `d` starting at `start` into a fresh vector.
pub fn copy_range(d: &Vec<u8>, start: usize, len: usize) -> (r: Vec<u8>)
    requires
        start + len <= d@.len(),
    ensures
        r@ == d@.subrange(start as int, start + len),
{
    let mut r: Vec<u8> = Vec::new();
    let mut i: usize = 0;
    let dl: usize = d.len();
    while i < len
        invariant
            i <= len,
            start + len <= d@.len(),
            d@.len() == dl,
            r@ =~= d@.subrange(start as int, start + i),
        decreases len - i,
    {
        r.push(d[start + i]);
        proof {
            assert(r@ =~= d@.subrange(start as int, start + i + 1));
        }
        i = i + 1;
    }
    proof {
        assert(r@ =~= d@.subrange(start as int, start + len));
    }
    r
}

/// `nat_be_bytes` of a 64-bit value has at most eight bytes.
pub proof fn lemma_nbb_len(v: nat, k: nat)
    requires
        v < pow256(k),
    ensures
        nat_be_bytes(v).len() <= k,
    decreases k,
{
    if v > 0 {
        assert(k > 0);
        assert(pow256(k) == 256 * pow256((k - 1) as nat));
        vstd::arithmetic::div_mod::lemma_fundamental_div_mod(v as int, 256);
        assert(v / 256 < pow256((k - 1) as nat)) by {
            if v / 256 >= pow256((k - 1) as nat) {
                vstd::arithmetic::mul::lemma_mul_inequality(
                    pow256((k - 1) as nat) as int,
                    (v / 256) as int,
                    256,
                );
            }
        };
        lemma_nbb_len(v / 256, (k - 1) as nat);
    }
}

/// A nonzero value's minimal bytes are nonempty and carry no leading zero.
pub proof fn lemma_nbb_no_leading_zero(v: nat)
    requires
        v > 0,
    ensures
        nat_be_bytes(v).len() >= 1,
        nat_be_bytes(v)[0] != 0,
    decreases v,
{
    vstd::arithmetic::div_mod::lemma_fundamental_div_mod(v as int, 256);
    if v / 256 == 0 {
        assert(nat_be_bytes(0) =~= Seq::<u8>::empty());
        assert(nat_be_bytes(v) =~= seq![(v % 256) as u8]);
    } else {
        lemma_nbb_no_leading_zero(v / 256);
        assert(nat_be_bytes(v)[0] == nat_be_bytes(v / 256)[0]);
    }
}

/// Reading the minimal bytes of a value back gives the value.
pub proof fn lemma_nbb_value(v: nat)
    ensures
        be_bytes_to_nat(nat_be_bytes(v)) == v,
    decreases v,
{
    if v > 0 {
        vstd::arithmetic::div_mod::lemma_fundamental_div_mod(v as int, 256);
        lemma_nbb_value(v / 256);
        lemma_be_bytes_push(nat_be_bytes(v / 256), (v % 256) as u8);
    }
}

/// Writes the minimal big-endian bytes of a 64-bit value.
pub fn u64_to_min_be(v: u64) -> (r: Vec<u8>)
    ensures
        r@ == nat_be_bytes(v as nat),
        r@.len() <= 8,
    decreases v,
{
    proof {
        lemma_pow256_values();
        lemma_nbb_len(v as nat, 8);
    }
    if v == 0 {
        let r: Vec<u8> = Vec::new();
        proof {
            assert(r@ =~= nat_be_bytes(0));
        }
        r
    } else {
        proof {
            vstd::arithmetic::div_mod::lemma_div_decreases(v as int, 256);
            vstd::arithmetic::div_mod::lemma_div_pos_is_pos(v as int, 256);
        }
        let mut r = u64_to_min_be(v / 256);
        r.push((v % 256) as u8);
        proof {
            assert(r@ =~= nat_be_bytes((v / 256) as nat).push((v as nat % 256) as u8));
        }
        r
    }
}

/// Appends every byte of `src` to `dst`.
pub fn push_all(dst: &mut Vec<u8>, src: &Vec<u8>)
    ensures
        final(dst)@ == old(dst)@ + src@,
{
    let mut i: usize = 0;
    let n = src.len();
    let ghost start = dst@;
    proof {
        assert(start + src@.subrange(0, 0) =~= start);
    }
    while i < n
        invariant
            i <= n,
            n == src@.len(),
            dst@ =~= start + src@.subrange(0, i as int),
        decreases n - i,
    {
        dst.push(src[i]);
        proof {
            assert(src@.subrange(0, i + 1) =~= src@.subrange(0, i as int).push(src@[i as int]));
        }
        i = i + 1;
    }
    proof {
        assert(src@.subrange(0, n as int) =~= src@);
    }
}

/// Appends the RLP encoding of a scalar to `dst`.
pub fn encode_u64_into(dst: &mut Vec<u8>, v: u64)
    ensures
        final(dst)@ == old(dst)@ + spec_encode_u64(v),
{
    if v == 0 {
        dst.push(0x80u8);
        proof {
            assert(dst@ =~= old(dst)@ + spec_encode_u64(0));
        }
    } else if v < 0x80 {
        dst.push(v as u8);
        proof {
            assert(dst@ =~= old(dst)@ + spec_encode_u64(v));
        }
    } else {
        let b = u64_to_min_be(v);
        dst.push((0x80 + b.len()) as u8);
        push_all(dst, &b);
        proof {
            assert(dst@ =~= old(dst)@ + spec_encode_u64(v));
        }
    }
}

/// Appends the RLP encoding of a byte string to `dst`.
pub fn encode_bytes_into(dst: &mut Vec<u8>, p: &Vec<u8>)
    ensures
        final(dst)@ == old(dst)@ + spec_encode_bytes(p@),
{
    let n = p.len();
    proof {
        lemma_pow256_values();
        lemma_nbb_len(p@.len() as nat, 8);
    }
    if p.len() == 1 && p[0] < 0x80 {
        dst.push(p[0]);
        proof {
            assert(p@ =~= seq![p@[0]]);
            assert(dst@ =~= old(dst)@ + spec_encode_bytes(p@));
        }
    } else if p.len() < 56 {
        dst.push((0x80 + p.len()) as u8);
        push_all(dst, p);
        proof {
            assert(dst@ =~= old(dst)@ + spec_encode_bytes(p@));
        }
    } else {
        let lb = u64_to_min_be(p.len() as u64);
        dst.push((0xb7 + lb.len()) as u8);
        push_all(dst, &lb);
        push_all(dst, p);
        proof {
            assert(dst@ =~= old(dst)@ + spec_encode_bytes(p@));
        }
    }
}

/// Appends the RLP header of a list with a `pl`-byte payload to `dst`.
pub fn encode_list_header_into(dst: &mut Vec<u8>, pl: usize)
    ensures
        final(dst)@ == old(dst)@ + spec_encode_list_header(pl as nat),
{
    proof {
        lemma_pow256_values();
        lemma_nbb_len(pl as nat, 8);
    }
    if pl < 56 {
        dst.push((0xc0 + pl) as u8);
        proof {
            assert(dst@ =~= old(dst)@ + spec_encode_list_header(pl as nat));
        }
    } else {
        let lb = u64_to_min_be(pl as u64);
        dst.push((0xf7 + lb.len()) as u8);
        push_all(dst, &lb);
        proof {
            assert(dst@ =~= old(dst)@ + spec_encode_list_header(pl as nat));
        }
    }
}

/// Appends the eight big-endian bytes of a 64-bit word to `dst`.
pub fn push_u64_be8(dst: &mut Vec<u8>, v: u64)
    ensures
        final(dst)@ == old(dst)@ + u64_be8(v),
{
    proof {
        lemma_pow256_values();
    }
    let b0 = ((v / 0x100000000000000) % 256) as u8;
    let b1 = ((v / 0x1000000000000) % 256) as u8;
    let b2 = ((v / 0x10000000000) % 256) as u8;
    let b3 = ((v / 0x100000000) % 256) as u8;
    let b4 = ((v / 0x1000000) % 256) as u8;
    let b5 = ((v / 0x10000) % 256) as u8;
    let b6 = ((v / 0x100) % 256) as u8;
    let b7 = (v % 256) as u8;
    dst.push(b0);
    dst.push(b1);
    dst.push(b2);
    dst.push(b3);
    dst.push(b4);
    dst.push(b5);
    dst.push(b6);
    dst.push(b7);
    proof {
        let q1 = v as nat / 256;
        let q2 = v as nat / 0x10000;
        let q3 = v as nat / 0x1000000;
        let q4 = v as nat / 0x100000000;
        let q5 = v as nat / 0x10000000000;
        let q6 = v as nat / 0x1000000000000;
        let q7 = v as nat / 0x100000000000000;
        vstd::arithmetic::div_mod::lemma_div_denominator(v as int, 256, 256);
        vstd::arithmetic::div_mod::lemma_div_denominator(v as int, 0x10000, 256);
        vstd::arithmetic::div_mod::lemma_div_denominator(v as int, 0x1000000, 256);
        vstd::arithmetic::div_mod::lemma_div_denominator(v as int, 0x100000000, 256);
        vstd::arithmetic::div_mod::lemma_div_denominator(v as int, 0x10000000000, 256);
        vstd::arithmetic::div_mod::lemma_div_denominator(v as int, 0x1000000000000, 256);
        assert(q7 / 256 == 0) by {
            vstd::arithmetic::div_mod::lemma_div_denominator(v as int, 0x100000000000000, 256);
        };
        assert(nat_be_fixed(0, 0) =~= Seq::<u8>::empty());
        assert(nat_be_fixed(q7, 1) =~= seq![b0]);
        assert(nat_be_fixed(q6, 2) =~= seq![b0, b1]);
        assert(nat_be_fixed(q5, 3) =~= seq![b0, b1, b2]);
        assert(nat_be_fixed(q4, 4) =~= seq![b0, b1, b2, b3]);
        assert(nat_be_fixed(q3, 5) =~= seq![b0, b1, b2, b3, b4]);
        assert(nat_be_fixed(q2, 6) =~= seq![b0, b1, b2, b3, b4, b5]);
        assert(nat_be_fixed(q1, 7) =~= seq![b0, b1, b2, b3, b4, b5, b6]);
        assert(u64_be8(v) =~= seq![b0, b1, b2, b3, b4, b5, b6, b7]);
        assert(dst@ =~= old(dst)@ + u64_be8(v));
    }
}

/// Appends the RLP encoding of a 256-bit hash to `dst`.
pub fn encode_b256_into(dst: &mut Vec<u8>, h: &crate::types::B256)
    ensures
        final(dst)@ == old(dst)@ + spec_encode_b256(*h),
{
    dst.push(0xa0u8);
    push_u64_be8(dst, h.w0);
    push_u64_be8(dst, h.w1);
    push_u64_be8(dst, h.w2);
    push_u64_be8(dst, h.w3);
    proof {
        assert(dst@ =~= old(dst)@ + spec_encode_b256(*h));
    }
}

/// The mathematical values of a sequence of byte vectors.
pub open spec fn txs_view(txs: Seq<Vec<u8>>) -> Seq<Seq<u8>> {
    txs.map_values(|t: Vec<u8>| t@)
}

/// Parses exactly `pl` bytes of `d` starting at `from` as a sequence of
/// RLP byte strings, exactly as [`spec_rlp_strings`] reads them.
pub fn rlp_strings(d: &Vec<u8>, from: usize, pl: usize) -> (r: Option<(Vec<Vec<u8>>, usize)>)
    requires
        from + pl <= d@.len(),
    ensures
        match r {
            Option::Some(t) => {
                &&& spec_rlp_strings(d@.skip(from as int), pl as int) == Some(txs_view(t.0@))
                &&& t.1 == pl
            },
            Option::None => spec_rlp_strings(d@.skip(from as int), pl as int) is None,
        },
{
    let mut items: Vec<Vec<u8>> = Vec::new();
    let mut cur: usize = from;
    let dl: usize = d.len();
    let end: usize = from + pl;
    loop
        invariant
            from <= cur <= end,
            end == from + pl,
            end <= d@.len(),
            d@.len() == dl,
            match spec_rlp_strings(d@.skip(cur as int), end - cur) {
                Option::None => spec_rlp_strings(d@.skip(from as int), pl as int) is None,
                Option::Some(rest) => spec_rlp_strings(d@.skip(from as int), pl as int)
                    == Some(txs_view(items@) + rest),
            },
        ensures
            spec_rlp_strings(d@.skip(from as int), pl as int) == Some(txs_view(items@)),
        decreases end - cur,
    {
        if cur == end {
            proof {
                assert(txs_view(items@) + Seq::<Seq<u8>>::empty() =~= txs_view(items@));
            }
            break;
        }
        match rlp_string_range(d, cur) {
            Option::None => {
                return None;
            },
            Option::Some((ps, ipl, n)) => {
                if n > end - cur {
                    return None;
                }
                let item = copy_range(d, ps, ipl);
                proof {
                    assert(d@.skip(cur as int).skip(n as int) =~= d@.skip(cur + n));
                    assert(txs_view(items@.push(item)) =~= txs_view(items@) + seq![item@]);
                    if spec_rlp_strings(d@.skip(cur + n), end - cur - n) is Some {
                        let rest = spec_rlp_strings(d@.skip(cur + n), end - cur - n)->Some_0;
                        assert(txs_view(items@) + (seq![item@] + rest)
                            =~= txs_view(items@.push(item)) + rest);
                    }
                }
                items.push(item);
                cur = cur + n;
            },
        }
    }
    Some((items, pl))
}

/// Decoding an encoded scalar from the front of any stream returns the
/// scalar and consumes exactly its encoding.
pub proof fn lemma_decode_encode_u64(v: u64, rest: Seq<u8>)
    ensures
        spec_rlp_u64(spec_encode_u64(v) + rest)
            == Some((v, spec_encode_u64(v).len() as int)),
{
    let e = spec_encode_u64(v);
    let d = e + rest;
    if v == 0 {
        assert(d[0] == 0x80);
        assert(d.subrange(1, 1) =~= Seq::<u8>::empty());
        assert(be_bytes_to_nat(Seq::<u8>::empty()) == 0);
        assert(spec_rlp_u64(d) == Some((0u64, 1int)));
    } else if v < 0x80 {
        assert(d[0] == v as u8);
        let p = seq![v as u8];
        assert(p.drop_last() =~= Seq::<u8>::empty());
        assert(be_bytes_to_nat(Seq::<u8>::empty()) == 0);
        assert(be_bytes_to_nat(p) == v);
        assert(spec_rlp_u64(d) == Some((v, 1int)));
    } else {
        let nb = nat_be_bytes(v as nat);
        lemma_pow256_values();
        lemma_nbb_len(v as nat, 8);
        lemma_nbb_no_leading_zero(v as nat);
        lemma_nbb_value(v as nat);
        let len = nb.len() as int;
        assert(e == seq![(0x80 + len) as u8] + nb);
        assert(d[0] == (0x80 + len) as u8);
        let b = d[0];
        assert(0x81 <= b <= 0x88);
        let n = b - 0x80;
        assert(n == len);
        assert(d.len() >= 1 + n);
        assert(d[1] == nb[0]);
        if n == 1 {
            if (v as nat) / 256 > 0 {
                lemma_nbb_no_leading_zero((v as nat) / 256);
                assert(nat_be_bytes(v as nat).len() >= 2);
                assert(false);
            }
            vstd::arithmetic::div_mod::lemma_fundamental_div_mod(v as int, 256);
            assert(v < 256);
            assert(nb =~= seq![(v % 256) as u8]);
            assert(d[1] == v as u8);
            assert(!(d[1] < 0x80));
        }
        assert(d.subrange(1, 1 + n) =~= nb);
        assert(spec_rlp_string(d) == Some((nb, 1 + n)));
        assert(nb.len() <= 8 && nb[0] != 0);
        assert(spec_rlp_u64(d) == Some((v, 1 + n)));
        assert(e.len() == 1 + n);
    }
}

/// Decoding an encoded byte string from the front of any stream returns
/// the payload and consumes exactly its encoding.
pub proof fn lemma_decode_encode_bytes(p: Seq<u8>, rest: Seq<u8>)
    requires
        p.len() < 0x10000000000000000,
    ensures
        spec_rlp_string(spec_encode_bytes(p) + rest)
            == Some((p, spec_encode_bytes(p).len() as int)),
{
    let e = spec_encode_bytes(p);
    let d = e + rest;
    lemma_pow256_values();
    if p.len() == 1 && p[0] < 0x80 {
        assert(d[0] == p[0]);
        assert(seq![d[0]] =~= p);
        assert(spec_rlp_string(d) == Some((p, 1int)));
    } else if p.len() < 56 {
        assert(e == seq![(0x80 + p.len()) as u8] + p);
        let b = d[0];
        assert(b == (0x80 + p.len()) as u8);
        assert(0x80 <= b <= 0xb7);
        let n = b - 0x80;
        assert(n == p.len());
        assert(d.len() >= 1 + n);
        if n == 1 {
            assert(d[1] == p[0]);
            assert(!(p[0] < 0x80));
        }
        assert(d.subrange(1, 1 + n) =~= p);
        assert(spec_rlp_string(d) == Some((p, 1 + n)));
    } else {
        let nb = nat_be_bytes(p.len() as nat);
        lemma_nbb_len(p.len() as nat, 8);
        lemma_nbb_no_leading_zero(p.len() as nat);
        lemma_nbb_value(p.len() as nat);
        let ll = nb.len() as int;
        assert(1 <= ll <= 8);
        assert(e == seq![(0xb7 + ll) as u8] + nb + p);
        let b = d[0];
        assert(b == (0xb7 + ll) as u8);
        assert(0xb8 <= b <= 0xbf);
        assert(b - 0xb7 == ll);
        assert(d.len() >= 1 + ll);
        assert(d.subrange(1, 1 + ll) =~= nb);
        assert(d[1] == nb[0] && d[1] != 0);
        assert(be_bytes_to_nat(d.subrange(1, 1 + ll)) == p.len());
        assert(d.len() >= 1 + ll + p.len());
        assert(d.subrange(1 + ll, 1 + ll + p.len() as int) =~= p);
        assert(spec_rlp_string(d) == Some((p, 1 + ll + p.len() as int)));
    }
}

/// Decoding an encoded list header from the front of a stream that holds
/// the whole payload returns the payload length and consumes exactly the
/// header.
pub proof fn lemma_decode_encode_list_header(pl: nat, rest: Seq<u8>)
    requires
        pl < 0x10000000000000000,
        rest.len() >= pl,
    ensures
        spec_rlp_list_header(spec_encode_list_header(pl) + rest)
            == Some((pl as int, spec_encode_list_header(pl).len() as int)),
{
    let e = spec_encode_list_header(pl);
    let d = e + rest;
    lemma_pow256_values();
    if pl < 56 {
        let b = d[0];
        assert(b == (0xc0 + pl) as u8);
        assert(0xc0 <= b <= 0xf7);
        assert(b - 0xc0 == pl);
        assert(d.len() >= 1 + pl);
        assert(spec_rlp_list_header(d) == Some((pl as int, 1int)));
    } else {
        let nb = nat_be_bytes(pl);
        lemma_nbb_len(pl, 8);
        lemma_nbb_no_leading_zero(pl);
        lemma_nbb_value(pl);
        let ll = nb.len() as int;
        assert(1 <= ll <= 8);
        assert(e == seq![(0xf7 + ll) as u8] + nb);
        let b = d[0];
        assert(b == (0xf7 + ll) as u8);
        assert(b > 0xf7);
        assert(b - 0xf7 == ll);
        assert(d.len() >= 1 + ll);
        assert(d.subrange(1, 1 + ll) =~= nb);
        assert(d[1] == nb[0] && d[1] != 0);
        assert(be_bytes_to_nat(d.subrange(1, 1 + ll)) == pl);
        assert(d.len() >= 1 + ll + pl);
        assert(spec_rlp_list_header(d) == Some((pl as int, 1 + ll)));
    }
}

/// Decoding an encoded 256-bit hash from the front of any stream returns
/// the hash and consumes exactly its 33 bytes.
pub proof fn lemma_decode_encode_b256(h: B256, rest: Seq<u8>)
    ensures
        spec_rlp_b256(spec_encode_b256(h) + rest) == Some((h, 33int)),
        spec_encode_b256(h).len() == 33,
{
    let e = spec_encode_b256(h);
    let d = e + rest;
    lemma_pow256_values();
    lemma_be_fixed_value(h.w0 as nat, 8);
    lemma_be_fixed_value(h.w1 as nat, 8);
    lemma_be_fixed_value(h.w2 as nat, 8);
    lemma_be_fixed_value(h.w3 as nat, 8);
    assert(e.len() == 33);
    let b = d[0];
    assert(b == 0xa0);
    let n = b - 0x80;
    assert(n == 32);
    assert(d.len() >= 33);
    let p = d.subrange(1, 33);
    assert(p =~= u64_be8(h.w0) + u64_be8(h.w1) + u64_be8(h.w2) + u64_be8(h.w3));
    assert(p.subrange(0, 8) =~= u64_be8(h.w0));
    assert(p.subrange(8, 16) =~= u64_be8(h.w1));
    assert(p.subrange(16, 24) =~= u64_be8(h.w2));
    assert(p.subrange(24, 32) =~= u64_be8(h.w3));
    vstd::arithmetic::div_mod::lemma_small_mod(h.w0 as nat, pow256(8));
    vstd::arithmetic::div_mod::lemma_small_mod(h.w1 as nat, pow256(8));
    vstd::arithmetic::div_mod::lemma_small_mod(h.w2 as nat, pow256(8));
    vstd::arithmetic::div_mod::lemma_small_mod(h.w3 as nat, pow256(8));
    assert(spec_rlp_string(d) == Some((p, 33int)));
    assert(spec_rlp_b256(d) == Some((h, 33int)));
}

} // verus!

