//! Channel frames and their wire format.
//!
//! A batcher transaction's data is one derivation-version byte followed by
//! concatenated frames. Each frame is
//! `channel_id (16 bytes) || frame_number (u16 BE) || data_len (u32 BE) ||
//! data || is_last (u8, 0 or 1)`.

use vstd::prelude::*;
use crate::types::DERIVATION_VERSION_0;

verus! {

/// A channel fragment carried in a batcher transaction.
#[derive(Clone, Debug, PartialEq, Eq)]
pub struct Frame {
    /// The 128-bit channel identifier, read big-endian from the wire.
    pub id: u128,
    /// The index of this frame within its channel.
    pub number: u16,
    /// The fragment of the channel payload this frame carries.
    pub data: Vec<u8>,
    /// Whether this frame closes the channel.
    pub is_last: bool,
}

/// The mathematical value of a [`Frame`].
pub ghost struct FrameV {
    /// The 128-bit channel identifier.
    pub id: u128,
    /// The index of this frame within its channel.
    pub number: u16,
    /// The fragment of the channel payload this frame carries.
    pub data: Seq<u8>,
    /// Whether this frame closes the channel.
    pub is_last: bool,
}

impl View for Frame {
    type V = FrameV;

    open spec fn view(&self) -> FrameV {
        FrameV { id: self.id, number: self.number, data: self.data@, is_last: self.is_last }
    }
}

/// The mathematical values of a sequence of frames.
pub open spec fn frames_view(fs: Seq<Frame>) -> Seq<FrameV> {
    fs.map_values(|f: Frame| f@)
}

/// 256 raised to the given power.
pub open spec fn pow256(n: nat) -> nat
    decreases n,
{
    if n == 0 {
        1
    } else {
        256 * pow256((n - 1) as nat)
    }
}

/// The value of a big-endian byte string.
pub open spec fn be_bytes_to_nat(s: Seq<u8>) -> nat
    decreases s.len(),
{
    if s.len() == 0 {
        0
    } else {
        (be_bytes_to_nat(s.drop_last()) * 256 + s.last()) as nat
    }
}

/// A big-endian byte string of length `n` is below `pow256(n)`.
pub proof fn lemma_be_bytes_bound(s: Seq<u8>)
    ensures
        be_bytes_to_nat(s) < pow256(s.len() as nat),
    decreases s.len(),
{
    if s.len() > 0 {
        lemma_be_bytes_bound(s.drop_last());
        let p = pow256((s.len() - 1) as nat);
        vstd::arithmetic::mul::lemma_mul_inequality(
            be_bytes_to_nat(s.drop_last()) as int,
            p - 1,
            256,
        );
    }
}

/// Appending a byte multiplies the value by 256 and adds the byte.
pub proof fn lemma_be_bytes_push(s: Seq<u8>, b: u8)
    ensures
        be_bytes_to_nat(s.push(b)) == be_bytes_to_nat(s) * 256 + b,
{
    assert(s.push(b).drop_last() =~= s);
    assert(s.push(b).last() == b);
}

/// The values of the fixed powers of 256 this module reads.
pub proof fn lemma_pow256_values()
    ensures
        pow256(0) == 1,
        pow256(1) == 0x100,
        pow256(2) == 0x10000,
        pow256(3) == 0x1000000,
        pow256(4) == 0x100000000,
        pow256(5) == 0x10000000000,
        pow256(6) == 0x1000000000000,
        pow256(7) == 0x100000000000000,
        pow256(8) == 0x10000000000000000,
        pow256(16) == 0x100000000000000000000000000000000,
{
    assert(pow256(0) == 1);
    assert(pow256(1) == 256);
    assert(pow256(2) == 0x10000);
    assert(pow256(3) == 0x1000000);
    assert(pow256(4) == 0x100000000);
    assert(pow256(5) == 0x10000000000);
    assert(pow256(6) == 0x1000000000000);
    assert(pow256(7) == 0x100000000000000);
    assert(pow256(8) == 0x10000000000000000);
    assert(pow256(9) == 0x1000000000000000000);
    assert(pow256(10) == 0x100000000000000000000);
    assert(pow256(11) == 0x10000000000000000000000);
    assert(pow256(12) == 0x1000000000000000000000000);
    assert(pow256(13) == 0x100000000000000000000000000);
    assert(pow256(14) == 0x10000000000000000000000000000);
    assert(pow256(15) == 0x1000000000000000000000000000000);
    assert(pow256(16) == 0x100000000000000000000000000000000);
}

/// Reads `n` big-endian bytes starting at `from` as an integer.
pub fn read_be_u64(d: &Vec<u8>, from: usize, n: usize) -> (r: u64)
    requires
        n <= 8,
        from + n <= d@.len(),
    ensures
        r == be_bytes_to_nat(d@.subrange(from as int, from + n)),
{
    let mut acc: u64 = 0;
    let mut i: usize = 0;
    let dl: usize = d.len();
    proof {
        assert(d@.subrange(from as int, from as int) =~= Seq::<u8>::empty());
    }
    while i < n
        invariant
            i <= n,
            n <= 8,
            from + n <= d@.len(),
            d@.len() == dl,
            acc == be_bytes_to_nat(d@.subrange(from as int, from + i)),
            acc < pow256(i as nat),
        decreases n - i,
    {
        let b = d[from + i];
        proof {
            lemma_pow256_values();
            lemma_be_bytes_bound(d@.subrange(from as int, from + i));
            assert(d@.subrange(from as int, from + i + 1)
                =~= d@.subrange(from as int, from + i).push(b));
            lemma_be_bytes_push(d@.subrange(from as int, from + i), b);
            vstd::arithmetic::mul::lemma_mul_inequality(
                acc as int,
                pow256(i as nat) - 1,
                256,
            );
            assert(pow256((i + 1) as nat) == 256 * pow256(i as nat));
            assert(pow256((i + 1) as nat) <= pow256(8)) by {
                lemma_pow256_mono((i + 1) as nat, 8);
            };
        }
        acc = acc * 256 + (b as u64);
        i = i + 1;
    }
    acc
}

/// `pow256` is monotone in its exponent.
pub proof fn lemma_pow256_mono(a: nat, b: nat)
    requires
        a <= b,
    ensures
        pow256(a) <= pow256(b),
    decreases b,
{
    if a < b {
        lemma_pow256_mono(a, (b - 1) as nat);
        vstd::arithmetic::mul::lemma_mul_inequality(1, 256, pow256((b - 1) as nat) as int);
    }
}

/// Reads 16 big-endian bytes starting at `from` as a channel id.
pub fn read_be_u128(d: &Vec<u8>, from: usize) -> (r: u128)
    requires
        from + 16 <= d@.len(),
    ensures
        r == be_bytes_to_nat(d@.subrange(from as int, from + 16)),
{
    let mut acc: u128 = 0;
    let mut i: usize = 0;
    let dl: usize = d.len();
    proof {
        assert(d@.subrange(from as int, from as int) =~= Seq::<u8>::empty());
    }
    while i < 16
        invariant
            i <= 16,
            from + 16 <= d@.len(),
            d@.len() == dl,
            acc == be_bytes_to_nat(d@.subrange(from as int, from + i)),
            acc < pow256(i as nat),
        decreases 16 - i,
    {
        let b = d[from + i];
        proof {
            lemma_pow256_values();
            lemma_be_bytes_bound(d@.subrange(from as int, from + i));
            assert(d@.subrange(from as int, from + i + 1)
                =~= d@.subrange(from as int, from + i).push(b));
            lemma_be_bytes_push(d@.subrange(from as int, from + i), b);
            vstd::arithmetic::mul::lemma_mul_inequality(
                acc as int,
                pow256(i as nat) - 1,
                256,
            );
            assert(pow256((i + 1) as nat) == 256 * pow256(i as nat));
            lemma_pow256_mono((i + 1) as nat, 16);
        }
        acc = acc * 256 + (b as u128);
        i = i + 1;
    }
    acc
}

/// Parses one frame from the front of `d`. Returns the frame's value and
/// the number of bytes it occupies; `None` when any field is truncated or
/// the closing byte is not 0 or 1.
pub open spec fn spec_parse_frame(d: Seq<u8>) -> Option<(FrameV, int)> {
    if d.len() < 23 {
        None
    } else {
        let dlen = be_bytes_to_nat(d.subrange(18, 22)) as int;
        if d.len() < 23 + dlen {
            None
        } else {
            let closing = d[22 + dlen];
            if closing != 0 && closing != 1 {
                None
            } else {
                Some((
                    FrameV {
                        id: be_bytes_to_nat(d.subrange(0, 16)) as u128,
                        number: be_bytes_to_nat(d.subrange(16, 18)) as u16,
                        data: d.subrange(22, 22 + dlen),
                        is_last: closing == 1,
                    },
                    23 + dlen,
                ))
            }
        }
    }
}

/// Parses the frames concatenated in `d` until the bytes are exhausted;
/// `None` when any frame is malformed.
pub open spec fn spec_parse_frames_from(d: Seq<u8>) -> Option<Seq<FrameV>>
    decreases d.len(),
{
    if d.len() == 0 {
        Some(Seq::empty())
    } else {
        match spec_parse_frame(d) {
            Option::None => None,
            Option::Some((f, n)) => {
                if 0 < n <= d.len() {
                    match spec_parse_frames_from(d.skip(n)) {
                        Option::None => None,
                        Option::Some(rest) => Some(seq![f] + rest),
                    }
                } else {
                    None
                }
            },
        }
    }
}

/// Parses a batcher transaction's data: one derivation-version byte, then
/// at least one frame, with nothing left over.
pub open spec fn spec_parse_frames(d: Seq<u8>) -> Option<Seq<FrameV>> {
    if d.len() == 0 || d[0] != DERIVATION_VERSION_0 {
        None
    } else {
        match spec_parse_frames_from(d.skip(1)) {
            Option::None => None,
            Option::Some(fs) => if fs.len() == 0 {
                None
            } else {
                Some(fs)
            },
        }
    }
}

/// Parses one frame of `d` starting at `from`, exactly as
/// [`spec_parse_frame`] reads the suffix of `d` at `from`.
pub fn parse_frame(d: &Vec<u8>, from: usize) -> (r: Option<(Frame, usize)>)
    requires
        from <= d@.len(),
    ensures
        match r {
            Option::Some(p) => {
                &&& spec_parse_frame(d@.skip(from as int)) == Some((p.0@, p.1 as int))
                &&& from + p.1 <= d@.len()
                &&& p.1 >= 23
            },
            Option::None => spec_parse_frame(d@.skip(from as int)) is None,
        },
{
    let ghost tail = d@.skip(from as int);
    if d.len() - from < 23 {
        return None;
    }
    let dlen64 = read_be_u64(d, from + 18, 4);
    proof {
        assert(d@.subrange(from + 18, from + 22) =~= tail.subrange(18, 22));
        lemma_be_bytes_bound(tail.subrange(18, 22));
        lemma_pow256_values();
    }
    let dlen = dlen64 as usize;
    if d.len() - from - 23 < dlen {
        return None;
    }
    let closing = d[from + 22 + dlen];
    proof {
        assert(tail[22 + dlen as int] == d@[from + 22 + dlen]);
    }
    if closing != 0 && closing != 1 {
        return None;
    }
    let id = read_be_u128(d, from);
    let number64 = read_be_u64(d, from + 16, 2);
    proof {
        assert(d@.subrange(from as int, from + 16) =~= tail.subrange(0, 16));
        assert(d@.subrange(from + 16, from + 18) =~= tail.subrange(16, 18));
        lemma_be_bytes_bound(tail.subrange(16, 18));
        lemma_be_bytes_bound(tail.subrange(0, 16));
    }
    let number = number64 as u16;
    let mut data: Vec<u8> = Vec::new();
    let mut i: usize = 0;
    let dl: usize = d.len();
    while i < dlen
        invariant
            i <= dlen,
            from + 23 + dlen <= d@.len(),
            d@.len() == dl,
            data@ =~= d@.subrange(from + 22, from + 22 + i),
        decreases dlen - i,
    {
        data.push(d[from + 22 + i]);
        proof {
            assert(data@ =~= d@.subrange(from + 22, from + 22 + i + 1));
        }
        i = i + 1;
    }
    proof {
        assert(d@.subrange(from + 22, from + 22 + dlen) =~= tail.subrange(22, 22 + dlen as int));
    }
    let frame = Frame { id, number, data, is_last: closing == 1 };
    Some((frame, 23 + dlen))
}

/// Parses a whole batcher data blob into frames, exactly as
/// [`spec_parse_frames`] reads it: `None` on a missing or wrong version
/// byte, a malformed frame, or an empty frame list.
pub fn parse_frames(encoded: &Vec<u8>) -> (r: Option<Vec<Frame>>)
    ensures
        match r {
            Option::Some(fs) => spec_parse_frames(encoded@) == Some(frames_view(fs@)),
            Option::None => spec_parse_frames(encoded@) is None,
        },
{
    if encoded.len() == 0 {
        return None;
    }
    if encoded[0] != DERIVATION_VERSION_0 {
        return None;
    }
    let ghost body = encoded@.skip(1);
    let mut frames: Vec<Frame> = Vec::new();
    let mut offset: usize = 1;
    loop
        invariant
            1 <= offset <= encoded@.len(),
            encoded@.len() > 0,
            encoded@[0] == DERIVATION_VERSION_0,
            body == encoded@.skip(1),
            match spec_parse_frames_from(encoded@.skip(offset as int)) {
                Option::None => spec_parse_frames_from(body) is None,
                Option::Some(rest) => spec_parse_frames_from(body)
                    == Some(frames_view(frames@) + rest),
            },
        ensures
            spec_parse_frames_from(body) == Some(frames_view(frames@)),
        decreases encoded@.len() - offset,
    {
        if offset == encoded.len() {
            proof {
                assert(encoded@.skip(offset as int) =~= Seq::<u8>::empty());
                assert(frames_view(frames@) + Seq::<FrameV>::empty() =~= frames_view(frames@));
            }
            break;
        }
        match parse_frame(encoded, offset) {
            Option::None => {
                return None;
            },
            Option::Some((f, n)) => {
                proof {
                    assert(encoded@.skip(offset as int).skip(n as int)
                        =~= encoded@.skip(offset + n));
                    assert(frames_view(frames@.push(f)) =~= frames_view(frames@) + seq![f@]);
                    if spec_parse_frames_from(encoded@.skip(offset + n)) is Some {
                        let rest = spec_parse_frames_from(encoded@.skip(offset + n))->Some_0;
                        assert(frames_view(frames@) + (seq![f@] + rest)
                            =~= frames_view(frames@.push(f)) + rest);
                    }
                }
                frames.push(f);
                offset = offset + n;
            },
        }
    }
    if frames.len() == 0 {
        return None;
    }
    proof {
        assert(frames_view(frames@) + Seq::<FrameV>::empty() =~= frames_view(frames@));
    }
    Some(frames)
}

} // verus!
