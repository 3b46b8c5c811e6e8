//! The hint writer's wire format: a hint travels as a 4-byte big-endian
//! length prefix followed by the hint bytes. The pipe itself is plain
//! file-descriptor plumbing around the library.

use vstd::prelude::*;
use crate::frame::{be_bytes_to_nat, lemma_pow256_values};

verus! {

/// A pair of file descriptors standing for the two ends of a hint pipe.
#[derive(Clone, Copy, Debug, PartialEq, Eq, Structural)]
pub struct PipeHandle {
    /// The descriptor hints are read from.
    pub read_handle: i32,
    /// The descriptor hints are written to.
    pub write_handle: i32,
}

impl PipeHandle {
    /// Creates a new pipe handle over the given descriptors.
    pub fn new(read_handle: i32, write_handle: i32) -> (r: PipeHandle)
        ensures
            r.read_handle == read_handle,
            r.write_handle == write_handle,
    {
        PipeHandle { read_handle, write_handle }
    }
}

/// A high-level interface to the hint pipe.
#[derive(Clone, Copy, Debug, PartialEq, Eq, Structural)]
pub struct HintWriter {
    /// The pipe the writer sends hints through.
    pub pipe_handle: PipeHandle,
}

impl HintWriter {
    /// Creates a new hint writer over a pipe handle.
    pub fn new(pipe_handle: PipeHandle) -> (r: HintWriter)
        ensures
            r.pipe_handle == pipe_handle,
    {
        HintWriter { pipe_handle }
    }

    /// Frames one hint for the pipe: a 4-byte big-endian length prefix,
    /// then the hint bytes.
    pub fn encode_hint(hint: &Vec<u8>) -> (r: Vec<u8>)
        requires
            hint@.len() <= 0xFFFF_FFFFu64,
        ensures
            r@.len() == hint@.len() + 4,
            r@.skip(4) == hint@,
            be_bytes_to_nat(r@.subrange(0, 4)) == hint@.len(),
    {
        let len: u32 = hint.len() as u32;
        let b0 = (len / 0x1000000) as u8;
        let rem0 = len % 0x1000000;
        let b1 = (rem0 / 0x10000) as u8;
        let rem1 = rem0 % 0x10000;
        let b2 = (rem1 / 256) as u8;
        let b3 = (rem1 % 256) as u8;
        let mut r: Vec<u8> = Vec::new();
        r.push(b0);
        r.push(b1);
        r.push(b2);
        r.push(b3);
        proof {
            lemma_pow256_values();
            vstd::arithmetic::div_mod::lemma_fundamental_div_mod(len as int, 0x1000000);
            vstd::arithmetic::div_mod::lemma_fundamental_div_mod(rem0 as int, 0x10000);
            vstd::arithmetic::div_mod::lemma_fundamental_div_mod(rem1 as int, 256);
            let p = r@.subrange(0, 4);
            assert(p.drop_last() =~= r@.subrange(0, 3));
            assert(r@.subrange(0, 3).drop_last() =~= r@.subrange(0, 2));
            assert(r@.subrange(0, 2).drop_last() =~= r@.subrange(0, 1));
            assert(r@.subrange(0, 1).drop_last() =~= Seq::<u8>::empty());
            assert(be_bytes_to_nat(Seq::<u8>::empty()) == 0);
            assert(be_bytes_to_nat(r@.subrange(0, 1)) == b0);
            assert(be_bytes_to_nat(r@.subrange(0, 2)) == b0 * 256 + b1);
            assert(be_bytes_to_nat(r@.subrange(0, 3)) == (b0 * 256 + b1) * 256 + b2);
            assert(be_bytes_to_nat(p) == ((b0 * 256 + b1) * 256 + b2) * 256 + b3);
            vstd::arithmetic::div_mod::lemma_div_is_ordered(len as int, u32::MAX as int, 0x1000000);
            vstd::arithmetic::div_mod::lemma_div_is_ordered(rem0 as int, 0xFFFFFF, 0x10000);
            vstd::arithmetic::div_mod::lemma_div_is_ordered(rem1 as int, 0xFFFF, 256);
            vstd::arithmetic::div_mod::lemma_div_pos_is_pos(len as int, 0x1000000);
            vstd::arithmetic::div_mod::lemma_div_pos_is_pos(rem0 as int, 0x10000);
            vstd::arithmetic::div_mod::lemma_div_pos_is_pos(rem1 as int, 256);
            assert(be_bytes_to_nat(p) == len);
        }
        let ghost prefix = r@;
        let mut i: usize = 0;
        let n = hint.len();
        while i < n
            invariant
                i <= n,
                n == hint@.len(),
                prefix.len() == 4,
                r@ =~= prefix + hint@.subrange(0, i as int),
            decreases n - i,
        {
            r.push(hint[i]);
            proof {
                assert(hint@.subrange(0, i + 1) =~= hint@.subrange(0, i as int).push(
                    hint@[i as int],
                ));
            }
            i = i + 1;
        }
        proof {
            assert(hint@.subrange(0, n as int) =~= hint@);
            assert(r@.skip(4) =~= hint@);
            assert(r@.subrange(0, 4) =~= prefix.subrange(0, 4));
        }
        r
    }
}

} // verus!
