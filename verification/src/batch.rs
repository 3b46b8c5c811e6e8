//! Batches: the units of L2 block content carried by a channel.
//!
//! A decompressed channel payload is a concatenation of batch envelopes.
//! Each envelope is one discriminator byte — [`BATCH_TYPE_SINGLE`] or
//! [`BATCH_TYPE_SPAN`] — followed by RLP. A single batch is the list
//! `[parent_hash, epoch_number, epoch_hash, timestamp, [tx, ...]]`; a span
//! batch is a list of such lists and expands to its single batches in
//! order.

use vstd::prelude::*;
use crate::rlp::{spec_rlp_b256, spec_rlp_u64, spec_rlp_list_header, spec_rlp_strings,
    spec_encode_b256, spec_encode_u64, spec_encode_bytes, spec_encode_list_header, txs_view,
    rlp_b256, rlp_u64, rlp_list_header, rlp_strings};
use crate::errors::DecodeError;
use crate::types::B256;

verus! {

/// Discriminator byte of a single batch.
pub const BATCH_TYPE_SINGLE: u8 = 0;

/// Discriminator byte of a span batch.
pub const BATCH_TYPE_SPAN: u8 = 1;

/// The content of one L2 block, as decoded from a channel.
#[derive(Clone, Debug, PartialEq, Eq)]
pub struct SingleBatch {
    /// The hash the parent L2 block must have.
    pub parent_hash: B256,
    /// The number of the L1 block (epoch) this batch derives from.
    pub epoch_num: u64,
    /// The hash of that L1 block.
    pub epoch_hash: B256,
    /// The timestamp of the L2 block this batch builds.
    pub timestamp: u64,
    /// The transactions of the block, as opaque encoded bytes.
    pub transactions: Vec<Vec<u8>>,
}

/// The mathematical value of a [`SingleBatch`].
pub ghost struct SingleBatchV {
    /// The hash the parent L2 block must have.
    pub parent_hash: B256,
    /// The number of the L1 block (epoch) this batch derives from.
    pub epoch_num: u64,
    /// The hash of that L1 block.
    pub epoch_hash: B256,
    /// The timestamp of the L2 block this batch builds.
    pub timestamp: u64,
    /// The transactions of the block.
    pub transactions: Seq<Seq<u8>>,
}

impl View for SingleBatch {
    type V = SingleBatchV;

    open spec fn view(&self) -> SingleBatchV {
        SingleBatchV {
            parent_hash: self.parent_hash,
            epoch_num: self.epoch_num,
            epoch_hash: self.epoch_hash,
            timestamp: self.timestamp,
            transactions: txs_view(self.transactions@),
        }
    }
}

/// The mathematical values of a sequence of single batches.
pub open spec fn singles_view(bs: Seq<SingleBatch>) -> Seq<SingleBatchV> {
    bs.map_values(|b: SingleBatch| b@)
}

/// A compressed range of consecutive L2 blocks. It expands to its single
/// batches in order.
#[derive(Clone, Debug, PartialEq, Eq)]
pub struct SpanBatch {
    /// The single batches of the span, in L2 order.
    pub batches: Vec<SingleBatch>,
}

impl View for SpanBatch {
    type V = Seq<SingleBatchV>;

    open spec fn view(&self) -> Seq<SingleBatchV> {
        singles_view(self.batches@)
    }
}

impl SpanBatch {
    /// Expands the span into its constituent single batches, in order.
    pub fn get_singular_batches(self) -> (r: Vec<SingleBatch>)
        ensures
            r == self.batches,
            singles_view(r@) == self@,
    {
        self.batches
    }
}

/// A batch envelope: either one L2 block or a span of them.
#[derive(Clone, Debug, PartialEq, Eq)]
pub enum Batch {
    /// One L2 block.
    Single(SingleBatch),
    /// A range of L2 blocks.
    Span(SpanBatch),
}

/// The mathematical value of a [`Batch`].
pub ghost enum BatchV {
    /// One L2 block.
    Single(SingleBatchV),
    /// A range of L2 blocks.
    Span(Seq<SingleBatchV>),
}

impl View for Batch {
    type V = BatchV;

    open spec fn view(&self) -> BatchV {
        match self {
            Batch::Single(b) => BatchV::Single(b@),
            Batch::Span(s) => BatchV::Span(s@),
        }
    }
}

/// Parses the five fields of a single batch from the front of `d`,
/// returning the batch and the bytes consumed.
pub open spec fn spec_decode_single_body(d: Seq<u8>) -> Option<(SingleBatchV, int)> {
    match spec_rlp_b256(d) {
        Option::None => None,
        Option::Some((ph, n1)) => match spec_rlp_u64(d.skip(n1)) {
            Option::None => None,
            Option::Some((en, n2)) => match spec_rlp_b256(d.skip(n1 + n2)) {
                Option::None => None,
                Option::Some((eh, n3)) => match spec_rlp_u64(d.skip(n1 + n2 + n3)) {
                    Option::None => None,
                    Option::Some((ts, n4)) => match spec_rlp_list_header(
                        d.skip(n1 + n2 + n3 + n4),
                    ) {
                        Option::None => None,
                        Option::Some((tpl, thl)) => match spec_rlp_strings(
                            d.skip(n1 + n2 + n3 + n4 + thl),
                            tpl,
                        ) {
                            Option::None => None,
                            Option::Some(txs) => Some((
                                SingleBatchV {
                                    parent_hash: ph,
                                    epoch_num: en,
                                    epoch_hash: eh,
                                    timestamp: ts,
                                    transactions: txs,
                                },
                                n1 + n2 + n3 + n4 + thl + tpl,
                            )),
                        },
                    },
                },
            },
        },
    }
}

/// Parses one RLP-encoded single batch from the front of `d`: an outer
/// list whose payload is exactly the five fields.
pub open spec fn spec_decode_single(d: Seq<u8>) -> Option<(SingleBatchV, int)> {
    match spec_rlp_list_header(d) {
        Option::None => None,
        Option::Some((pl, hl)) => match spec_decode_single_body(d.skip(hl)) {
            Option::None => None,
            Option::Some((sb, used)) => if used == pl {
                Some((sb, hl + pl))
            } else {
                None
            },
        },
    }
}

/// Parses exactly `pl` bytes from the front of `d` as a sequence of
/// RLP-encoded single batches.
pub open spec fn spec_decode_singles(d: Seq<u8>, pl: int) -> Option<Seq<SingleBatchV>>
    decreases pl,
{
    if pl < 0 {
        None
    } else if pl == 0 {
        Some(Seq::empty())
    } else {
        match spec_decode_single(d) {
            Option::None => None,
            Option::Some((sb, n)) => {
                if 0 < n <= pl && n <= d.len() {
                    match spec_decode_singles(d.skip(n), pl - n) {
                        Option::None => None,
                        Option::Some(rest) => Some(seq![sb] + rest),
                    }
                } else {
                    None
                }
            },
        }
    }
}

/// Parses one RLP-encoded span batch from the front of `d`: a list of
/// single batches.
pub open spec fn spec_decode_span(d: Seq<u8>) -> Option<(Seq<SingleBatchV>, int)> {
    match spec_rlp_list_header(d) {
        Option::None => None,
        Option::Some((pl, hl)) => match spec_decode_singles(d.skip(hl), pl) {
            Option::None => None,
            Option::Some(bs) => Some((bs, hl + pl)),
        },
    }
}

/// Parses one batch envelope from the front of `d`: the discriminator
/// byte, then the RLP body. Returns the batch and the bytes consumed.
pub open spec fn spec_decode_batch(d: Seq<u8>) -> Option<(BatchV, int)> {
    if d.len() == 0 {
        None
    } else if d[0] == BATCH_TYPE_SINGLE {
        match spec_decode_single(d.skip(1)) {
            Option::None => None,
            Option::Some((sb, n)) => Some((BatchV::Single(sb), 1 + n)),
        }
    } else if d[0] == BATCH_TYPE_SPAN {
        match spec_decode_span(d.skip(1)) {
            Option::None => None,
            Option::Some((bs, n)) => Some((BatchV::Span(bs), 1 + n)),
        }
    } else {
        None
    }
}

/// Parses one single batch of `d` starting at `from`, exactly as
/// [`spec_decode_single`] reads the suffix of `d` at `from`.
#[verifier::rlimit(100)]
pub fn decode_single(d: &Vec<u8>, from: usize) -> (r: Option<(SingleBatch, usize)>)
    requires
        from <= d@.len(),
    ensures
        match r {
            Option::Some(t) => {
                &&& spec_decode_single(d@.skip(from as int)) == Some((t.0@, t.1 as int))
                &&& from + t.1 <= d@.len()
                &&& 0 < t.1
            },
            Option::None => spec_decode_single(d@.skip(from as int)) is None,
        },
{
    let ghost tail = d@.skip(from as int);
    let _dl: usize = d.len();
    let (pl, hl) = match rlp_list_header(d, from) {
        Option::None => {
            return None;
        },
        Option::Some(t) => t,
    };
    let ghost body = tail.skip(hl as int);
    proof {
        assert(body =~= d@.skip(from + hl));
    }
    let p0 = from + hl;
    let (ph, n1) = match rlp_b256(d, p0) {
        Option::None => {
            return None;
        },
        Option::Some(t) => t,
    };
    proof {
        assert(body.skip(n1 as int) =~= d@.skip(p0 + n1));
    }
    let (en, n2) = match rlp_u64(d, p0 + n1) {
        Option::None => {
            return None;
        },
        Option::Some(t) => t,
    };
    proof {
        assert(body.skip(n1 + n2) =~= d@.skip(p0 + n1 + n2));
    }
    let (eh, n3) = match rlp_b256(d, p0 + n1 + n2) {
        Option::None => {
            return None;
        },
        Option::Some(t) => t,
    };
    proof {
        assert(body.skip(n1 + n2 + n3) =~= d@.skip(p0 + n1 + n2 + n3));
    }
    let (ts, n4) = match rlp_u64(d, p0 + n1 + n2 + n3) {
        Option::None => {
            return None;
        },
        Option::Some(t) => t,
    };
    proof {
        assert(body.skip(n1 + n2 + n3 + n4) =~= d@.skip(p0 + n1 + n2 + n3 + n4));
    }
    let (tpl, thl) = match rlp_list_header(d, p0 + n1 + n2 + n3 + n4) {
        Option::None => {
            return None;
        },
        Option::Some(t) => t,
    };
    proof {
        assert(body.skip(n1 + n2 + n3 + n4 + thl) =~= d@.skip(p0 + n1 + n2 + n3 + n4 + thl));
    }
    let (transactions, _used) = match rlp_strings(d, p0 + n1 + n2 + n3 + n4 + thl, tpl) {
        Option::None => {
            return None;
        },
        Option::Some(t) => t,
    };
    if n1 + n2 + n3 + n4 + thl + tpl != pl {
        return None;
    }
    let sb = SingleBatch {
        parent_hash: ph,
        epoch_num: en,
        epoch_hash: eh,
        timestamp: ts,
        transactions,
    };
    Some((sb, hl + pl))
}

/// Parses exactly `pl` bytes of `d` starting at `from` as single batches,
/// exactly as [`spec_decode_singles`] reads them.
#[verifier::rlimit(100)]
pub fn decode_singles(d: &Vec<u8>, from: usize, pl: usize) -> (r: Option<Vec<SingleBatch>>)
    requires
        from + pl <= d@.len(),
    ensures
        match r {
            Option::Some(bs) => spec_decode_singles(d@.skip(from as int), pl as int)
                == Some(singles_view(bs@)),
            Option::None => spec_decode_singles(d@.skip(from as int), pl as int) is None,
        },
{
    let mut batches: Vec<SingleBatch> = Vec::new();
    let mut cur: usize = from;
    let dl: usize = d.len();
    let end: usize = from + pl;
    loop
        invariant
            from <= cur <= end,
            end == from + pl,
            end <= d@.len(),
            d@.len() == dl,
            match spec_decode_singles(d@.skip(cur as int), end - cur) {
                Option::None => spec_decode_singles(d@.skip(from as int), pl as int) is None,
                Option::Some(rest) => spec_decode_singles(d@.skip(from as int), pl as int)
                    == Some(singles_view(batches@) + rest),
            },
        ensures
            spec_decode_singles(d@.skip(from as int), pl as int) == Some(singles_view(batches@)),
        decreases end - cur,
    {
        if cur == end {
            proof {
                assert(singles_view(batches@) + Seq::<SingleBatchV>::empty()
                    =~= singles_view(batches@));
            }
            break;
        }
        match decode_single(d, cur) {
            Option::None => {
                return None;
            },
            Option::Some((sb, n)) => {
                if n > end - cur {
                    return None;
                }
                proof {
                    assert(d@.skip(cur as int).skip(n as int) =~= d@.skip(cur + n));
                    assert(singles_view(batches@.push(sb))
                        =~= singles_view(batches@) + seq![sb@]);
                    if spec_decode_singles(d@.skip(cur + n), end - cur - n) is Some {
                        let rest = spec_decode_singles(d@.skip(cur + n), end - cur - n)->Some_0;
                        assert(singles_view(batches@) + (seq![sb@] + rest)
                            =~= singles_view(batches@.push(sb)) + rest);
                    }
                }
                batches.push(sb);
                cur = cur + n;
            },
        }
    }
    Some(batches)
}

/// Parses one batch envelope of `d` starting at `from`, exactly as
/// [`spec_decode_batch`] reads the suffix of `d` at `from`.
#[verifier::rlimit(100)]
#[verifier::spinoff_prover]
pub fn decode_batch(d: &Vec<u8>, from: usize) -> (r: Option<(Batch, usize)>)
    requires
        from <= d@.len(),
    ensures
        match r {
            Option::Some(t) => {
                &&& spec_decode_batch(d@.skip(from as int)) == Some((t.0@, t.1 as int))
                &&& from + t.1 <= d@.len()
                &&& 0 < t.1
            },
            Option::None => spec_decode_batch(d@.skip(from as int)) is None,
        },
{
    let ghost tail = d@.skip(from as int);
    if d.len() == from {
        return None;
    }
    let disc = d[from];
    proof {
        assert(tail[0] == d@[from as int]);
        assert(tail.skip(1) =~= d@.skip(from + 1));
    }
    if disc == BATCH_TYPE_SINGLE {
        match decode_single(d, from + 1) {
            Option::None => None,
            Option::Some((sb, n)) => Some((Batch::Single(sb), 1 + n)),
        }
    } else if disc == BATCH_TYPE_SPAN {
        match rlp_list_header(d, from + 1) {
            Option::None => None,
            Option::Some((pl, hl)) => {
                proof {
                    assert(tail.skip(1).skip(hl as int) =~= d@.skip(from + 1 + hl));
                }
                match decode_singles(d, from + 1 + hl, pl) {
                    Option::None => None,
                    Option::Some(bs) => {
                        let n = 1 + hl + pl;
                        Some((Batch::Span(SpanBatch { batches: bs }), n))
                    },
                }
            },
        }
    } else {
        None
    }
}

/// The concatenated RLP encodings of a transaction list.
pub open spec fn spec_encode_txs(ts: Seq<Seq<u8>>) -> Seq<u8>
    decreases ts.len(),
{
    if ts.len() == 0 {
        Seq::empty()
    } else {
        spec_encode_txs(ts.drop_last()) + spec_encode_bytes(ts.last())
    }
}

/// The payload of a single batch's outer list: its five fields in order.
pub open spec fn spec_encode_single_body(b: SingleBatchV) -> Seq<u8> {
    let txp = spec_encode_txs(b.transactions);
    spec_encode_b256(b.parent_hash) + spec_encode_u64(b.epoch_num)
        + spec_encode_b256(b.epoch_hash) + spec_encode_u64(b.timestamp)
        + spec_encode_list_header(txp.len() as nat) + txp
}

/// The RLP encoding of a single batch.
pub open spec fn spec_encode_single(b: SingleBatchV) -> Seq<u8> {
    let body = spec_encode_single_body(b);
    spec_encode_list_header(body.len() as nat) + body
}

/// The concatenated RLP encodings of a sequence of single batches.
pub open spec fn spec_encode_singles(bs: Seq<SingleBatchV>) -> Seq<u8>
    decreases bs.len(),
{
    if bs.len() == 0 {
        Seq::empty()
    } else {
        spec_encode_singles(bs.drop_last()) + spec_encode_single(bs.last())
    }
}

/// The RLP encoding of a span batch: a list of single batches.
pub open spec fn spec_encode_span(bs: Seq<SingleBatchV>) -> Seq<u8> {
    let payload = spec_encode_singles(bs);
    spec_encode_list_header(payload.len() as nat) + payload
}

/// The encoding of a batch envelope: the discriminator byte, then the RLP
/// body.
pub open spec fn spec_encode_batch(b: BatchV) -> Seq<u8> {
    match b {
        BatchV::Single(sb) => seq![BATCH_TYPE_SINGLE] + spec_encode_single(sb),
        BatchV::Span(bs) => seq![BATCH_TYPE_SPAN] + spec_encode_span(bs),
    }
}

/// Appends the RLP encodings of the transactions to `dst`, exactly as
/// [`spec_encode_txs`] lays them out.
pub fn encode_txs_into(dst: &mut Vec<u8>, txs: &Vec<Vec<u8>>)
    ensures
        final(dst)@ == old(dst)@ + spec_encode_txs(txs_view(txs@)),
{
    let ghost tv = txs_view(txs@);
    let ghost start = dst@;
    let mut i: usize = 0;
    let n = txs.len();
    proof {
        assert(start + spec_encode_txs(tv.subrange(0, 0)) =~= start);
    }
    while i < n
        invariant
            i <= n,
            n == txs@.len(),
            tv == txs_view(txs@),
            dst@ =~= start + spec_encode_txs(tv.subrange(0, i as int)),
        decreases n - i,
    {
        crate::rlp::encode_bytes_into(dst, &txs[i]);
        proof {
            assert(tv.subrange(0, i + 1).drop_last() =~= tv.subrange(0, i as int));
            assert(tv.subrange(0, i + 1).last() == tv[i as int]);
            assert(tv[i as int] == txs@[i as int]@);
        }
        i = i + 1;
    }
    proof {
        assert(tv.subrange(0, n as int) =~= tv);
    }
}

/// Encodes one single batch, exactly as [`spec_encode_single`] lays it
/// out.
pub fn encode_single(b: &SingleBatch) -> (r: Vec<u8>)
    ensures
        r@ == spec_encode_single(b@),
{
    let mut txp: Vec<u8> = Vec::new();
    encode_txs_into(&mut txp, &b.transactions);
    let mut body: Vec<u8> = Vec::new();
    crate::rlp::encode_b256_into(&mut body, &b.parent_hash);
    crate::rlp::encode_u64_into(&mut body, b.epoch_num);
    crate::rlp::encode_b256_into(&mut body, &b.epoch_hash);
    crate::rlp::encode_u64_into(&mut body, b.timestamp);
    crate::rlp::encode_list_header_into(&mut body, txp.len());
    crate::rlp::push_all(&mut body, &txp);
    proof {
        assert(body@ =~= spec_encode_single_body(b@));
    }
    let mut out: Vec<u8> = Vec::new();
    crate::rlp::encode_list_header_into(&mut out, body.len());
    crate::rlp::push_all(&mut out, &body);
    proof {
        assert(out@ =~= spec_encode_single(b@));
    }
    out
}

/// Encodes one batch envelope, exactly as [`spec_encode_batch`] lays it
/// out.
pub fn encode_batch(b: &Batch) -> (r: Vec<u8>)
    ensures
        r@ == spec_encode_batch(b@),
{
    match b {
        Batch::Single(sb) => {
            let mut out: Vec<u8> = Vec::new();
            out.push(BATCH_TYPE_SINGLE);
            let enc = encode_single(sb);
            crate::rlp::push_all(&mut out, &enc);
            proof {
                assert(out@ =~= spec_encode_batch(b@));
            }
            out
        },
        Batch::Span(s) => {
            let mut payload: Vec<u8> = Vec::new();
            let ghost bv = singles_view(s.batches@);
            let mut i: usize = 0;
            let n = s.batches.len();
            proof {
                assert(payload@ =~= spec_encode_singles(bv.subrange(0, 0)));
            }
            while i < n
                invariant
                    i <= n,
                    n == s.batches@.len(),
                    bv == singles_view(s.batches@),
                    payload@ =~= spec_encode_singles(bv.subrange(0, i as int)),
                decreases n - i,
            {
                let enc = encode_single(&s.batches[i]);
                crate::rlp::push_all(&mut payload, &enc);
                proof {
                    assert(bv.subrange(0, i + 1).drop_last() =~= bv.subrange(0, i as int));
                    assert(bv.subrange(0, i + 1).last() == bv[i as int]);
                    assert(bv[i as int] == s.batches@[i as int]@);
                }
                i = i + 1;
            }
            proof {
                assert(bv.subrange(0, n as int) =~= bv);
            }
            let mut out: Vec<u8> = Vec::new();
            out.push(BATCH_TYPE_SPAN);
            crate::rlp::encode_list_header_into(&mut out, payload.len());
            crate::rlp::push_all(&mut out, &payload);
            proof {
                assert(out@ =~= spec_encode_batch(b@));
            }
            out
        },
    }
}

impl Batch {
    /// Decodes one batch envelope of `d` starting at `from`, telling an
    /// empty buffer apart from a malformed one.
    pub fn decode(d: &Vec<u8>, from: usize) -> (r: Result<(Batch, usize), DecodeError>)
        requires
            from <= d@.len(),
        ensures
            match r {
                Result::Ok(t) => {
                    &&& spec_decode_batch(d@.skip(from as int)) == Some((t.0@, t.1 as int))
                    &&& from + t.1 <= d@.len()
                },
                Result::Err(e) => {
                    &&& spec_decode_batch(d@.skip(from as int)) is None
                    &&& (e == DecodeError::EmptyBuffer <==> d@.len() == from)
                    &&& (e == DecodeError::Rlp <==> d@.len() > from)
                },
            },
    {
        if d.len() == from {
            proof {
                assert(d@.skip(from as int) =~= Seq::<u8>::empty());
            }
            return Err(DecodeError::EmptyBuffer);
        }
        match decode_batch(d, from) {
            Option::Some(t) => Ok(t),
            Option::None => Err(DecodeError::Rlp),
        }
    }
}

/// The length bounds under which a single batch's encoding is decodable:
/// every transaction and the whole body fit the wire format's 64-bit
/// lengths.
pub open spec fn single_codec_wf(b: SingleBatchV) -> bool {
    &&& forall|i: int| 0 <= i < b.transactions.len()
        ==> (#[trigger] b.transactions[i]).len() < 0x10000000000000000
    &&& spec_encode_single_body(b).len() < 0x10000000000000000
}

/// The length bounds under which a span batch's encoding is decodable.
pub open spec fn span_codec_wf(bs: Seq<SingleBatchV>) -> bool {
    &&& forall|i: int| 0 <= i < bs.len() ==> single_codec_wf(#[trigger] bs[i])
    &&& spec_encode_singles(bs).len() < 0x10000000000000000
}

/// A transaction list's encoding peels off its first element.
pub proof fn lemma_encode_txs_front(ts: Seq<Seq<u8>>)
    requires
        ts.len() > 0,
    ensures
        spec_encode_txs(ts) == spec_encode_bytes(ts[0]) + spec_encode_txs(ts.skip(1)),
    decreases ts.len(),
{
    if ts.len() == 1 {
        assert(ts.drop_last() =~= Seq::<Seq<u8>>::empty());
        assert(ts.skip(1) =~= Seq::<Seq<u8>>::empty());
        assert(ts.last() == ts[0]);
        assert(spec_encode_txs(ts) =~= spec_encode_bytes(ts[0])
            + spec_encode_txs(ts.skip(1)));
    } else {
        lemma_encode_txs_front(ts.drop_last());
        assert(ts.drop_last()[0] == ts[0]);
        assert(ts.drop_last().skip(1) =~= ts.skip(1).drop_last());
        assert(ts.skip(1).last() == ts.last());
        assert(spec_encode_txs(ts) == spec_encode_txs(ts.drop_last())
            + spec_encode_bytes(ts.last()));
        assert(spec_encode_txs(ts.skip(1)) == spec_encode_txs(ts.skip(1).drop_last())
            + spec_encode_bytes(ts.skip(1).last()));
        assert(spec_encode_txs(ts) =~= spec_encode_bytes(ts[0])
            + spec_encode_txs(ts.skip(1)));
    }
}

/// Parsing an encoded transaction list out of any stream returns exactly
/// the transactions.
pub proof fn lemma_decode_encode_txs(ts: Seq<Seq<u8>>, rest: Seq<u8>)
    requires
        forall|i: int| 0 <= i < ts.len()
            ==> (#[trigger] ts[i]).len() < 0x10000000000000000,
    ensures
        spec_rlp_strings(spec_encode_txs(ts) + rest, spec_encode_txs(ts).len() as int)
            == Some(ts),
    decreases ts.len(),
{
    let e = spec_encode_txs(ts);
    let d = e + rest;
    if ts.len() == 0 {
        assert(ts =~= Seq::<Seq<u8>>::empty());
    } else {
        lemma_encode_txs_front(ts);
        let e0 = spec_encode_bytes(ts[0]);
        let etail = spec_encode_txs(ts.skip(1));
        assert(d =~= e0 + (etail + rest));
        crate::rlp::lemma_decode_encode_bytes(ts[0], etail + rest);
        let n0 = e0.len() as int;
        assert(n0 >= 1);
        assert(d.skip(n0) =~= etail + rest);
        lemma_decode_encode_txs(ts.skip(1), rest);
        assert(seq![ts[0]] + ts.skip(1) =~= ts);
    }
}

/// Parsing an encoded single-batch body out of any stream returns the
/// batch and consumes exactly the body.
#[verifier::rlimit(100)]
pub proof fn lemma_decode_encode_single_body(b: SingleBatchV, rest: Seq<u8>)
    requires
        single_codec_wf(b),
    ensures
        spec_decode_single_body(spec_encode_single_body(b) + rest)
            == Some((b, spec_encode_single_body(b).len() as int)),
{
    let e1 = spec_encode_b256(b.parent_hash);
    let e2 = spec_encode_u64(b.epoch_num);
    let e3 = spec_encode_b256(b.epoch_hash);
    let e4 = spec_encode_u64(b.timestamp);
    let txp = spec_encode_txs(b.transactions);
    let e5 = spec_encode_list_header(txp.len() as nat);
    let e = spec_encode_single_body(b);
    let d = e + rest;
    assert(e == e1 + e2 + e3 + e4 + e5 + txp);
    assert(d =~= e1 + (e2 + e3 + e4 + e5 + txp + rest));
    crate::rlp::lemma_decode_encode_b256(b.parent_hash, e2 + e3 + e4 + e5 + txp + rest);
    let n1 = e1.len() as int;
    assert(d.skip(n1) =~= e2 + (e3 + e4 + e5 + txp + rest));
    crate::rlp::lemma_decode_encode_u64(b.epoch_num, e3 + e4 + e5 + txp + rest);
    let n2 = e2.len() as int;
    assert(d.skip(n1 + n2) =~= e3 + (e4 + e5 + txp + rest));
    crate::rlp::lemma_decode_encode_b256(b.epoch_hash, e4 + e5 + txp + rest);
    let n3 = e3.len() as int;
    assert(d.skip(n1 + n2 + n3) =~= e4 + (e5 + txp + rest));
    crate::rlp::lemma_decode_encode_u64(b.timestamp, e5 + txp + rest);
    let n4 = e4.len() as int;
    assert(d.skip(n1 + n2 + n3 + n4) =~= e5 + (txp + rest));
    crate::rlp::lemma_decode_encode_list_header(txp.len() as nat, txp + rest);
    let n5 = e5.len() as int;
    assert(d.skip(n1 + n2 + n3 + n4 + n5) =~= txp + rest);
    lemma_decode_encode_txs(b.transactions, rest);
    assert(spec_decode_single_body(d)
        == Some((b, n1 + n2 + n3 + n4 + n5 + txp.len() as int)));
}

/// Parsing an encoded single batch out of any stream returns the batch
/// and consumes exactly its encoding.
#[verifier::rlimit(100)]
#[verifier::spinoff_prover]
pub proof fn lemma_decode_encode_single(b: SingleBatchV, rest: Seq<u8>)
    requires
        single_codec_wf(b),
    ensures
        spec_decode_single(spec_encode_single(b) + rest)
            == Some((b, spec_encode_single(b).len() as int)),
        spec_encode_single(b).len() >= 1,
{
    let body = spec_encode_single_body(b);
    let hdr = spec_encode_list_header(body.len() as nat);
    let e = spec_encode_single(b);
    let d = e + rest;
    assert(d =~= hdr + (body + rest));
    crate::rlp::lemma_decode_encode_list_header(body.len() as nat, body + rest);
    let hl = hdr.len() as int;
    assert(d.skip(hl) =~= body + rest);
    lemma_decode_encode_single_body(b, rest);
    assert(spec_decode_single(d) == Some((b, hl + body.len() as int)));
}

/// An encoded single-batch list peels off its first element.
pub proof fn lemma_encode_singles_front(bs: Seq<SingleBatchV>)
    requires
        bs.len() > 0,
    ensures
        spec_encode_singles(bs) == spec_encode_single(bs[0])
            + spec_encode_singles(bs.skip(1)),
    decreases bs.len(),
{
    if bs.len() == 1 {
        assert(bs.drop_last() =~= Seq::<SingleBatchV>::empty());
        assert(bs.skip(1) =~= Seq::<SingleBatchV>::empty());
        assert(bs.last() == bs[0]);
        assert(spec_encode_singles(bs) =~= spec_encode_single(bs[0])
            + spec_encode_singles(bs.skip(1)));
    } else {
        lemma_encode_singles_front(bs.drop_last());
        assert(bs.drop_last()[0] == bs[0]);
        assert(bs.drop_last().skip(1) =~= bs.skip(1).drop_last());
        assert(bs.skip(1).last() == bs.last());
        assert(spec_encode_singles(bs) =~= spec_encode_single(bs[0])
            + spec_encode_singles(bs.skip(1)));
    }
}

/// Parsing an encoded sequence of single batches out of any stream
/// returns exactly those batches.
#[verifier::rlimit(100)]
#[verifier::spinoff_prover]
pub proof fn lemma_decode_encode_singles(bs: Seq<SingleBatchV>, rest: Seq<u8>)
    requires
        forall|i: int| 0 <= i < bs.len() ==> single_codec_wf(#[trigger] bs[i]),
    ensures
        spec_decode_singles(spec_encode_singles(bs) + rest,
            spec_encode_singles(bs).len() as int) == Some(bs),
    decreases bs.len(),
{
    let e = spec_encode_singles(bs);
    let d = e + rest;
    if bs.len() == 0 {
        assert(bs =~= Seq::<SingleBatchV>::empty());
    } else {
        lemma_encode_singles_front(bs);
        let e0 = spec_encode_single(bs[0]);
        let etail = spec_encode_singles(bs.skip(1));
        assert(d =~= e0 + (etail + rest));
        lemma_decode_encode_single(bs[0], etail + rest);
        let n0 = e0.len() as int;
        assert(spec_decode_single(d) == Some((bs[0], n0)));
        assert(0 < n0 <= e.len());
        assert(n0 <= d.len());
        assert(d.skip(n0) =~= etail + rest);
        lemma_decode_encode_singles(bs.skip(1), rest);
        assert(spec_decode_singles(d.skip(n0), e.len() - n0) == Some(bs.skip(1)));
        assert(seq![bs[0]] + bs.skip(1) =~= bs);
        assert(spec_decode_singles(d, e.len() as int) == Some(bs));
    }
}

/// Decoding an encoded batch envelope returns the batch itself and
/// consumes exactly its encoding. In particular a span batch re-encoded
/// after decoding expands to the same single batches, in the same order.
#[verifier::rlimit(100)]
#[verifier::spinoff_prover]
pub proof fn lemma_decode_encode_batch(b: BatchV, rest: Seq<u8>)
    requires
        match b {
            BatchV::Single(sb) => single_codec_wf(sb),
            BatchV::Span(bs) => span_codec_wf(bs),
        },
    ensures
        spec_decode_batch(spec_encode_batch(b) + rest)
            == Some((b, spec_encode_batch(b).len() as int)),
{
    let e = spec_encode_batch(b);
    let d = e + rest;
    match b {
        BatchV::Single(sb) => {
            let es = spec_encode_single(sb);
            assert(d[0] == BATCH_TYPE_SINGLE);
            assert(d.skip(1) =~= es + rest);
            lemma_decode_encode_single(sb, rest);
        },
        BatchV::Span(bs) => {
            let payload = spec_encode_singles(bs);
            let hdr = spec_encode_list_header(payload.len() as nat);
            assert(d[0] == BATCH_TYPE_SPAN);
            assert(d.skip(1) =~= hdr + (payload + rest));
            crate::rlp::lemma_decode_encode_list_header(payload.len() as nat, payload + rest);
            let hl = hdr.len() as int;
            assert(d.skip(1).skip(hl) =~= payload + rest);
            lemma_decode_encode_singles(bs, rest);
            assert(spec_decode_span(d.skip(1)) == Some((bs, hl + payload.len() as int)));
        },
    }
}

} // verus!

