//! The batch queue: the pipeline's ordering engine. It buffers batches in
//! channel order, validates them against the L2 parent chain and the L1
//! epoch, and emits single batches in strict L2 block order, synthesizing
//! empty batches when the sequencing window closes on a gap.

use vstd::prelude::*;
use crate::batch::{Batch, SingleBatch, SingleBatchV, singles_view};
use crate::errors::{StageError, StageResult};
use crate::traits::OriginProvider;
use crate::types::{BlockInfo, L2BlockInfo, RollupConfig, DEPOSIT_TX_TYPE};

verus! {

/// The verdict on a candidate batch relative to the current L2 parent.
#[derive(Clone, Copy, Debug, PartialEq, Eq, Structural)]
pub enum BatchValidity {
    /// The batch is the next L2 block: emit it.
    Accept,
    /// The batch can never apply: discard it silently.
    Drop,
    /// The batch applies to a later parent: retain it.
    Future,
    /// Not enough L1 data to decide: ask for more L1.
    Undecided,
}

/// The first block in `l1` with the given number, if any.
pub open spec fn spec_find_l1(l1: Seq<BlockInfo>, number: int) -> Option<BlockInfo>
    decreases l1.len(),
{
    if l1.len() == 0 {
        None
    } else if l1[0].number == number {
        Some(l1[0])
    } else {
        spec_find_l1(l1.skip(1), number)
    }
}

/// No block carries a number past the 64-bit range.
pub proof fn lemma_find_l1_past_u64(l1: Seq<BlockInfo>, number: int)
    requires
        number > u64::MAX,
    ensures
        spec_find_l1(l1, number) is None,
    decreases l1.len(),
{
    if l1.len() > 0 {
        lemma_find_l1_past_u64(l1.skip(1), number);
    }
}

/// Whether some transaction of the batch is malformed: empty, or an L1
/// deposit, which may not appear in a batch.
pub open spec fn spec_has_bad_tx(txs: Seq<Seq<u8>>) -> bool {
    exists|i: int| 0 <= i < txs.len() && ((#[trigger] txs[i]).len() == 0
        || txs[i][0] == DEPOSIT_TX_TYPE)
}

/// The verdict on a candidate single batch `b` against parent `parent`,
/// applying the ordering rules in order: parent hash, timestamp, epoch
/// range, epoch hash, epoch timing, and transaction well-formedness.
pub open spec fn spec_check_batch(
    cfg: RollupConfig,
    l1: Seq<BlockInfo>,
    parent: L2BlockInfo,
    b: SingleBatchV,
) -> BatchValidity {
    let next_timestamp = parent.block_info.timestamp + cfg.block_time;
    if b.parent_hash != parent.block_info.hash {
        BatchValidity::Drop
    } else if b.timestamp < next_timestamp {
        BatchValidity::Drop
    } else if b.timestamp > next_timestamp {
        BatchValidity::Future
    } else if b.epoch_num < parent.l1_origin.number
        || b.epoch_num > parent.l1_origin.number + cfg.seq_window_size {
        BatchValidity::Drop
    } else {
        match spec_find_l1(l1, b.epoch_num as int) {
            Option::None => BatchValidity::Undecided,
            Option::Some(epoch) => {
                if epoch.hash != b.epoch_hash {
                    BatchValidity::Drop
                } else if b.timestamp < epoch.timestamp {
                    BatchValidity::Drop
                } else {
                    match spec_find_l1(l1, b.epoch_num + 1) {
                        Option::None => BatchValidity::Undecided,
                        Option::Some(next_epoch) => {
                            if b.timestamp >= next_epoch.timestamp + cfg.max_sequencer_drift {
                                BatchValidity::Drop
                            } else if spec_has_bad_tx(b.transactions) {
                                BatchValidity::Drop
                            } else {
                                BatchValidity::Accept
                            }
                        },
                    }
                }
            },
        }
    }
}

/// An accepted batch is the next L2 block: its timestamp is exactly one
/// block time past the parent's, and its parent hash is the parent's
/// hash. Emitted payloads therefore chain with no gaps and no duplicates.
pub proof fn lemma_accept_chains(
    cfg: RollupConfig,
    l1: Seq<BlockInfo>,
    parent: L2BlockInfo,
    b: SingleBatchV,
)
    requires
        spec_check_batch(cfg, l1, parent, b) == BatchValidity::Accept,
    ensures
        b.timestamp == parent.block_info.timestamp + cfg.block_time,
        b.parent_hash == parent.block_info.hash,
{
}

/// Finds the first block in `l1` with the given number, exactly as
/// [`spec_find_l1`] does.
pub fn find_l1(l1: &Vec<BlockInfo>, number: u64) -> (r: Option<BlockInfo>)
    ensures
        r == spec_find_l1(l1@, number as int),
{
    let mut i: usize = 0;
    let n = l1.len();
    proof {
        assert(l1@.skip(0) =~= l1@);
    }
    while i < n
        invariant
            i <= n,
            n == l1@.len(),
            spec_find_l1(l1@, number as int) == spec_find_l1(l1@.skip(i as int), number as int),
        decreases n - i,
    {
        if l1[i].number == number {
            proof {
                assert(l1@.skip(i as int)[0] == l1@[i as int]);
            }
            return Some(l1[i]);
        }
        proof {
            assert(l1@.skip(i as int)[0] == l1@[i as int]);
            assert(l1@.skip(i as int).skip(1) =~= l1@.skip(i + 1));
        }
        i = i + 1;
    }
    proof {
        assert(l1@.skip(n as int) =~= Seq::<BlockInfo>::empty());
    }
    None
}

/// Decides the verdict on a candidate batch, exactly as
/// [`spec_check_batch`] states it.
pub fn check_batch(
    cfg: &RollupConfig,
    l1: &Vec<BlockInfo>,
    parent: L2BlockInfo,
    b: &SingleBatch,
) -> (r: BatchValidity)
    ensures
        r == spec_check_batch(*cfg, l1@, parent, b@),
{
    let next_timestamp: u128 = parent.block_info.timestamp as u128 + cfg.block_time as u128;
    if b.parent_hash != parent.block_info.hash {
        return BatchValidity::Drop;
    }
    if (b.timestamp as u128) < next_timestamp {
        return BatchValidity::Drop;
    }
    if (b.timestamp as u128) > next_timestamp {
        return BatchValidity::Future;
    }
    if b.epoch_num < parent.l1_origin.number
        || (b.epoch_num as u128) > parent.l1_origin.number as u128
            + cfg.seq_window_size as u128 {
        return BatchValidity::Drop;
    }
    let epoch = match find_l1(l1, b.epoch_num) {
        Option::None => {
            return BatchValidity::Undecided;
        },
        Option::Some(e) => e,
    };
    if epoch.hash != b.epoch_hash {
        return BatchValidity::Drop;
    }
    if b.timestamp < epoch.timestamp {
        return BatchValidity::Drop;
    }
    if b.epoch_num == u64::MAX {
        proof {
            lemma_find_l1_past_u64(l1@, b.epoch_num + 1);
        }
        return BatchValidity::Undecided;
    }
    let next_epoch = match find_l1(l1, b.epoch_num + 1) {
        Option::None => {
            return BatchValidity::Undecided;
        },
        Option::Some(e) => e,
    };
    if (b.timestamp as u128) >= next_epoch.timestamp as u128 + cfg.max_sequencer_drift as u128 {
        return BatchValidity::Drop;
    }
    if has_bad_tx(&b.transactions) {
        return BatchValidity::Drop;
    }
    BatchValidity::Accept
}

/// Decides whether some transaction is malformed, exactly as
/// [`spec_has_bad_tx`] states it.
pub fn has_bad_tx(txs: &Vec<Vec<u8>>) -> (r: bool)
    ensures
        r == spec_has_bad_tx(crate::rlp::txs_view(txs@)),
{
    let mut i: usize = 0;
    let n = txs.len();
    let ghost tv = crate::rlp::txs_view(txs@);
    while i < n
        invariant
            i <= n,
            n == txs@.len(),
            tv == crate::rlp::txs_view(txs@),
            forall|k: int| 0 <= k < i ==> !((#[trigger] tv[k]).len() == 0
                || tv[k][0] == DEPOSIT_TX_TYPE),
        decreases n - i,
    {
        let tx = &txs[i];
        if tx.len() == 0 {
            proof {
                assert(tv[i as int].len() == 0);
            }
            return true;
        }
        if tx[0] == DEPOSIT_TX_TYPE {
            proof {
                assert(tv[i as int][0] == DEPOSIT_TX_TYPE);
            }
            return true;
        }
        i = i + 1;
    }
    false
}

/// One scan over the buffered batches: the first acceptable batch, if
/// any, and the buffer left behind — dropped batches removed, future and
/// undecided ones retained in order, and everything after an accepted
/// batch kept.
pub open spec fn spec_queue_scan(
    bs: Seq<SingleBatchV>,
    cfg: RollupConfig,
    l1: Seq<BlockInfo>,
    parent: L2BlockInfo,
) -> (Option<SingleBatchV>, Seq<SingleBatchV>)
    decreases bs.len(),
{
    if bs.len() == 0 {
        (None, Seq::empty())
    } else {
        let v = spec_check_batch(cfg, l1, parent, bs[0]);
        if v == BatchValidity::Accept {
            (Some(bs[0]), bs.skip(1))
        } else if v == BatchValidity::Drop {
            spec_queue_scan(bs.skip(1), cfg, l1, parent)
        } else {
            let r = spec_queue_scan(bs.skip(1), cfg, l1, parent);
            (r.0, seq![bs[0]] + r.1)
        }
    }
}

/// The empty batch that fills a gap at the parent: the next timestamp,
/// the parent's hash, the parent's epoch, and no transactions.
pub open spec fn spec_empty_batch(cfg: RollupConfig, parent: L2BlockInfo) -> SingleBatchV {
    SingleBatchV {
        parent_hash: parent.block_info.hash,
        epoch_num: parent.l1_origin.number,
        epoch_hash: parent.l1_origin.hash,
        timestamp: (parent.block_info.timestamp + cfg.block_time) as u64,
        transactions: Seq::empty(),
    }
}

/// A gap-filling empty batch is the next L2 block as well: it chains onto
/// the parent exactly as an accepted batch does, so emitted blocks have no
/// gaps and no duplicates whichever way they arise.
pub proof fn lemma_empty_batch_chains(cfg: RollupConfig, parent: L2BlockInfo)
    ensures
        spec_empty_batch(cfg, parent).timestamp as int
            == ((parent.block_info.timestamp + cfg.block_time) as u64) as int,
        spec_empty_batch(cfg, parent).parent_hash == parent.block_info.hash,
        spec_empty_batch(cfg, parent).transactions.len() == 0,
{
}

/// The provider of the batch queue: the channel reader beneath it.
pub trait BatchQueueProvider {
    /// Pulls the next decoded batch envelope.
    fn next_batch(&mut self) -> StageResult<Batch>;
}

/// The batch queue stage: buffers batches, expands spans, and derives the
/// next single batch in L2 order.
#[derive(Debug)]
pub struct BatchQueue<P> {
    /// The previous stage of the derivation pipeline.
    pub prev: P,
    /// The buffered single batches, spans already expanded, in arrival
    /// order.
    pub batches: Vec<SingleBatch>,
    /// The L1 blocks known to the queue, used to validate epochs.
    pub l1_blocks: Vec<BlockInfo>,
    /// The current L1 origin.
    pub origin: Option<BlockInfo>,
}

impl<P: BatchQueueProvider + OriginProvider> BatchQueue<P> {
    /// Creates a new batch queue over the given provider.
    pub fn new(prev: P) -> (r: BatchQueue<P>)
        ensures
            r.prev == prev,
            r.batches@.len() == 0,
            r.l1_blocks@.len() == 0,
            r.origin is None,
    {
        BatchQueue { prev, batches: Vec::new(), l1_blocks: Vec::new(), origin: None }
    }

    /// Advances the queue to a new L1 origin, remembering the block for
    /// epoch validation. Origins only move forward.
    pub fn advance_origin(&mut self, origin: BlockInfo)
        requires
            match old(self).origin {
                Option::Some(o) => o.number <= origin.number,
                Option::None => true,
            },
        ensures
            final(self).origin == Some(origin),
            final(self).l1_blocks@ == old(self).l1_blocks@.push(origin),
            final(self).batches == old(self).batches,
            final(self).prev == old(self).prev,
    {
        self.l1_blocks.push(origin);
        self.origin = Some(origin);
    }

    /// Buffers one batch, expanding a span into its single batches in
    /// order.
    pub fn add_batch(&mut self, batch: Batch)
        ensures
            final(self).batches@ == old(self).batches@ + (match batch {
                Batch::Single(b) => seq![b],
                Batch::Span(s) => s.batches@,
            }),
            final(self).l1_blocks == old(self).l1_blocks,
            final(self).origin == old(self).origin,
            final(self).prev == old(self).prev,
    {
        match batch {
            Batch::Single(b) => {
                self.batches.push(b);
                proof {
                    assert(self.batches@ =~= old(self).batches@ + seq![b]);
                }
            },
            Batch::Span(s) => {
                let mut singles = s.get_singular_batches();
                let ghost sv = singles@;
                let ghost start = self.batches@;
                let ghost i: int = 0;
                let n = singles.len();
                loop
                    invariant
                        0 <= i <= n,
                        n == sv.len(),
                        singles@ =~= sv.skip(i),
                        self.batches@ =~= start + sv.subrange(0, i),
                        self.l1_blocks == old(self).l1_blocks,
                        self.origin == old(self).origin,
                        self.prev == old(self).prev,
                    ensures
                        self.batches@ =~= start + sv,
                        self.l1_blocks == old(self).l1_blocks,
                        self.origin == old(self).origin,
                        self.prev == old(self).prev,
                    decreases n - i,
                {
                    if singles.len() == 0 {
                        proof {
                            assert(sv.subrange(0, n as int) =~= sv);
                        }
                        break;
                    }
                    let b = singles.remove(0);
                    proof {
                        assert(b == sv[i]);
                        assert(singles@ =~= sv.skip(i + 1));
                        assert(sv.subrange(0, i + 1) =~= sv.subrange(0, i).push(b));
                    }
                    self.batches.push(b);
                    proof {
                        i = i + 1;
                    }
                }
            },
        }
    }

    /// Derives the next single batch from the buffer against the given
    /// parent. The first acceptable batch comes out and dropped batches
    /// leave; with none acceptable, a closed sequencing window yields the
    /// gap-filling empty batch, and otherwise more L1 data is asked for
    /// with `NotEnoughData` (`Eof` when nothing is buffered at all).
    pub fn derive_next_batch(&mut self, cfg: &RollupConfig, parent: L2BlockInfo) -> (r:
        StageResult<SingleBatch>)
        ensures
            final(self).l1_blocks == old(self).l1_blocks,
            final(self).origin == old(self).origin,
            final(self).prev == old(self).prev,
            ({
                let scan = spec_queue_scan(
                    singles_view(old(self).batches@),
                    *cfg,
                    old(self).l1_blocks@,
                    parent,
                );
                match scan.0 {
                    Option::Some(bv) => {
                        &&& r matches Ok(b) && b@ == bv
                        &&& singles_view(final(self).batches@) == scan.1
                    },
                    Option::None => {
                        &&& singles_view(final(self).batches@) == scan.1
                        &&& (match old(self).origin {
                            Option::Some(o) => {
                                if o.number > parent.l1_origin.number + cfg.seq_window_size {
                                    if parent.block_info.timestamp + cfg.block_time
                                        <= u64::MAX {
                                        r matches Ok(b) && b@ == spec_empty_batch(*cfg, parent)
                                    } else {
                                        r matches Err(e) && e is Custom
                                    }
                                } else if old(self).batches@.len() == 0 {
                                    r matches Err(e) && e is Eof
                                } else {
                                    r matches Err(e) && e is NotEnoughData
                                }
                            },
                            Option::None => r matches Err(e) && e is MissingOrigin,
                        })
                    },
                }
            }),
    {
        let ghost orig_batches = singles_view(self.batches@);
        let mut rest: Vec<SingleBatch> = Vec::new();
        core::mem::swap(&mut self.batches, &mut rest);
        let ghost all = rest@;
        let mut kept: Vec<SingleBatch> = Vec::new();
        let ghost idx: int = 0;
        let n = rest.len();
        let mut accepted: Option<SingleBatch> = None;
        proof {
            assert(all.skip(0) =~= all);
            assert(singles_view(kept@) =~= Seq::<SingleBatchV>::empty());
            let scan0 = spec_queue_scan(singles_view(all), *cfg, old(self).l1_blocks@, parent);
            assert(singles_view(kept@) + scan0.1 =~= scan0.1);
        }
        loop
            invariant
                0 <= idx <= n,
                n == all.len(),
                accepted is None ==> rest@ =~= all.skip(idx),
                accepted is Some ==> ({
                    let scan = spec_queue_scan(
                        singles_view(all),
                        *cfg,
                        old(self).l1_blocks@,
                        parent,
                    );
                    &&& scan.0 == Some(accepted->Some_0@)
                    &&& singles_view(kept@) + singles_view(rest@) =~= scan.1
                }),
                accepted is None ==> ({
                    let scan_rest = spec_queue_scan(
                        singles_view(all.skip(idx)),
                        *cfg,
                        old(self).l1_blocks@,
                        parent,
                    );
                    let scan = spec_queue_scan(
                        singles_view(all),
                        *cfg,
                        old(self).l1_blocks@,
                        parent,
                    );
                    &&& scan.0 == scan_rest.0
                    &&& scan.1 =~= singles_view(kept@) + scan_rest.1
                }),
                self.l1_blocks == old(self).l1_blocks,
                self.origin == old(self).origin,
                self.prev == old(self).prev,
            ensures
                ({
                    let scan = spec_queue_scan(
                        singles_view(all),
                        *cfg,
                        old(self).l1_blocks@,
                        parent,
                    );
                    &&& (match accepted {
                        Option::Some(b) => scan.0 == Some(b@)
                            && singles_view(kept@) + singles_view(rest@) =~= scan.1,
                        Option::None => scan.0 is None
                            && singles_view(kept@) =~= scan.1 && rest@.len() == 0,
                    })
                }),
            decreases n - idx + (if accepted is None { 1int } else { 0int }),
        {
            if accepted.is_some() {
                break;
            }
            if rest.len() == 0 {
                proof {
                    assert(all.skip(idx) =~= Seq::<SingleBatch>::empty());
                    assert(singles_view(all.skip(idx)) =~= Seq::<SingleBatchV>::empty());
                    assert(singles_view(kept@) + Seq::<SingleBatchV>::empty()
                        =~= singles_view(kept@));
                }
                break;
            }
            let b = rest.remove(0);
            proof {
                assert(b == all[idx]);
                assert(rest@ =~= all.skip(idx + 1));
                assert(singles_view(all.skip(idx))[0] == all[idx]@);
                assert(singles_view(all.skip(idx)).skip(1) =~= singles_view(all.skip(idx + 1)));
            }
            let verdict = check_batch(cfg, &self.l1_blocks, parent, &b);
            if verdict == BatchValidity::Accept {
                proof {
                    assert(singles_view(kept@) + singles_view(rest@)
                        =~= singles_view(kept@) + singles_view(all.skip(idx)).skip(1));
                }
                accepted = Some(b);
            } else if verdict == BatchValidity::Drop {
            } else {
                proof {
                    assert(singles_view(kept@.push(b)) =~= singles_view(kept@) + seq![b@]);
                    let scan_next = spec_queue_scan(
                        singles_view(all.skip(idx + 1)),
                        *cfg,
                        old(self).l1_blocks@,
                        parent,
                    );
                    assert((singles_view(kept@) + (seq![b@] + scan_next.1))
                        =~= (singles_view(kept@.push(b)) + scan_next.1));
                }
                kept.push(b);
            }
            proof {
                idx = idx + 1;
            }
        }
        match accepted {
            Option::Some(b) => {
                let mut tail = rest;
                let ghost kept_v = kept@;
                let mut out = kept;
                let ghost i: int = 0;
                let tn = tail.len();
                let ghost tail_v = tail@;
                loop
                    invariant
                        0 <= i <= tn,
                        tn == tail_v.len(),
                        tail@ =~= tail_v.skip(i),
                        out@ =~= kept_v + tail_v.subrange(0, i),
                    ensures
                        out@ =~= kept_v + tail_v,
                    decreases tn - i,
                {
                    if tail.len() == 0 {
                        proof {
                            assert(tail_v.subrange(0, tn as int) =~= tail_v);
                        }
                        break;
                    }
                    let x = tail.remove(0);
                    proof {
                        assert(x == tail_v[i]);
                        assert(tail@ =~= tail_v.skip(i + 1));
                        assert(tail_v.subrange(0, i + 1) =~= tail_v.subrange(0, i).push(x));
                    }
                    out.push(x);
                    proof {
                        i = i + 1;
                    }
                }
                self.batches = out;
                proof {
                    assert(singles_view(kept_v + tail_v)
                        =~= singles_view(kept_v) + singles_view(tail_v));
                }
                Ok(b)
            },
            Option::None => {
                self.batches = kept;
                let origin = match &self.origin {
                    Option::Some(o) => *o,
                    Option::None => {
                        return Err(StageError::MissingOrigin);
                    },
                };
                if (origin.number as u128) > parent.l1_origin.number as u128
                    + cfg.seq_window_size as u128 {
                    if parent.block_info.timestamp > u64::MAX - cfg.block_time {
                        return Err(StageError::Custom(
                            "next timestamp does not fit a 64-bit count".to_string(),
                        ));
                    }
                    let empty = SingleBatch {
                        parent_hash: parent.block_info.hash,
                        epoch_num: parent.l1_origin.number,
                        epoch_hash: parent.l1_origin.hash,
                        timestamp: parent.block_info.timestamp + cfg.block_time,
                        transactions: Vec::new(),
                    };
                    proof {
                        assert(empty@.transactions =~= Seq::<Seq<u8>>::empty());
                    }
                    Ok(empty)
                } else if n == 0 {
                    Err(StageError::Eof)
                } else {
                    Err(StageError::NotEnoughData)
                }
            },
        }
    }

    /// Clears every buffer: the queue after a reset holds exactly what a
    /// fresh queue holds.
    pub fn reset(&mut self)
        ensures
            final(self).batches@.len() == 0,
            final(self).l1_blocks@.len() == 0,
            final(self).origin is None,
            final(self).prev == old(self).prev,
    {
        self.batches = Vec::new();
        self.l1_blocks = Vec::new();
        self.origin = None;
    }
}

} // verus!
