//! Mock implementations of the stage providers and collaborator
//! interfaces, for driving the stages in tests.

use vstd::prelude::*;
use crate::attributes_queue::{AttributesBuilder, AttributesProvider};
use crate::batch::{Batch, SingleBatch};
use crate::batch_queue::BatchQueueProvider;
use crate::channel_bank::ChannelBankProvider;
use crate::channel_reader::ChannelReaderProvider;
use crate::errors::{StageError, StageResult};
use crate::frame::Frame;
use crate::traits::{ChainProvider, OriginProvider, SafeBlockFetcher};
use crate::types::{BlockID, BlockInfo, ExecutionPayloadEnvelope, L2BlockInfo, PayloadAttributes,
    Receipt, TxEnvelope, B256};

verus! {

/// A mock channel-reader provider: hands out its queued responses from
/// the back, then end-of-data.
#[derive(Debug)]
pub struct MockChannelReaderProvider {
    /// The responses to return, consumed from the back.
    pub data: Vec<StageResult<Option<Vec<u8>>>>,
    /// The L1 origin to report.
    pub block_info: Option<BlockInfo>,
}

impl MockChannelReaderProvider {
    /// Creates a new mock provider over the given responses.
    pub fn new(data: Vec<StageResult<Option<Vec<u8>>>>) -> (r: MockChannelReaderProvider)
        ensures
            r.data == data,
            r.block_info is Some,
    {
        MockChannelReaderProvider { data, block_info: Some(BlockInfo::default_info()) }
    }
}

impl ChannelReaderProvider for MockChannelReaderProvider {
    open spec fn inv(&self) -> bool {
        true
    }

    open spec fn spec_next_data(&self) -> StageResult<Option<Seq<u8>>> {
        if self.data@.len() > 0 {
            match self.data@.last() {
                Result::Ok(Option::Some(v)) => Ok(Some(v@)),
                Result::Ok(Option::None) => Ok(None),
                Result::Err(e) => Err(e),
            }
        } else {
            Err(StageError::Eof)
        }
    }

    open spec fn spec_pulled(pre: Self, post: Self) -> bool {
        &&& post.data@ == (if pre.data@.len() > 0 {
            pre.data@.drop_last()
        } else {
            pre.data@
        })
        &&& post.block_info == pre.block_info
    }

    fn next_data(&mut self) -> (r: StageResult<Option<Vec<u8>>>) {
        match self.data.pop() {
            Option::Some(d) => d,
            Option::None => Err(StageError::Eof),
        }
    }
}

impl OriginProvider for MockChannelReaderProvider {
    fn origin(&self) -> (r: Option<&BlockInfo>)
        ensures
            match r {
                Option::Some(b) => self.block_info matches Some(bi) && *b == bi,
                Option::None => self.block_info is None,
            },
    {
        self.block_info.as_ref()
    }
}

/// A mock provider for the batch queue stage.
#[derive(Debug)]
pub struct MockBatchQueueProvider {
    /// The L1 origin to report.
    pub origin: Option<BlockInfo>,
    /// The batches to return, consumed from the back.
    pub batches: Vec<StageResult<Batch>>,
}

impl MockBatchQueueProvider {
    /// Creates a new mock provider over the given batches.
    pub fn new(batches: Vec<StageResult<Batch>>) -> (r: MockBatchQueueProvider)
        ensures
            r.batches == batches,
            r.origin is Some,
    {
        MockBatchQueueProvider { origin: Some(BlockInfo::default_info()), batches }
    }
}

impl BatchQueueProvider for MockBatchQueueProvider {
    fn next_batch(&mut self) -> (r: StageResult<Batch>)
        ensures
            old(self).batches@.len() > 0 ==> r == old(self).batches@.last()
                && final(self).batches@ == old(self).batches@.drop_last(),
            old(self).batches@.len() == 0 ==> (r matches Err(e) && e is Eof),
    {
        match self.batches.pop() {
            Option::Some(b) => b,
            Option::None => Err(StageError::Eof),
        }
    }
}

impl OriginProvider for MockBatchQueueProvider {
    fn origin(&self) -> (r: Option<&BlockInfo>)
        ensures
            match r {
                Option::Some(b) => self.origin matches Some(bi) && *b == bi,
                Option::None => self.origin is None,
            },
    {
        self.origin.as_ref()
    }
}

/// A mock provider for the channel bank stage.
#[derive(Debug)]
pub struct MockChannelBankProvider {
    /// The frames to return, consumed from the back.
    pub data: Vec<StageResult<Frame>>,
    /// The L1 origin to report.
    pub block_info: Option<BlockInfo>,
}

impl MockChannelBankProvider {
    /// Creates a new mock provider over the given frames.
    pub fn new(data: Vec<StageResult<Frame>>) -> (r: MockChannelBankProvider)
        ensures
            r.data == data,
            r.block_info is Some,
    {
        MockChannelBankProvider { data, block_info: Some(BlockInfo::default_info()) }
    }
}

impl ChannelBankProvider for MockChannelBankProvider {
    fn next_frame(&mut self) -> (r: StageResult<Frame>)
        ensures
            old(self).data@.len() > 0 ==> r == old(self).data@.last()
                && final(self).data@ == old(self).data@.drop_last(),
            old(self).data@.len() == 0 ==> (r matches Err(e) && e is Eof),
    {
        match self.data.pop() {
            Option::Some(f) => f,
            Option::None => Err(StageError::Eof),
        }
    }
}

impl OriginProvider for MockChannelBankProvider {
    fn origin(&self) -> (r: Option<&BlockInfo>)
        ensures
            match r {
                Option::Some(b) => self.block_info matches Some(bi) && *b == bi,
                Option::None => self.block_info is None,
            },
    {
        self.block_info.as_ref()
    }
}

/// A mock attributes builder: hands out its queued results from the back,
/// then fails.
#[derive(Debug)]
pub struct MockAttributesBuilder {
    /// The attributes to return, consumed from the back.
    pub attributes: Vec<Result<PayloadAttributes, String>>,
}

impl AttributesBuilder for MockAttributesBuilder {
    fn prepare_payload_attributes(&mut self, _l2_parent: L2BlockInfo, _epoch: BlockID) -> (r:
        Result<PayloadAttributes, String>)
        ensures
            old(self).attributes@.len() > 0 ==> r == old(self).attributes@.last()
                && final(self).attributes@ == old(self).attributes@.drop_last(),
            old(self).attributes@.len() == 0 ==> r is Err,
    {
        match self.attributes.pop() {
            Option::Some(a) => a,
            Option::None => Err("missing payload attribute".to_string()),
        }
    }
}

/// A mock provider for the attributes queue stage.
#[derive(Debug)]
pub struct MockAttributesProvider {
    /// The L1 origin to report.
    pub origin: Option<BlockInfo>,
    /// The batches to return, consumed from the back.
    pub batches: Vec<StageResult<SingleBatch>>,
}

impl OriginProvider for MockAttributesProvider {
    fn origin(&self) -> (r: Option<&BlockInfo>)
        ensures
            match r {
                Option::Some(b) => self.origin matches Some(bi) && *b == bi,
                Option::None => self.origin is None,
            },
    {
        self.origin.as_ref()
    }
}

impl AttributesProvider for MockAttributesProvider {
    fn next_batch(&mut self, _parent: L2BlockInfo) -> (r: StageResult<SingleBatch>)
        ensures
            old(self).batches@.len() > 0 ==> r == old(self).batches@.last()
                && final(self).batches@ == old(self).batches@.drop_last(),
            old(self).batches@.len() == 0 ==> (r matches Err(e) && e is Eof),
    {
        match self.batches.pop() {
            Option::Some(b) => b,
            Option::None => Err(StageError::Eof),
        }
    }

    fn is_last_in_span(&self) -> (r: bool)
        ensures
            r == (self.batches@.len() == 0),
    {
        self.batches.len() == 0
    }
}

/// Creates a new mock attributes provider over the given origin and
/// batches.
pub fn new_attributes_provider(
    origin: Option<BlockInfo>,
    batches: Vec<StageResult<SingleBatch>>,
) -> (r: MockAttributesProvider)
    ensures
        r.origin == origin,
        r.batches == batches,
{
    MockAttributesProvider { origin, batches }
}

/// A mock safe-block fetcher over fixed blocks and payloads.
#[derive(Debug)]
pub struct MockBlockFetcher {
    /// The L2 blocks to serve.
    pub blocks: Vec<L2BlockInfo>,
    /// The execution payloads to serve.
    pub payloads: Vec<ExecutionPayloadEnvelope>,
}

impl MockBlockFetcher {
    /// Creates a new mock fetcher over the given blocks and payloads.
    pub fn new(blocks: Vec<L2BlockInfo>, payloads: Vec<ExecutionPayloadEnvelope>) -> (r:
        MockBlockFetcher)
        ensures
            r.blocks == blocks,
            r.payloads == payloads,
    {
        MockBlockFetcher { blocks, payloads }
    }
}

/// The first block in `bs` with the given L2 block number, if any.
pub open spec fn spec_find_l2_block(bs: Seq<L2BlockInfo>, number: u64) -> Option<L2BlockInfo>
    decreases bs.len(),
{
    if bs.len() == 0 {
        None
    } else if bs[0].block_info.number == number {
        Some(bs[0])
    } else {
        spec_find_l2_block(bs.skip(1), number)
    }
}

/// The first payload in `ps` with the given block number, if any.
pub open spec fn spec_find_payload(
    ps: Seq<ExecutionPayloadEnvelope>,
    number: u64,
) -> Option<ExecutionPayloadEnvelope>
    decreases ps.len(),
{
    if ps.len() == 0 {
        None
    } else if ps[0].execution_payload.block_number == number {
        Some(ps[0])
    } else {
        spec_find_payload(ps.skip(1), number)
    }
}

/// The first stored block with the given number, if any.
pub open spec fn spec_find_numbered_block(
    bs: Seq<(u64, BlockInfo)>,
    number: u64,
) -> Option<BlockInfo>
    decreases bs.len(),
{
    if bs.len() == 0 {
        None
    } else if bs[0].0 == number {
        Some(bs[0].1)
    } else {
        spec_find_numbered_block(bs.skip(1), number)
    }
}

/// The first stored block with the given hash, if any.
pub open spec fn spec_find_block_by_hash(
    bs: Seq<(u64, BlockInfo)>,
    hash: B256,
) -> Option<BlockInfo>
    decreases bs.len(),
{
    if bs.len() == 0 {
        None
    } else if bs[0].1.hash == hash {
        Some(bs[0].1)
    } else {
        spec_find_block_by_hash(bs.skip(1), hash)
    }
}

/// The receipts stored under the first entry with the given hash, if any.
pub open spec fn spec_find_receipts(
    rs: Seq<(B256, Vec<Receipt>)>,
    hash: B256,
) -> Option<Vec<Receipt>>
    decreases rs.len(),
{
    if rs.len() == 0 {
        None
    } else if rs[0].0 == hash {
        Some(rs[0].1)
    } else {
        spec_find_receipts(rs.skip(1), hash)
    }
}

impl SafeBlockFetcher for MockBlockFetcher {
    fn l2_block_info_by_number(&mut self, number: u64) -> (r: Result<L2BlockInfo, StageError>)
        ensures
            *final(self) == *old(self),
            match r {
                Result::Ok(b) => spec_find_l2_block(old(self).blocks@, number) == Some(b),
                Result::Err(e) => e is BlockInfoFetch
                    && spec_find_l2_block(old(self).blocks@, number) is None,
            },
    {
        let mut i: usize = 0;
        let n = self.blocks.len();
        proof {
            assert(self.blocks@.skip(0) =~= self.blocks@);
        }
        while i < n
            invariant
                i <= n,
                n == self.blocks@.len(),
                *self == *old(self),
                spec_find_l2_block(old(self).blocks@, number)
                    == spec_find_l2_block(self.blocks@.skip(i as int), number),
            decreases n - i,
        {
            proof {
                assert(self.blocks@.skip(i as int)[0] == self.blocks@[i as int]);
                assert(self.blocks@.skip(i as int).skip(1) =~= self.blocks@.skip(i + 1));
            }
            if self.blocks[i].block_info.number == number {
                return Ok(self.blocks[i]);
            }
            i = i + 1;
        }
        proof {
            assert(self.blocks@.skip(n as int) =~= Seq::<L2BlockInfo>::empty());
        }
        Err(StageError::BlockInfoFetch("block not found".to_string()))
    }

    fn payload_by_number(&mut self, number: u64) -> (r: Result<
        ExecutionPayloadEnvelope,
        StageError,
    >)
        ensures
            *final(self) == *old(self),
            match r {
                Result::Ok(p) => spec_find_payload(old(self).payloads@, number) == Some(p),
                Result::Err(e) => e is BlockInfoFetch
                    && spec_find_payload(old(self).payloads@, number) is None,
            },
    {
        let mut i: usize = 0;
        let n = self.payloads.len();
        proof {
            assert(self.payloads@.skip(0) =~= self.payloads@);
        }
        while i < n
            invariant
                i <= n,
                n == self.payloads@.len(),
                *self == *old(self),
                spec_find_payload(old(self).payloads@, number)
                    == spec_find_payload(self.payloads@.skip(i as int), number),
            decreases n - i,
        {
            proof {
                assert(self.payloads@.skip(i as int)[0] == self.payloads@[i as int]);
                assert(self.payloads@.skip(i as int).skip(1) =~= self.payloads@.skip(i + 1));
            }
            if self.payloads[i].execution_payload.block_number == number {
                return Ok(self.payloads[i]);
            }
            i = i + 1;
        }
        proof {
            assert(self.payloads@.skip(n as int) =~= Seq::<ExecutionPayloadEnvelope>::empty());
        }
        Err(StageError::BlockInfoFetch("payload not found".to_string()))
    }
}

/// A mock L1 chain provider over fixed blocks and receipts.
#[derive(Debug)]
pub struct TestChainProvider {
    /// Block numbers paired with their block info.
    pub blocks: Vec<(u64, BlockInfo)>,
    /// Block hashes paired with their receipts.
    pub receipts: Vec<(B256, Vec<Receipt>)>,
}

impl TestChainProvider {
    /// Creates an empty mock chain provider.
    pub fn new() -> (r: TestChainProvider)
        ensures
            r.blocks@.len() == 0,
            r.receipts@.len() == 0,
    {
        TestChainProvider { blocks: Vec::new(), receipts: Vec::new() }
    }

    /// Inserts a block into the mock chain provider.
    pub fn insert_block(&mut self, number: u64, block: BlockInfo)
        ensures
            final(self).blocks@ == old(self).blocks@.push((number, block)),
            final(self).receipts == old(self).receipts,
    {
        self.blocks.push((number, block));
    }

    /// Inserts receipts into the mock chain provider.
    pub fn insert_receipts(&mut self, hash: B256, receipts: Vec<Receipt>)
        ensures
            final(self).receipts@ == old(self).receipts@.push((hash, receipts)),
            final(self).blocks == old(self).blocks,
    {
        self.receipts.push((hash, receipts));
    }

    /// Clears blocks from the mock chain provider.
    pub fn clear_blocks(&mut self)
        ensures
            final(self).blocks@.len() == 0,
            final(self).receipts == old(self).receipts,
    {
        self.blocks = Vec::new();
    }

    /// Clears receipts from the mock chain provider.
    pub fn clear_receipts(&mut self)
        ensures
            final(self).receipts@.len() == 0,
            final(self).blocks == old(self).blocks,
    {
        self.receipts = Vec::new();
    }

    /// Clears all blocks and receipts from the mock chain provider.
    pub fn clear(&mut self)
        ensures
            final(self).blocks@.len() == 0,
            final(self).receipts@.len() == 0,
    {
        self.clear_blocks();
        self.clear_receipts();
    }
}

impl ChainProvider for TestChainProvider {
    fn block_info_by_number(&mut self, number: u64) -> (r: Result<BlockInfo, StageError>)
        ensures
            *final(self) == *old(self),
            match r {
                Result::Ok(b) => spec_find_numbered_block(old(self).blocks@, number) == Some(b),
                Result::Err(e) => e is BlockInfoFetch
                    && spec_find_numbered_block(old(self).blocks@, number) is None,
            },
    {
        let mut i: usize = 0;
        let n = self.blocks.len();
        proof {
            assert(self.blocks@.skip(0) =~= self.blocks@);
        }
        while i < n
            invariant
                i <= n,
                n == self.blocks@.len(),
                *self == *old(self),
                spec_find_numbered_block(old(self).blocks@, number)
                    == spec_find_numbered_block(self.blocks@.skip(i as int), number),
            decreases n - i,
        {
            proof {
                assert(self.blocks@.skip(i as int)[0] == self.blocks@[i as int]);
                assert(self.blocks@.skip(i as int).skip(1) =~= self.blocks@.skip(i + 1));
            }
            if self.blocks[i].0 == number {
                return Ok(self.blocks[i].1);
            }
            i = i + 1;
        }
        proof {
            assert(self.blocks@.skip(n as int) =~= Seq::<(u64, BlockInfo)>::empty());
        }
        Err(StageError::BlockInfoFetch("block not found".to_string()))
    }

    fn receipts_by_hash(&mut self, hash: B256) -> (r: Result<Vec<Receipt>, StageError>)
        ensures
            *final(self) == *old(self),
            match r {
                Result::Ok(rs) => (match spec_find_receipts(old(self).receipts@, hash) {
                    Option::Some(stored) => rs@ == stored@,
                    Option::None => false,
                }),
                Result::Err(e) => e is ReceiptFetch
                    && spec_find_receipts(old(self).receipts@, hash) is None,
            },
    {
        let mut i: usize = 0;
        let n = self.receipts.len();
        proof {
            assert(self.receipts@.skip(0) =~= self.receipts@);
        }
        while i < n
            invariant
                i <= n,
                n == self.receipts@.len(),
                *self == *old(self),
                spec_find_receipts(old(self).receipts@, hash)
                    == spec_find_receipts(self.receipts@.skip(i as int), hash),
            decreases n - i,
        {
            proof {
                assert(self.receipts@.skip(i as int)[0] == self.receipts@[i as int]);
                assert(self.receipts@.skip(i as int).skip(1) =~= self.receipts@.skip(i + 1));
            }
            if self.receipts[i].0 == hash {
                let mut out: Vec<Receipt> = Vec::new();
                let mut k: usize = 0;
                let m = self.receipts[i].1.len();
                while k < m
                    invariant
                        k <= m,
                        i < self.receipts@.len(),
                        *self == *old(self),
                        m == self.receipts@[i as int].1@.len(),
                        spec_find_receipts(old(self).receipts@, hash)
                            == Some(old(self).receipts@[i as int].1),
                        out@ =~= self.receipts@[i as int].1@.subrange(0, k as int),
                    decreases m - k,
                {
                    out.push(self.receipts[i].1[k]);
                    proof {
                        assert(out@ =~= self.receipts@[i as int].1@.subrange(0, k + 1));
                    }
                    k = k + 1;
                }
                proof {
                    assert(out@ =~= self.receipts@[i as int].1@);
                }
                return Ok(out);
            }
            i = i + 1;
        }
        proof {
            assert(self.receipts@.skip(n as int) =~= Seq::<(B256, Vec<Receipt>)>::empty());
        }
        Err(StageError::ReceiptFetch("receipts not found".to_string()))
    }

    fn block_info_and_transactions_by_hash(&mut self, hash: B256) -> (r: Result<
        (BlockInfo, Vec<TxEnvelope>),
        StageError,
    >)
        ensures
            *final(self) == *old(self),
            match r {
                Result::Ok(p) => spec_find_block_by_hash(old(self).blocks@, hash) == Some(p.0)
                    && p.1@.len() == 0,
                Result::Err(e) => e == StageError::BlockFetch(hash)
                    && spec_find_block_by_hash(old(self).blocks@, hash) is None,
            },
    {
        let mut i: usize = 0;
        let n = self.blocks.len();
        proof {
            assert(self.blocks@.skip(0) =~= self.blocks@);
        }
        while i < n
            invariant
                i <= n,
                n == self.blocks@.len(),
                *self == *old(self),
                spec_find_block_by_hash(old(self).blocks@, hash)
                    == spec_find_block_by_hash(self.blocks@.skip(i as int), hash),
            decreases n - i,
        {
            proof {
                assert(self.blocks@.skip(i as int)[0] == self.blocks@[i as int]);
                assert(self.blocks@.skip(i as int).skip(1) =~= self.blocks@.skip(i + 1));
            }
            if self.blocks[i].1.hash == hash {
                let txs: Vec<TxEnvelope> = Vec::new();
                return Ok((self.blocks[i].1, txs));
            }
            i = i + 1;
        }
        proof {
            assert(self.blocks@.skip(n as int) =~= Seq::<(u64, BlockInfo)>::empty());
        }
        Err(StageError::BlockFetch(hash))
    }
}

} // verus!
