//! Plain data model of the derivation pipeline: L1/L2 block references,
//! rollup configuration, payload attributes, and the values carried by the
//! external collaborator interfaces.

use vstd::prelude::*;

verus! {

/// First (and only) derivation wire-format version byte.
pub const DERIVATION_VERSION_0: u8 = 0;

/// Upper bound, in bytes, on the channel bank's buffered frame data.
pub const MAX_CHANNEL_BANK_SIZE: u64 = 100_000_000;

/// Number of L1 blocks after which an unfinished channel is dropped.
pub const CHANNEL_TIMEOUT: u64 = 300;

/// Upper bound, in bytes, on a decompressed channel payload.
pub const MAX_RLP_BYTES_PER_CHANNEL: u64 = 10_000_000;

/// Leading byte of an L1-deposited transaction; such transactions may not
/// appear in a batch.
pub const DEPOSIT_TX_TYPE: u8 = 0x7e;

/// A 256-bit hash, held as four big-endian 64-bit limbs (limb 0 is the
/// most significant).
#[derive(Clone, Copy, Debug, PartialEq, Eq, Structural)]
pub struct B256 {
    /// Most significant limb.
    pub w0: u64,
    /// Second limb.
    pub w1: u64,
    /// Third limb.
    pub w2: u64,
    /// Least significant limb.
    pub w3: u64,
}

impl B256 {
    /// The all-zero hash.
    pub fn zero() -> (r: B256)
        ensures
            r == (B256 { w0: 0, w1: 0, w2: 0, w3: 0 }),
    {
        B256 { w0: 0, w1: 0, w2: 0, w3: 0 }
    }
}

/// A 160-bit account address, held as big-endian words (a0 is the most
/// significant 4 bytes).
#[derive(Clone, Copy, Debug, PartialEq, Eq, Structural)]
pub struct Address {
    /// Most significant 4 bytes.
    pub a0: u32,
    /// Middle 8 bytes.
    pub a1: u64,
    /// Least significant 8 bytes.
    pub a2: u64,
}

/// A block identifier: hash plus number.
#[derive(Clone, Copy, Debug, PartialEq, Eq, Structural)]
pub struct BlockID {
    /// The block hash.
    pub hash: B256,
    /// The block number.
    pub number: u64,
}

/// An L1 block reference.
#[derive(Clone, Copy, Debug, PartialEq, Eq, Structural)]
pub struct BlockInfo {
    /// The block hash.
    pub hash: B256,
    /// The block number.
    pub number: u64,
    /// The hash of the parent block.
    pub parent_hash: B256,
    /// The block timestamp.
    pub timestamp: u64,
}

impl BlockInfo {
    /// A zeroed block reference.
    pub fn default_info() -> (r: BlockInfo)
        ensures
            r.number == 0,
            r.timestamp == 0,
            r.hash == (B256 { w0: 0, w1: 0, w2: 0, w3: 0 }),
            r.parent_hash == (B256 { w0: 0, w1: 0, w2: 0, w3: 0 }),
    {
        BlockInfo {
            hash: B256::zero(),
            number: 0,
            parent_hash: B256::zero(),
            timestamp: 0,
        }
    }
}

/// An L2 block reference: the block itself, the L1 origin it derives from,
/// and its sequence number within that epoch.
#[derive(Clone, Copy, Debug, PartialEq, Eq, Structural)]
pub struct L2BlockInfo {
    /// The L2 block.
    pub block_info: BlockInfo,
    /// The L1 origin (epoch) of this block.
    pub l1_origin: BlockID,
    /// The distance, in L2 blocks, from the first block of the epoch.
    pub seq_num: u64,
}

/// Rollup parameters that the pipeline validates batches against.
#[derive(Clone, Copy, Debug, PartialEq, Eq, Structural)]
pub struct RollupConfig {
    /// Seconds between consecutive L2 blocks.
    pub block_time: u64,
    /// Maximum seconds an L2 block's timestamp may run past its epoch's.
    pub max_sequencer_drift: u64,
    /// Maximum L1 distance, in blocks, between an L2 block and its epoch.
    pub seq_window_size: u64,
}

/// Rollup system parameters carried along the pipeline.
#[derive(Clone, Copy, Debug, PartialEq, Eq, Structural)]
pub struct SystemConfig {
    /// The address whose transactions carry rollup data.
    pub batcher_address: Address,
    /// The L2 block gas limit.
    pub gas_limit: u64,
}

/// The inputs handed to the execution engine to build one L2 block.
#[derive(Clone, Debug, PartialEq, Eq)]
pub struct PayloadAttributes {
    /// The timestamp of the block to build.
    pub timestamp: u64,
    /// The previous randao value.
    pub prev_randao: B256,
    /// The fee recipient suggested to the engine.
    pub suggested_fee_recipient: Address,
    /// The transactions to include, as opaque encoded bytes.
    pub transactions: Vec<Vec<u8>>,
    /// Whether the engine must not add mempool transactions.
    pub no_tx_pool: bool,
    /// The gas limit of the block to build.
    pub gas_limit: u64,
    /// The parent beacon block root, where known.
    pub parent_beacon_block_root: Option<B256>,
}

/// A transaction receipt, reduced to the fields the pipeline reads.
#[derive(Clone, Copy, Debug, PartialEq, Eq, Structural)]
pub struct Receipt {
    /// Whether the transaction succeeded.
    pub success: bool,
    /// Gas used by the block up to and including this transaction.
    pub cumulative_gas_used: u64,
}

/// An opaque encoded L1 transaction.
#[derive(Clone, Debug, PartialEq, Eq)]
pub struct TxEnvelope {
    /// The raw encoded transaction.
    pub encoded: Vec<u8>,
}

/// An opaque data-availability blob.
#[derive(Clone, Debug, PartialEq, Eq)]
pub struct Blob {
    /// The raw blob bytes.
    pub data: Vec<u8>,
}

/// A blob hash together with its index within the block.
#[derive(Clone, Copy, Debug, PartialEq, Eq, Structural)]
pub struct IndexedBlobHash {
    /// The index of the blob in the block.
    pub index: u64,
    /// The versioned hash of the blob.
    pub hash: B256,
}

/// An execution payload, reduced to the fields the pipeline reads.
#[derive(Clone, Copy, Debug, PartialEq, Eq, Structural)]
pub struct ExecutionPayload {
    /// The hash of the parent block.
    pub parent_hash: B256,
    /// The hash of this block.
    pub block_hash: B256,
    /// The number of this block.
    pub block_number: u64,
    /// The timestamp of this block.
    pub timestamp: u64,
}

/// An execution payload together with its beacon block root.
#[derive(Clone, Copy, Debug, PartialEq, Eq, Structural)]
pub struct ExecutionPayloadEnvelope {
    /// The parent beacon block root, where known.
    pub parent_beacon_block_root: Option<B256>,
    /// The execution payload.
    pub execution_payload: ExecutionPayload,
}

} // verus!
