//! The collaborator interfaces the pipeline consumes. Their
//! implementations live outside the pipeline; the mock implementations
//! under [`crate::test_utils`] serve the tests.

use vstd::prelude::*;
use crate::types::{Address, Blob, BlockInfo, ExecutionPayloadEnvelope, IndexedBlobHash,
    L2BlockInfo, Receipt, TxEnvelope, B256};
use crate::errors::StageError;

verus! {

/// Provides the pipeline origin: the L1 block a stage is currently
/// drawing data from.
pub trait OriginProvider {
    /// Returns the current L1 origin, where one is set.
    fn origin(&self) -> Option<&BlockInfo>;
}

/// A data source that can provide blobs.
pub trait BlobProvider {
    /// Fetches the blobs of the given block that carry the given hashes.
    fn get_blobs(&mut self, block_ref: &BlockInfo, blob_hashes: Vec<IndexedBlobHash>) -> Result<
        Vec<Blob>,
        StageError,
    >;
}

/// A data source that can provide information from the L1 chain.
pub trait ChainProvider {
    /// Returns the block at the given number, or an error if the data
    /// source does not hold it.
    fn block_info_by_number(&mut self, number: u64) -> Result<BlockInfo, StageError>;

    /// Returns all receipts in the block with the given hash, or an error
    /// if the data source does not hold it.
    fn receipts_by_hash(&mut self, hash: B256) -> Result<Vec<Receipt>, StageError>;

    /// Returns the block with the given hash and its transactions, or an
    /// error if the data source does not hold it.
    fn block_info_and_transactions_by_hash(&mut self, hash: B256) -> Result<
        (BlockInfo, Vec<TxEnvelope>),
        StageError,
    >;
}

/// An iterator over chunks of raw batcher data. Implementations live at
/// the I/O boundary outside the library; any suspension happens there,
/// and each pull hands the pipeline one plain byte blob.
pub trait AsyncIterator {
    /// Returns the next blob of data, an error, or `None` when the
    /// iterator is exhausted for the current L1 origin.
    fn next(&mut self) -> Option<Result<Vec<u8>, StageError>>;
}

/// A data source that can provide data-availability information.
pub trait DataAvailabilityProvider {
    /// The iterator over the data of one block.
    type DataIter: AsyncIterator;

    /// Returns the data availability iterator for the block with the
    /// given reference, reading the batcher transactions sent by the
    /// given address.
    fn open_data(&mut self, block_ref: &BlockInfo, batcher_address: Address) -> Result<
        Self::DataIter,
        StageError,
    >;
}

/// A data source that fetches safe L2 blocks.
pub trait SafeBlockFetcher {
    /// Returns the L2 block info for the given block number, or an error
    /// if the data source does not hold it.
    fn l2_block_info_by_number(&mut self, number: u64) -> Result<L2BlockInfo, StageError>;

    /// Returns the execution payload for the given block number, or an
    /// error if the data source does not hold it.
    fn payload_by_number(&mut self, number: u64) -> Result<ExecutionPayloadEnvelope, StageError>;
}

} // verus!
