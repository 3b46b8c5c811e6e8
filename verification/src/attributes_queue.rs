//! The attributes queue: turns each accepted single batch into payload
//! attributes by consulting an external attributes builder, then attaching
//! the batch's transactions.

use vstd::prelude::*;
use crate::batch::SingleBatch;
use crate::errors::{StageError, StageResult};
use crate::traits::OriginProvider;
use crate::types::{BlockID, L2BlockInfo, PayloadAttributes};

verus! {

/// Builds the payload attributes of the next L2 block from the parent and
/// the epoch. Implementations live outside the pipeline.
pub trait AttributesBuilder {
    /// Prepares the payload attributes for the block after `l2_parent`
    /// within the given epoch; the message of the error, if any, is
    /// surfaced as a fatal build failure.
    fn prepare_payload_attributes(&mut self, l2_parent: L2BlockInfo, epoch: BlockID) -> Result<
        PayloadAttributes,
        String,
    >;
}

/// The provider of the attributes queue: the batch queue beneath it.
pub trait AttributesProvider {
    /// Pulls the next single batch in L2 order.
    fn next_batch(&mut self, parent: L2BlockInfo) -> StageResult<SingleBatch>;

    /// Whether the batch last returned closed a span.
    fn is_last_in_span(&self) -> bool;
}

/// Attaches a batch's content to built attributes: the transactions come
/// from the batch, and the transaction pool is kept out of the block.
pub fn attach_batch(attrs: PayloadAttributes, batch: SingleBatch) -> (r: PayloadAttributes)
    ensures
        r.transactions == batch.transactions,
        r.no_tx_pool == true,
        r.timestamp == attrs.timestamp,
        r.prev_randao == attrs.prev_randao,
        r.suggested_fee_recipient == attrs.suggested_fee_recipient,
        r.gas_limit == attrs.gas_limit,
        r.parent_beacon_block_root == attrs.parent_beacon_block_root,
{
    PayloadAttributes {
        timestamp: attrs.timestamp,
        prev_randao: attrs.prev_randao,
        suggested_fee_recipient: attrs.suggested_fee_recipient,
        transactions: batch.transactions,
        no_tx_pool: true,
        gas_limit: attrs.gas_limit,
        parent_beacon_block_root: attrs.parent_beacon_block_root,
    }
}

/// The attributes queue stage: pulls accepted batches and converts each
/// into payload attributes through the builder.
#[derive(Debug)]
pub struct AttributesQueue<P, B> {
    /// The previous stage of the derivation pipeline.
    pub prev: P,
    /// The external attributes builder.
    pub builder: B,
}

impl<P: AttributesProvider + OriginProvider, B: AttributesBuilder> AttributesQueue<P, B> {
    /// Creates a new attributes queue over the given provider and builder.
    pub fn new(prev: P, builder: B) -> (r: AttributesQueue<P, B>)
        ensures
            r.prev == prev,
            r.builder == builder,
    {
        AttributesQueue { prev, builder }
    }

    /// Builds the attributes of one accepted batch: whatever the builder
    /// returns carries the batch's transactions and shuts out the
    /// transaction pool; a builder failure is fatal.
    pub fn create_next_attributes(&mut self, batch: SingleBatch, parent: L2BlockInfo) -> (r:
        StageResult<PayloadAttributes>)
        ensures
            match r {
                Result::Ok(a) => a.no_tx_pool && a.transactions == batch.transactions,
                Result::Err(e) => e is AttributesBuild,
            },
    {
        let epoch = BlockID { hash: batch.epoch_hash, number: batch.epoch_num };
        match self.builder.prepare_payload_attributes(parent, epoch) {
            Result::Ok(attrs) => Ok(attach_batch(attrs, batch)),
            Result::Err(msg) => Err(StageError::AttributesBuild(msg)),
        }
    }

    /// Pulls the next batch and converts it into payload attributes.
    /// Errors from the stages beneath pass through; a builder failure is
    /// fatal.
    pub fn next_attributes(&mut self, parent: L2BlockInfo) -> (r: StageResult<PayloadAttributes>)
        ensures
            r matches Ok(a) ==> a.no_tx_pool,
    {
        let batch = match self.prev.next_batch(parent) {
            Result::Ok(b) => b,
            Result::Err(e) => {
                return Err(e);
            },
        };
        self.create_next_attributes(batch, parent)
    }
}

} // verus!
