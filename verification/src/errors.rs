//! The closed error taxonomy of the pipeline stages.
//!
//! Equality on stage errors compares only the discriminant, except for
//! `Reset` and `ReorgDetected`, which compare their payloads: several
//! variants carry opaque messages that equality ignores.

use vstd::prelude::*;
use crate::types::B256;
use crate::frame::{Frame, frames_view, spec_parse_frames, parse_frames};

verus! {

/// A result type for the derivation pipeline stages.
pub type StageResult<T> = Result<T, StageError>;

/// An unrecoverable anchor violation that forces a pipeline reset.
#[derive(Clone, Copy, Debug, PartialEq, Eq, Structural)]
pub enum ResetError {
    /// A batch carried the wrong parent hash: expected, then actual.
    BadParentHash(B256, B256),
    /// A batch carried the wrong timestamp: expected, then actual.
    BadTimestamp(u64, u64),
}

/// An error thrown within the stages of the derivation pipeline.
#[derive(Debug)]
pub enum StageError {
    /// The upstream source is exhausted for this L1 origin.
    Eof,
    /// Not enough data yet; progressing L1 will eventually yield data
    /// or an explicit end.
    NotEnoughData,
    /// Failed to fetch block info and transactions by this hash.
    BlockFetch(B256),
    /// No item returned from the previous stage's iterator.
    Empty,
    /// No channels are available in the channel bank.
    NoChannelsAvailable,
    /// No channel returned by the channel-reading stage.
    NoChannel,
    /// Failed to find a channel.
    ChannelNotFound,
    /// The L1 origin is missing.
    MissingOrigin,
    /// Failed to build payload attributes for the next batch.
    AttributesBuild(String),
    /// The pipeline must reset.
    Reset(ResetError),
    /// A block reorganisation was detected: the expected block hash,
    /// then the parent hash of the next L1 origin block.
    ReorgDetected(B256, B256),
    /// Receipt fetching failed.
    ReceiptFetch(String),
    /// Block info fetching failed.
    BlockInfoFetch(String),
    /// A system configuration update could not be read.
    SystemConfigUpdate(String),
    /// Any other, unclassified error.
    Custom(String),
}

/// What `==` means on stage errors: the discriminant alone, except that
/// `Reset` and `ReorgDetected` also compare their payloads.
pub open spec fn stage_error_eq_spec(a: &StageError, b: &StageError) -> bool {
    match (a, b) {
        (StageError::ReorgDetected(x1, y1), StageError::ReorgDetected(x2, y2)) =>
            x1 == x2 && y1 == y2,
        (StageError::Reset(r1), StageError::Reset(r2)) => r1 == r2,
        (StageError::Eof, StageError::Eof) => true,
        (StageError::NotEnoughData, StageError::NotEnoughData) => true,
        (StageError::BlockFetch(_), StageError::BlockFetch(_)) => true,
        (StageError::Empty, StageError::Empty) => true,
        (StageError::NoChannelsAvailable, StageError::NoChannelsAvailable) => true,
        (StageError::NoChannel, StageError::NoChannel) => true,
        (StageError::ChannelNotFound, StageError::ChannelNotFound) => true,
        (StageError::MissingOrigin, StageError::MissingOrigin) => true,
        (StageError::AttributesBuild(_), StageError::AttributesBuild(_)) => true,
        (StageError::ReceiptFetch(_), StageError::ReceiptFetch(_)) => true,
        (StageError::BlockInfoFetch(_), StageError::BlockInfoFetch(_)) => true,
        (StageError::SystemConfigUpdate(_), StageError::SystemConfigUpdate(_)) => true,
        (StageError::Custom(_), StageError::Custom(_)) => true,
        _ => false,
    }
}

impl PartialEq for StageError {
    fn eq(&self, other: &StageError) -> (r: bool) {
        match (self, other) {
            (StageError::ReorgDetected(x1, y1), StageError::ReorgDetected(x2, y2)) =>
                x1 == x2 && y1 == y2,
            (StageError::Reset(r1), StageError::Reset(r2)) => r1 == r2,
            (StageError::Eof, StageError::Eof) => true,
            (StageError::NotEnoughData, StageError::NotEnoughData) => true,
            (StageError::BlockFetch(_), StageError::BlockFetch(_)) => true,
            (StageError::Empty, StageError::Empty) => true,
            (StageError::NoChannelsAvailable, StageError::NoChannelsAvailable) => true,
            (StageError::NoChannel, StageError::NoChannel) => true,
            (StageError::ChannelNotFound, StageError::ChannelNotFound) => true,
            (StageError::MissingOrigin, StageError::MissingOrigin) => true,
            (StageError::AttributesBuild(_), StageError::AttributesBuild(_)) => true,
            (StageError::ReceiptFetch(_), StageError::ReceiptFetch(_)) => true,
            (StageError::BlockInfoFetch(_), StageError::BlockInfoFetch(_)) => true,
            (StageError::SystemConfigUpdate(_), StageError::SystemConfigUpdate(_)) => true,
            (StageError::Custom(_), StageError::Custom(_)) => true,
            _ => false,
        }
    }
}

impl vstd::std_specs::cmp::PartialEqSpecImpl for StageError {
    open spec fn obeys_eq_spec() -> bool {
        true
    }

    open spec fn eq_spec(&self, other: &StageError) -> bool {
        stage_error_eq_spec(self, other)
    }
}

/// A batch decoding error.
#[derive(Clone, Copy, Debug, PartialEq, Eq, Structural)]
pub enum DecodeError {
    /// The buffer is empty.
    EmptyBuffer,
    /// The RLP body of the batch is malformed.
    Rlp,
}

/// Converts a pulled blob into its frames: a malformed blob becomes an
/// opaque error, and an upstream error passes through.
pub fn into_frames(result: StageResult<Vec<u8>>) -> (r: StageResult<Vec<Frame>>)
    ensures
        match result {
            Result::Ok(data) => match r {
                Result::Ok(fs) => spec_parse_frames(data@) == Some(frames_view(fs@)),
                Result::Err(e) => spec_parse_frames(data@) is None && e is Custom,
            },
            Result::Err(e) => r == Result::<Vec<Frame>, StageError>::Err(e),
        },
{
    match result {
        Result::Ok(data) => match parse_frames(&data) {
            Option::Some(fs) => Ok(fs),
            Option::None => Err(StageError::Custom("invalid frame data".to_string())),
        },
        Result::Err(e) => Err(e),
    }
}

} // verus!
