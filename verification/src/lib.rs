//! Core of an optimistic-rollup derivation pipeline: the deterministic
//! transformation from L1 data-availability bytes into ordered L2 payload
//! attributes. Frames are parsed from batcher data, reassembled into
//! channels, decompressed and RLP-decoded into batches, validated against
//! the L2 parent chain, and emitted as payload attributes.

pub mod batch;
pub mod attributes_queue;
pub mod batch_queue;
pub mod channel_bank;
pub mod channel_reader;
pub mod errors;
pub mod frame;
pub mod hint;
pub mod rlp;
pub mod test_utils;
pub mod traits;
pub mod types;
