use kona_derive::attributes_queue::{AttributesQueue, attach_batch};
use kona_derive::batch::{Batch, SingleBatch, SpanBatch};
use kona_derive::batch_queue::{check_batch, BatchQueue, BatchValidity};
use kona_derive::channel_bank::{Channel, ChannelBank};
use kona_derive::errors::{DecodeError, ResetError, StageError};
use kona_derive::frame::Frame;
use kona_derive::test_utils::{MockAttributesBuilder, MockBatchQueueProvider, MockBlockFetcher,
    new_attributes_provider, TestChainProvider};
use kona_derive::traits::{ChainProvider, SafeBlockFetcher};
use kona_derive::types::{Address, BlockID, BlockInfo, L2BlockInfo, PayloadAttributes,
    RollupConfig, B256, DEPOSIT_TX_TYPE, MAX_CHANNEL_BANK_SIZE};

fn b256(x: u64) -> B256 {
    B256 { w0: 0, w1: 0, w2: 0, w3: x }
}

fn frame(id: u128, number: u16, data: Vec<u8>, is_last: bool) -> Frame {
    Frame { id, number, data, is_last }
}

fn block(number: u64, hash: u64, timestamp: u64) -> BlockInfo {
    BlockInfo { hash: b256(hash), number, parent_hash: b256(0), timestamp }
}

fn parent(hash: u64, timestamp: u64, origin_num: u64, origin_hash: u64) -> L2BlockInfo {
    L2BlockInfo {
        block_info: BlockInfo {
            hash: b256(hash),
            number: 50,
            parent_hash: b256(0),
            timestamp,
        },
        l1_origin: BlockID { hash: b256(origin_hash), number: origin_num },
        seq_num: 0,
    }
}

fn cfg() -> RollupConfig {
    RollupConfig { block_time: 2, max_sequencer_drift: 600, seq_window_size: 10 }
}

fn batch(parent_hash: u64, ts: u64, epoch_num: u64, epoch_hash: u64) -> SingleBatch {
    SingleBatch {
        parent_hash: b256(parent_hash),
        epoch_num,
        epoch_hash: b256(epoch_hash),
        timestamp: ts,
        transactions: vec![vec![0x01]],
    }
}

#[test]
fn bank_assembles_channel_in_frame_order() {
    let mut bank = ChannelBank::new();
    bank.ingest_frame(frame(1, 0, vec![1, 2], false), 100);
    bank.ingest_frame(frame(1, 1, vec![3], true), 100);
    let payload = bank.next_data(100).unwrap();
    assert_eq!(payload, vec![1, 2, 3]);
    assert_eq!(bank.total_size, 0);
    assert!(bank.next_data(100).is_none());
}

#[test]
fn bank_payload_ignores_frame_arrival_order_and_duplicates() {
    // In order.
    let mut a = ChannelBank::new();
    a.ingest_frame(frame(1, 0, vec![1, 2], false), 100);
    a.ingest_frame(frame(1, 1, vec![3, 4], false), 100);
    a.ingest_frame(frame(1, 2, vec![5], true), 100);
    // Reordered, with duplicated frames that must be dropped.
    let mut b = ChannelBank::new();
    b.ingest_frame(frame(1, 2, vec![5], true), 100);
    b.ingest_frame(frame(1, 0, vec![1, 2], false), 100);
    b.ingest_frame(frame(1, 0, vec![9, 9], false), 100);
    b.ingest_frame(frame(1, 1, vec![3, 4], false), 100);
    b.ingest_frame(frame(1, 1, vec![3, 4], false), 100);
    let pa = a.next_data(100).unwrap();
    let pb = b.next_data(100).unwrap();
    assert_eq!(pa, pb);
    assert_eq!(pa, vec![1, 2, 3, 4, 5]);
}

#[test]
fn bank_incomplete_channel_emits_nothing() {
    let mut bank = ChannelBank::new();
    bank.ingest_frame(frame(1, 0, vec![1], false), 100);
    bank.ingest_frame(frame(1, 2, vec![3], true), 100);
    // Frame 1 is missing: not contiguous, nothing comes out.
    assert!(bank.next_data(100).is_none());
    bank.ingest_frame(frame(1, 1, vec![2], false), 100);
    assert_eq!(bank.next_data(100).unwrap(), vec![1, 2, 3]);
}

#[test]
fn bank_drops_frames_past_the_closing_number() {
    let mut bank = ChannelBank::new();
    bank.ingest_frame(frame(1, 0, vec![1], false), 100);
    bank.ingest_frame(frame(1, 1, vec![2], true), 100);
    // Past the closing frame: dropped whole.
    bank.ingest_frame(frame(1, 2, vec![3], false), 100);
    assert_eq!(bank.next_data(100).unwrap(), vec![1, 2]);
}

#[test]
fn bank_times_out_stale_channels() {
    let mut bank = ChannelBank::new();
    bank.ingest_frame(frame(1, 0, vec![1], true), 100);
    // Well past the channel timeout: the channel is gone.
    assert!(bank.next_data(100 + 301).is_none());
    assert_eq!(bank.total_size, 0);
}

#[test]
fn bank_evicts_oldest_when_over_budget() {
    let mut bank = ChannelBank::new();
    let big = (MAX_CHANNEL_BANK_SIZE as usize) / 2 + 1;
    bank.ingest_frame(frame(1, 0, vec![0u8; big], false), 100);
    bank.ingest_frame(frame(2, 0, vec![0u8; big], false), 100);
    // The two together run over the bound: the oldest channel leaves.
    assert!(bank.total_size <= MAX_CHANNEL_BANK_SIZE);
    assert_eq!(bank.channels.len(), 1);
    assert_eq!(bank.channels[0].id, 2u128);
}

#[test]
fn bank_reset_matches_fresh_bank() {
    let mut bank = ChannelBank::new();
    bank.ingest_frame(frame(1, 0, vec![1, 2, 3], false), 100);
    bank.reset();
    let fresh = ChannelBank::new();
    assert_eq!(bank.total_size, fresh.total_size);
    assert_eq!(bank.channels.len(), fresh.channels.len());
    // Replaying after the reset behaves exactly as a fresh bank does.
    bank.ingest_frame(frame(1, 0, vec![7], true), 200);
    assert_eq!(bank.next_data(200).unwrap(), vec![7]);
}

#[test]
fn channel_is_ready_only_when_contiguous_and_closed() {
    let mut c = Channel::open_channel(9, 5);
    assert!(!c.is_ready());
    assert!(c.add_frame(frame(9, 1, vec![2], true)));
    assert!(!c.is_ready());
    assert!(c.add_frame(frame(9, 0, vec![1], false)));
    assert!(c.is_ready());
    assert_eq!(c.assemble(), vec![1, 2]);
}

#[test]
fn check_batch_applies_rules_in_order() {
    let cfg = cfg();
    let p = parent(1, 100, 10, 20);
    let l1 = vec![block(10, 20, 90), block(11, 21, 95)];
    // The exact next block: accepted.
    assert_eq!(check_batch(&cfg, &l1, p, &batch(1, 102, 10, 20)), BatchValidity::Accept);
    // Wrong parent hash: dropped.
    assert_eq!(check_batch(&cfg, &l1, p, &batch(2, 102, 10, 20)), BatchValidity::Drop);
    // Old timestamp: dropped; future timestamp: retained for later.
    assert_eq!(check_batch(&cfg, &l1, p, &batch(1, 100, 10, 20)), BatchValidity::Drop);
    assert_eq!(check_batch(&cfg, &l1, p, &batch(1, 104, 10, 20)), BatchValidity::Future);
    // Epoch out of the sequencing window: dropped.
    assert_eq!(check_batch(&cfg, &l1, p, &batch(1, 102, 21, 20)), BatchValidity::Drop);
    // Epoch hash mismatch: dropped.
    assert_eq!(check_batch(&cfg, &l1, p, &batch(1, 102, 10, 99)), BatchValidity::Drop);
    // Unknown epoch block: undecided, more L1 is needed.
    let l1_short = vec![block(11, 21, 95)];
    assert_eq!(check_batch(&cfg, &l1_short, p, &batch(1, 102, 10, 20)),
        BatchValidity::Undecided);
    // Unknown next epoch: undecided as well.
    let l1_no_next = vec![block(10, 20, 90)];
    assert_eq!(check_batch(&cfg, &l1_no_next, p, &batch(1, 102, 10, 20)),
        BatchValidity::Undecided);
    // Timestamp before its epoch: dropped.
    let l1_late = vec![block(10, 20, 103), block(11, 21, 110)];
    assert_eq!(check_batch(&cfg, &l1_late, p, &batch(1, 102, 10, 20)), BatchValidity::Drop);
}

#[test]
fn check_batch_rejects_bad_transactions() {
    let cfg = cfg();
    let p = parent(1, 100, 10, 20);
    let l1 = vec![block(10, 20, 90), block(11, 21, 95)];
    let mut empty_tx = batch(1, 102, 10, 20);
    empty_tx.transactions = vec![Vec::new()];
    assert_eq!(check_batch(&cfg, &l1, p, &empty_tx), BatchValidity::Drop);
    let mut deposit = batch(1, 102, 10, 20);
    deposit.transactions = vec![vec![DEPOSIT_TX_TYPE, 0x01]];
    assert_eq!(check_batch(&cfg, &l1, p, &deposit), BatchValidity::Drop);
}

#[test]
fn queue_emits_first_acceptable_batch_and_drops_stale_ones() {
    let cfg = cfg();
    let p = parent(1, 100, 10, 20);
    let mut q = BatchQueue::new(MockBatchQueueProvider::new(vec![]));
    q.advance_origin(block(10, 20, 90));
    q.advance_origin(block(11, 21, 95));
    q.add_batch(Batch::Single(batch(9, 90, 10, 20)));  // stale: dropped
    q.add_batch(Batch::Single(batch(1, 102, 10, 20))); // next block: accepted
    q.add_batch(Batch::Single(batch(1, 104, 10, 20))); // future: retained
    let got = q.derive_next_batch(&cfg, p).unwrap();
    assert_eq!(got.timestamp, 102);
    assert_eq!(q.batches.len(), 1);
    assert_eq!(q.batches[0].timestamp, 104);
}

#[test]
fn queue_expands_spans_at_ingest() {
    let mut q = BatchQueue::new(MockBatchQueueProvider::new(vec![]));
    q.add_batch(Batch::Span(SpanBatch {
        batches: vec![batch(1, 102, 10, 20), batch(2, 104, 10, 20)],
    }));
    assert_eq!(q.batches.len(), 2);
    assert_eq!(q.batches[0].timestamp, 102);
    assert_eq!(q.batches[1].timestamp, 104);
}

#[test]
fn queue_fills_gap_when_window_closes() {
    let cfg = cfg();
    let p = parent(1, 100, 10, 20);
    let mut q = BatchQueue::new(MockBatchQueueProvider::new(vec![]));
    // The sequencer withheld data for timestamp 102; the origin has run
    // past the sequencing window.
    q.advance_origin(block(21, 31, 120));
    let got = q.derive_next_batch(&cfg, p).unwrap();
    assert_eq!(got.timestamp, 102);
    assert_eq!(got.parent_hash, b256(1));
    assert_eq!(got.epoch_num, 10);
    assert_eq!(got.epoch_hash, b256(20));
    assert!(got.transactions.is_empty());
}

#[test]
fn queue_asks_for_more_l1_when_undecided() {
    let cfg = cfg();
    let p = parent(1, 100, 10, 20);
    let mut q = BatchQueue::new(MockBatchQueueProvider::new(vec![]));
    q.advance_origin(block(11, 21, 95));
    assert_eq!(q.derive_next_batch(&cfg, p), Err(StageError::Eof));
    q.add_batch(Batch::Single(batch(1, 104, 10, 20)));
    assert_eq!(q.derive_next_batch(&cfg, p), Err(StageError::NotEnoughData));
}

#[test]
fn queue_without_origin_requests_reset() {
    let cfg = cfg();
    let p = parent(1, 100, 10, 20);
    let mut q = BatchQueue::new(MockBatchQueueProvider::new(vec![]));
    assert_eq!(q.derive_next_batch(&cfg, p), Err(StageError::MissingOrigin));
}

#[test]
fn queue_reset_matches_fresh_queue() {
    let cfg = cfg();
    let p = parent(1, 100, 10, 20);
    let mut q = BatchQueue::new(MockBatchQueueProvider::new(vec![]));
    q.advance_origin(block(11, 21, 95));
    q.add_batch(Batch::Single(batch(1, 102, 10, 20)));
    q.reset();
    assert!(q.batches.is_empty());
    assert!(q.l1_blocks.is_empty());
    assert!(q.origin.is_none());
    // After re-anchoring, the reset queue derives what a fresh one would.
    let mut fresh = BatchQueue::new(MockBatchQueueProvider::new(vec![]));
    for queue in [&mut q, &mut fresh] {
        queue.advance_origin(block(10, 20, 90));
        queue.advance_origin(block(11, 21, 95));
        queue.add_batch(Batch::Single(batch(1, 102, 10, 20)));
    }
    assert_eq!(q.derive_next_batch(&cfg, p), fresh.derive_next_batch(&cfg, p));
}

#[test]
fn attributes_attach_batch_transactions() {
    let attrs = PayloadAttributes {
        timestamp: 102,
        prev_randao: b256(5),
        suggested_fee_recipient: Address { a0: 0, a1: 0, a2: 7 },
        transactions: Vec::new(),
        no_tx_pool: false,
        gas_limit: 30_000_000,
        parent_beacon_block_root: None,
    };
    let b = batch(1, 102, 10, 20);
    let r = attach_batch(attrs, b.clone());
    assert!(r.no_tx_pool);
    assert_eq!(r.transactions, b.transactions);
    assert_eq!(r.gas_limit, 30_000_000);
}

#[test]
fn attributes_queue_surfaces_builder_failure_as_fatal() {
    let p = parent(1, 100, 10, 20);
    let provider = new_attributes_provider(None, vec![Ok(batch(1, 102, 10, 20))]);
    let builder = MockAttributesBuilder { attributes: vec![] };
    let mut aq = AttributesQueue::new(provider, builder);
    assert_eq!(aq.next_attributes(p), Err(StageError::AttributesBuild(String::new())));
}

#[test]
fn attributes_queue_builds_attributes() {
    let p = parent(1, 100, 10, 20);
    let attrs = PayloadAttributes {
        timestamp: 102,
        prev_randao: b256(5),
        suggested_fee_recipient: Address { a0: 0, a1: 0, a2: 7 },
        transactions: Vec::new(),
        no_tx_pool: false,
        gas_limit: 30_000_000,
        parent_beacon_block_root: None,
    };
    let provider = new_attributes_provider(None, vec![Ok(batch(1, 102, 10, 20))]);
    let builder = MockAttributesBuilder { attributes: vec![Ok(attrs)] };
    let mut aq = AttributesQueue::new(provider, builder);
    let got = aq.next_attributes(p).unwrap();
    assert!(got.no_tx_pool);
    assert_eq!(got.transactions, vec![vec![0x01]]);
    // Upstream exhaustion passes through.
    assert_eq!(aq.next_attributes(p), Err(StageError::Eof));
}

#[test]
fn stage_error_equality_compares_discriminants_and_reorg_hashes() {
    assert_eq!(StageError::Custom("a".to_string()), StageError::Custom("b".to_string()));
    assert_ne!(StageError::Eof, StageError::NotEnoughData);
    assert_eq!(StageError::ReorgDetected(b256(1), b256(2)),
        StageError::ReorgDetected(b256(1), b256(2)));
    assert_ne!(StageError::ReorgDetected(b256(1), b256(2)),
        StageError::ReorgDetected(b256(1), b256(3)));
    assert_eq!(StageError::Reset(ResetError::BadTimestamp(1, 2)),
        StageError::Reset(ResetError::BadTimestamp(1, 2)));
    assert_ne!(StageError::Reset(ResetError::BadTimestamp(1, 2)),
        StageError::Reset(ResetError::BadParentHash(b256(1), b256(2))));
}

#[test]
fn mock_block_fetcher_finds_blocks_and_payloads() {
    let l2 = L2BlockInfo {
        block_info: block(7, 70, 700),
        l1_origin: BlockID { hash: b256(1), number: 3 },
        seq_num: 0,
    };
    let mut f = MockBlockFetcher::new(vec![l2], vec![]);
    assert_eq!(f.l2_block_info_by_number(7).unwrap(), l2);
    assert!(f.l2_block_info_by_number(8).is_err());
    assert!(f.payload_by_number(7).is_err());
}

#[test]
fn test_chain_provider_inserts_and_clears() {
    let mut p = TestChainProvider::new();
    let b = block(5, 50, 500);
    p.insert_block(5, b);
    assert_eq!(p.block_info_by_number(5).unwrap(), b);
    let (found, txs) = p.block_info_and_transactions_by_hash(b256(50)).unwrap();
    assert_eq!(found, b);
    assert!(txs.is_empty());
    assert_eq!(p.block_info_and_transactions_by_hash(b256(51)),
        Err(StageError::BlockFetch(b256(51))));
    p.insert_receipts(b256(50), vec![]);
    p.clear();
    assert!(p.block_info_by_number(5).is_err());
    assert!(p.receipts_by_hash(b256(50)).is_err());
}

#[test]
fn same_inputs_derive_identical_outputs() {
    // Two pipelines fed the same frames emit byte-identical payloads,
    // whatever the pull pacing: pull eagerly on one, lazily on the other.
    let frames = vec![
        frame(1, 0, vec![1, 2], false),
        frame(1, 1, vec![3], true),
        frame(2, 0, vec![4], true),
    ];
    let mut eager = ChannelBank::new();
    let mut lazy = ChannelBank::new();
    let mut eager_out: Vec<Vec<u8>> = Vec::new();
    for f in frames.clone() {
        eager.ingest_frame(f, 100);
        while let Some(p) = eager.next_data(100) {
            eager_out.push(p);
        }
    }
    let mut lazy_out: Vec<Vec<u8>> = Vec::new();
    for f in frames {
        lazy.ingest_frame(f, 100);
    }
    while let Some(p) = lazy.next_data(100) {
        lazy_out.push(p);
    }
    assert_eq!(eager_out, lazy_out);
    assert_eq!(eager_out, vec![vec![1, 2, 3], vec![4]]);
}

#[test]
fn decode_error_compares_by_discriminant() {
    assert_eq!(DecodeError::EmptyBuffer, DecodeError::EmptyBuffer);
    assert_ne!(DecodeError::EmptyBuffer, DecodeError::Rlp);
}
