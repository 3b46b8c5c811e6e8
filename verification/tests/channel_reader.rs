use kona_derive::batch::{Batch, SingleBatch, SpanBatch, encode_batch};
use kona_derive::channel_reader::{BatchReader, ChannelReader};
use kona_derive::errors::StageError;
use kona_derive::test_utils::MockChannelReaderProvider;
use kona_derive::channel_bank::ChannelBankStage;
use kona_derive::types::{B256, BlockInfo};

fn b256(x: u64) -> B256 {
    B256 { w0: 0, w1: 0, w2: 0, w3: x }
}

fn sample_single(ts: u64) -> SingleBatch {
    SingleBatch {
        parent_hash: b256(1),
        epoch_num: 7,
        epoch_hash: b256(2),
        timestamp: ts,
        transactions: vec![vec![0x01, 0x02], vec![0x7d]],
    }
}

fn new_compressed_batch_data() -> Vec<u8> {
    let span = Batch::Span(SpanBatch { batches: vec![sample_single(10), sample_single(12)] });
    let typed_data = encode_batch(&span);
    miniz_oxide::deflate::compress_to_vec_zlib(typed_data.as_slice(), 5)
}

#[test]
fn test_next_batch_batch_reader_set_fails() {
    let mock = MockChannelReaderProvider::new(vec![Err(StageError::Eof)]);
    let mut reader = ChannelReader::new(mock);
    assert_eq!(reader.next_batch(), Err(StageError::Eof));
    assert!(reader.next_batch.is_none());
}

#[test]
fn test_next_batch_batch_reader_no_data() {
    let mock = MockChannelReaderProvider::new(vec![Ok(None)]);
    let mut reader = ChannelReader::new(mock);
    assert_eq!(reader.next_batch(), Err(StageError::NoChannel));
    assert!(reader.next_batch.is_none());
}

#[test]
fn test_next_batch_not_enough_data() {
    let mock = MockChannelReaderProvider::new(vec![Ok(Some(Vec::new()))]);
    let mut reader = ChannelReader::new(mock);
    assert_eq!(reader.next_batch(), Err(StageError::NotEnoughData));
    assert!(reader.next_batch.is_none());
}

#[test]
fn test_next_batch_succeeds() {
    let raw = new_compressed_batch_data();
    let mock = MockChannelReaderProvider::new(vec![Ok(Some(raw))]);
    let mut reader = ChannelReader::new(mock);
    let res = reader.next_batch().unwrap();
    assert!(matches!(res, Batch::Span(_)));
    assert!(reader.next_batch.is_some());
}

#[test]
fn test_batch_reader() {
    let span = Batch::Span(SpanBatch { batches: vec![sample_single(10), sample_single(12)] });
    let typed_data = encode_batch(&span);
    let compressed_raw_data =
        miniz_oxide::deflate::compress_to_vec_zlib(typed_data.as_slice(), 5);
    let mut reader = BatchReader::new(compressed_raw_data);
    reader.next_batch().unwrap();
    assert_eq!(reader.cursor, typed_data.len());
}

#[test]
fn test_reader_two_batches_in_one_channel() {
    let first = Batch::Single(sample_single(20));
    let second = Batch::Single(sample_single(22));
    let mut typed_data = encode_batch(&first);
    typed_data.extend_from_slice(&encode_batch(&second));
    let compressed = miniz_oxide::deflate::compress_to_vec_zlib(typed_data.as_slice(), 5);
    let mut reader = BatchReader::new(compressed);
    let got_first = reader.next_batch().unwrap();
    let got_second = reader.next_batch().unwrap();
    assert_eq!(got_first, first);
    assert_eq!(got_second, second);
    assert_eq!(reader.cursor, typed_data.len());
    assert!(reader.next_batch().is_none());
}

#[test]
fn test_reader_rejects_garbage_stream() {
    let compressed = miniz_oxide::deflate::compress_to_vec_zlib(&[0xff, 0x00, 0x01], 5);
    let mut reader = BatchReader::new(compressed);
    assert!(reader.next_batch().is_none());
}

#[test]
fn test_next_channel_clears_state() {
    let raw = new_compressed_batch_data();
    let mock = MockChannelReaderProvider::new(vec![Ok(Some(raw))]);
    let mut reader = ChannelReader::new(mock);
    reader.next_batch().unwrap();
    assert!(reader.next_batch.is_some());
    reader.next_channel();
    assert!(reader.next_batch.is_none());
}

#[test]
fn reader_over_bank_stage_derives_batches_end_to_end() {
    // One channel, split over two frames, carrying one compressed batch.
    let single = Batch::Single(sample_single(30));
    let typed_data = encode_batch(&single);
    let compressed = miniz_oxide::deflate::compress_to_vec_zlib(typed_data.as_slice(), 5);
    let mid = compressed.len() / 2;
    let origin = BlockInfo {
        hash: b256(9),
        number: 100,
        parent_hash: b256(8),
        timestamp: 1000,
    };
    let mut stage = ChannelBankStage::new(origin);
    stage.bank.ingest_frame(
        kona_derive::frame::Frame {
            id: 1,
            number: 0,
            data: compressed[..mid].to_vec(),
            is_last: false,
        },
        100,
    );
    stage.bank.ingest_frame(
        kona_derive::frame::Frame {
            id: 1,
            number: 1,
            data: compressed[mid..].to_vec(),
            is_last: true,
        },
        100,
    );
    let mut reader = ChannelReader::new(stage);
    // The bank's front ready channel reaches the reader and decodes.
    assert_eq!(reader.next_batch(), Ok(single));
    assert!(reader.next_batch.is_some());
    // The channel left the bank on emission; the next pull finds nothing
    // behind the exhausted channel.
    assert_eq!(reader.next_batch(), Err(StageError::NotEnoughData));
    assert_eq!(reader.next_batch(), Err(StageError::NoChannel));
}
