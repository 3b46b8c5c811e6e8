use kona_derive::batch::{Batch, SingleBatch, SpanBatch, decode_batch, encode_batch,
    BATCH_TYPE_SINGLE, BATCH_TYPE_SPAN};
use kona_derive::errors::{into_frames, StageError};
use kona_derive::frame::{parse_frame, parse_frames, Frame};
use kona_derive::hint::{HintWriter, PipeHandle};
use kona_derive::rlp::{encode_u64_into, rlp_u64, encode_b256_into, rlp_b256};
use kona_derive::types::{B256, DERIVATION_VERSION_0};

fn b256(x: u64) -> B256 {
    B256 { w0: 0, w1: 0, w2: 0, w3: x }
}

fn frame_bytes(id: u8, number: u16, data: &[u8], is_last: bool) -> Vec<u8> {
    let mut out = Vec::new();
    let mut cid = [0u8; 16];
    cid[15] = id;
    out.extend_from_slice(&cid);
    out.extend_from_slice(&number.to_be_bytes());
    out.extend_from_slice(&(data.len() as u32).to_be_bytes());
    out.extend_from_slice(data);
    out.push(if is_last { 1 } else { 0 });
    out
}

#[test]
fn parse_single_frame_exact_fields() {
    let mut encoded = vec![DERIVATION_VERSION_0];
    encoded.extend_from_slice(&frame_bytes(5, 2, &[0xaa, 0xbb, 0xcc], true));
    let frames = parse_frames(&encoded).unwrap();
    assert_eq!(frames.len(), 1);
    assert_eq!(frames[0].id, 5u128);
    assert_eq!(frames[0].number, 2);
    assert_eq!(frames[0].data, vec![0xaa, 0xbb, 0xcc]);
    assert!(frames[0].is_last);
}

#[test]
fn parse_two_frames_from_one_blob() {
    let mut encoded = vec![DERIVATION_VERSION_0];
    encoded.extend_from_slice(&frame_bytes(1, 0, &[1, 2], false));
    encoded.extend_from_slice(&frame_bytes(1, 1, &[3], true));
    let frames = parse_frames(&encoded).unwrap();
    assert_eq!(frames.len(), 2);
    assert_eq!(frames[0].number, 0);
    assert_eq!(frames[1].number, 1);
    assert_eq!(frames[1].data, vec![3]);
}

#[test]
fn parse_frames_rejects_malformed_blobs() {
    // Empty data.
    assert!(parse_frames(&Vec::new()).is_none());
    // Wrong version byte.
    let mut bad_version = vec![1u8];
    bad_version.extend_from_slice(&frame_bytes(1, 0, &[1], true));
    assert!(parse_frames(&bad_version).is_none());
    // Version byte with no frames behind it.
    assert!(parse_frames(&vec![DERIVATION_VERSION_0]).is_none());
    // Truncated frame.
    let mut truncated = vec![DERIVATION_VERSION_0];
    truncated.extend_from_slice(&frame_bytes(1, 0, &[1, 2, 3], true));
    truncated.pop();
    assert!(parse_frames(&truncated).is_none());
    // A closing byte that is neither 0 nor 1.
    let mut bad_last = vec![DERIVATION_VERSION_0];
    let mut f = frame_bytes(1, 0, &[1], true);
    *f.last_mut().unwrap() = 2;
    bad_last.extend_from_slice(&f);
    assert!(parse_frames(&bad_last).is_none());
}

#[test]
fn parse_frame_reports_consumed_length() {
    let f = frame_bytes(9, 4, &[7, 8, 9, 10], false);
    let (frame, consumed) = parse_frame(&f, 0).unwrap();
    assert_eq!(consumed, 23 + 4);
    assert_eq!(frame.number, 4);
    assert_eq!(frame.id, 9u128);
}

#[test]
fn into_frames_maps_errors() {
    let mut encoded = vec![DERIVATION_VERSION_0];
    encoded.extend_from_slice(&frame_bytes(3, 0, &[1], true));
    let frames = into_frames(Ok(encoded)).unwrap();
    assert_eq!(frames.len(), 1);
    assert_eq!(into_frames(Err(StageError::Eof)), Err(StageError::Eof));
    let bad = into_frames(Ok(vec![0xffu8]));
    assert_eq!(bad, Err(StageError::Custom(String::new())));
}

#[test]
fn rlp_u64_round_trips() {
    for v in [0u64, 1, 0x7f, 0x80, 0xff, 0x100, 56, 0xdeadbeef, u64::MAX] {
        let mut enc = Vec::new();
        encode_u64_into(&mut enc, v);
        let (got, used) = rlp_u64(&enc, 0).unwrap();
        assert_eq!(got, v);
        assert_eq!(used, enc.len());
    }
}

#[test]
fn rlp_u64_rejects_leading_zero() {
    // 0x820080 would be the scalar 0x80 with a leading zero byte.
    let bad = vec![0x82u8, 0x00, 0x80];
    assert!(rlp_u64(&bad, 0).is_none());
}

#[test]
fn rlp_b256_round_trips() {
    let h = B256 { w0: 0x0102030405060708, w1: 9, w2: 10, w3: u64::MAX };
    let mut enc = Vec::new();
    encode_b256_into(&mut enc, &h);
    assert_eq!(enc.len(), 33);
    assert_eq!(enc[0], 0xa0);
    let (got, used) = rlp_b256(&enc, 0).unwrap();
    assert_eq!(got, h);
    assert_eq!(used, 33);
}

fn sample_single(ts: u64) -> SingleBatch {
    SingleBatch {
        parent_hash: b256(11),
        epoch_num: 3,
        epoch_hash: b256(12),
        timestamp: ts,
        transactions: vec![vec![0x01, 0x02, 0x03], vec![0x04]],
    }
}

#[test]
fn single_batch_round_trips() {
    let batch = Batch::Single(sample_single(42));
    let enc = encode_batch(&batch);
    assert_eq!(enc[0], BATCH_TYPE_SINGLE);
    let (got, used) = decode_batch(&enc, 0).unwrap();
    assert_eq!(got, batch);
    assert_eq!(used, enc.len());
}

#[test]
fn span_batch_round_trips_to_same_singles() {
    let singles = vec![sample_single(42), sample_single(44), sample_single(46)];
    let span = Batch::Span(SpanBatch { batches: singles.clone() });
    let enc = encode_batch(&span);
    assert_eq!(enc[0], BATCH_TYPE_SPAN);
    let (got, used) = decode_batch(&enc, 0).unwrap();
    assert_eq!(used, enc.len());
    match got {
        Batch::Span(s) => assert_eq!(s.get_singular_batches(), singles),
        Batch::Single(_) => panic!("expected a span"),
    }
    // Re-encoding the decoded span gives identical bytes.
    let (again, _) = decode_batch(&enc, 0).unwrap();
    assert_eq!(encode_batch(&again), enc);
}

#[test]
fn decode_batch_rejects_bad_discriminator() {
    let enc = vec![2u8, 0xc0];
    assert!(decode_batch(&enc, 0).is_none());
}

#[test]
fn hint_encoding_is_length_prefixed() {
    let writer = HintWriter::new(PipeHandle::new(3, 4));
    assert_eq!(writer.pipe_handle.read_handle, 3);
    let hint = vec![0x68u8, 0x69];
    let encoded = HintWriter::encode_hint(&hint);
    assert_eq!(encoded, vec![0, 0, 0, 2, 0x68, 0x69]);
}
