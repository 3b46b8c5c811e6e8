//! The channel-reading stage: turns completed channel payloads into a
//! stream of batches.
//!
//! A channel payload is a zlib stream; decompressed, it is a concatenation
//! of batch envelopes. The reader decompresses once, bounded by
//! [`MAX_RLP_BYTES_PER_CHANNEL`], then decodes one envelope per pull,
//! advancing a cursor.

use vstd::prelude::*;
use crate::batch::{Batch, BatchV, spec_decode_batch, decode_batch};
use crate::errors::{StageError, StageResult};
use crate::traits::OriginProvider;
use crate::types::{BlockInfo, MAX_RLP_BYTES_PER_CHANNEL};

verus! {

/// What zlib inflation yields on the given stream, bytes trailing the
/// end of the deflate stream ignored: `Some` with the decompressed
/// bytes, or `None` when no valid stream can be inflated. The result
/// depends on the input bytes alone.
pub uninterp spec fn zlib_decompress(input: Seq<u8>) -> Option<Seq<u8>>;

/// Relies on miniz_oxide's decompress_to_vec_zlib_with_limit: inflates a
/// whole zlib stream into a vector, failing when the stream is malformed
/// or the output would exceed `max_size` bytes.
#[verifier::external_body]
fn decompress_zlib_limited(input: &Vec<u8>, max_size: usize) -> (r: Option<Vec<u8>>)
    ensures
        match r {
            Option::Some(out) => zlib_decompress(input@) == Some(out@)
                && out@.len() <= max_size,
            Option::None => match zlib_decompress(input@) {
                Option::Some(o) => o.len() > max_size,
                Option::None => true,
            },
        },
{
    miniz_oxide::inflate::decompress_to_vec_zlib_with_limit(input.as_slice(), max_size).ok()
}

/// Decompression as the reader applies it: a valid zlib stream whose
/// output fits in [`MAX_RLP_BYTES_PER_CHANNEL`] bytes.
pub open spec fn spec_channel_decompress(raw: Seq<u8>) -> Option<Seq<u8>> {
    match zlib_decompress(raw) {
        Option::Some(o) => if o.len() <= MAX_RLP_BYTES_PER_CHANNEL {
            Some(o)
        } else {
            None
        },
        Option::None => None,
    }
}

/// Iteratively consumes batches from one channel's bytes. The reader
/// decodes every batch type; the caller filters the results.
#[derive(Debug)]
pub struct BatchReader {
    /// The raw channel data, present until it is decompressed.
    pub data: Option<Vec<u8>>,
    /// The decompressed channel data.
    pub decompressed: Vec<u8>,
    /// The position in `decompressed` of the next batch to decode.
    pub cursor: usize,
}

/// The mathematical value of a [`BatchReader`].
pub ghost struct BatchReaderV {
    /// The raw channel data, present until it is decompressed.
    pub data: Option<Seq<u8>>,
    /// The decompressed channel data.
    pub decompressed: Seq<u8>,
    /// The position of the next batch to decode.
    pub cursor: int,
}

impl View for BatchReader {
    type V = BatchReaderV;

    open spec fn view(&self) -> BatchReaderV {
        BatchReaderV {
            data: match self.data {
                Option::Some(d) => Some(d@),
                Option::None => None,
            },
            decompressed: self.decompressed@,
            cursor: self.cursor as int,
        }
    }
}

/// One pull on a batch reader: what it returns and the state it leaves.
/// Raw data, where present, is decompressed first and dropped on failure;
/// then one batch envelope is decoded at the cursor.
pub open spec fn spec_reader_step(s: BatchReaderV) -> (Option<BatchV>, BatchReaderV) {
    if s.data is Some && spec_channel_decompress(s.data->Some_0) is None {
        (
            None,
            BatchReaderV { data: None, decompressed: s.decompressed, cursor: s.cursor },
        )
    } else {
        let dec = if s.data is Some {
            spec_channel_decompress(s.data->Some_0)->Some_0
        } else {
            s.decompressed
        };
        let cur = if s.data is Some {
            0
        } else {
            s.cursor
        };
        if 0 <= cur <= dec.len() {
            match spec_decode_batch(dec.skip(cur)) {
                Option::Some((b, n)) => (
                    Some(b),
                    BatchReaderV { data: None, decompressed: dec, cursor: cur + n },
                ),
                Option::None => (
                    None,
                    BatchReaderV { data: None, decompressed: dec, cursor: cur },
                ),
            }
        } else {
            (None, BatchReaderV { data: None, decompressed: dec, cursor: cur })
        }
    }
}

impl BatchReader {
    /// A reader is well formed when its cursor stays within the
    /// decompressed bytes and resets with fresh raw data.
    pub open spec fn wf(&self) -> bool {
        self.cursor <= self.decompressed@.len() && (self.data is Some ==> self.cursor == 0
            && self.decompressed@.len() == 0)
    }

    /// Creates a reader over one channel's raw bytes.
    pub fn new(data: Vec<u8>) -> (r: BatchReader)
        ensures
            r@ == (BatchReaderV { data: Some(data@), decompressed: Seq::empty(), cursor: 0 }),
            r.wf(),
    {
        let r = BatchReader { data: Some(data), decompressed: Vec::new(), cursor: 0 };
        proof {
            assert(r@.decompressed =~= Seq::<u8>::empty());
        }
        r
    }

    /// Pulls the next batch out of the reader, exactly as
    /// [`spec_reader_step`] describes.
    pub fn next_batch(&mut self) -> (r: Option<Batch>)
        requires
            old(self).wf(),
        ensures
            final(self).wf(),
            final(self)@ == spec_reader_step(old(self)@).1,
            match r {
                Option::Some(b) => spec_reader_step(old(self)@).0 == Some(b@),
                Option::None => spec_reader_step(old(self)@).0 is None,
            },
    {
        let raw = self.data.take();
        match raw {
            Option::Some(raw_data) => {
                let max = MAX_RLP_BYTES_PER_CHANNEL as usize;
                match decompress_zlib_limited(&raw_data, max) {
                    Option::Some(out) => {
                        self.decompressed = out;
                        self.cursor = 0;
                    },
                    Option::None => {
                        return None;
                    },
                }
            },
            Option::None => {},
        }
        let _dl: usize = self.decompressed.len();
        match decode_batch(&self.decompressed, self.cursor) {
            Option::Some((b, n)) => {
                self.cursor = self.cursor + n;
                Some(b)
            },
            Option::None => None,
        }
    }
}

/// Whether a pulled value is the one a provider's model promised:
/// the same outcome, with the pulled bytes viewing to the promised ones.
pub open spec fn data_result_matches(
    r: StageResult<Option<Vec<u8>>>,
    s: StageResult<Option<Seq<u8>>>,
) -> bool {
    match (r, s) {
        (Result::Ok(Option::Some(v)), Result::Ok(Option::Some(sq))) => v@ == sq,
        (Result::Ok(Option::None), Result::Ok(Option::None)) => true,
        (Result::Err(e1), Result::Err(e2)) => e1 == e2,
        _ => false,
    }
}

/// The provider of the channel-reading stage: the channel bank beneath it.
/// Each implementation says, at the spec level, what a pull returns and
/// how it moves the provider on, so the reader's own contract can follow
/// the pulled value.
pub trait ChannelReaderProvider: Sized {
    /// The provider's own well-formedness, preserved across pulls.
    spec fn inv(&self) -> bool;

    /// What the next pull returns: a function of the provider's state.
    spec fn spec_next_data(&self) -> StageResult<Option<Seq<u8>>>;

    /// How one pull changes the provider's state.
    spec fn spec_pulled(pre: Self, post: Self) -> bool;

    /// Pulls the next completed channel's bytes out of the channel bank.
    /// The bank is drained before new data is loaded, to keep pruning
    /// consistent with the order of operations.
    fn next_data(&mut self) -> (r: StageResult<Option<Vec<u8>>>)
        requires
            old(self).inv(),
        ensures
            final(self).inv(),
            data_result_matches(r, old(self).spec_next_data()),
            Self::spec_pulled(*old(self), *final(self)),
    ;
}

/// A stateful stage that pulls channel payloads from its provider and
/// yields the batches they decode to.
#[derive(Debug)]
pub struct ChannelReader<P> {
    /// The previous stage of the derivation pipeline.
    pub prev: P,
    /// The reader over the current channel, where one is open.
    pub next_batch: Option<BatchReader>,
}

impl<P: ChannelReaderProvider + OriginProvider> ChannelReader<P> {
    /// A reader is well formed when its provider is and its open channel
    /// reader is.
    pub open spec fn wf(&self) -> bool {
        &&& self.prev.inv()
        &&& match self.next_batch {
            Option::Some(br) => br.wf(),
            Option::None => true,
        }
    }

    /// Creates a new channel-reading stage over the given provider.
    pub fn new(prev: P) -> (r: ChannelReader<P>)
        requires
            prev.inv(),
        ensures
            r.next_batch is None,
            r.prev == prev,
            r.wf(),
    {
        ChannelReader { prev, next_batch: None }
    }

    /// Forces the read to continue with the next channel, resetting any
    /// decoding and decompression state to a fresh start.
    pub fn next_channel(&mut self)
        ensures
            final(self).next_batch is None,
            final(self).prev == old(self).prev,
            old(self).wf() ==> final(self).wf(),
    {
        self.next_batch = None;
    }

    /// Creates the batch reader from available channel data: on an open
    /// channel it leaves the stage alone; otherwise it pulls once from
    /// the provider and opens a fresh reader over the pulled bytes, turns
    /// an empty pull into `NoChannel`, and passes a pulled error through
    /// unchanged.
    fn set_batch_reader(&mut self) -> (r: StageResult<()>)
        requires
            old(self).wf(),
        ensures
            final(self).wf(),
            old(self).next_batch is Some ==> *final(self) == *old(self) && r is Ok,
            r is Ok ==> final(self).next_batch is Some,
            r is Err ==> final(self).next_batch is None,
            old(self).next_batch is Some ==> final(self).next_batch == old(self).next_batch,
            old(self).next_batch is None ==> {
                &&& P::spec_pulled(old(self).prev, final(self).prev)
                &&& match old(self).prev.spec_next_data() {
                    Result::Ok(Option::Some(d)) => r is Ok
                        && (final(self).next_batch matches Some(br) && br@ == (BatchReaderV {
                            data: Some(d),
                            decompressed: Seq::empty(),
                            cursor: 0,
                        })),
                    Result::Ok(Option::None) => (r matches Err(e) && e is NoChannel),
                    Result::Err(e0) => (r matches Err(e1) && e1 == e0),
                }
            },
    {
        if self.next_batch.is_some() {
            return Ok(());
        }
        match self.prev.next_data() {
            Result::Err(e) => {
                self.next_batch = None;
                Err(e)
            },
            Result::Ok(Option::None) => {
                self.next_batch = None;
                Err(StageError::NoChannel)
            },
            Result::Ok(Option::Some(channel)) => {
                self.next_batch = Some(BatchReader::new(channel));
                Ok(())
            },
        }
    }

    /// Pulls the next batch. With a channel open, the result is exactly
    /// one [`spec_reader_step`] on it and the provider is not consulted;
    /// with none, one channel is pulled from the provider, in the
    /// provider's order: its first decoded envelope comes back, an empty
    /// or undecodable channel yields `NotEnoughData`, an empty pull
    /// yields `NoChannel`, and a pulled error (a reorg signal included)
    /// passes through unchanged. On any failure the reader state is
    /// cleared, so the next pull starts on a fresh channel.
    pub fn next_batch(&mut self) -> (r: StageResult<Batch>)
        requires
            old(self).wf(),
        ensures
            final(self).wf(),
            r is Err ==> final(self).next_batch is None,
            r is Ok ==> final(self).next_batch is Some,
            old(self).next_batch is Some ==> final(self).prev == old(self).prev,
            old(self).next_batch matches Some(br) ==> {
                let (ob, s1) = spec_reader_step(br@);
                match ob {
                    Option::Some(bv) => {
                        &&& r matches Ok(b) && b@ == bv
                        &&& final(self).next_batch matches Some(br2) && br2@ == s1
                    },
                    Option::None => r matches Err(e) && e is NotEnoughData,
                }
            },
            old(self).next_batch is None ==> {
                &&& P::spec_pulled(old(self).prev, final(self).prev)
                &&& match old(self).prev.spec_next_data() {
                    Result::Ok(Option::Some(d)) => ({
                        let step = spec_reader_step(BatchReaderV {
                            data: Some(d),
                            decompressed: Seq::empty(),
                            cursor: 0,
                        });
                        match step.0 {
                            Option::Some(bv) => (r matches Ok(b) && b@ == bv)
                                && (final(self).next_batch matches Some(br2)
                                    && br2@ == step.1),
                            Option::None => (r matches Err(e) && e is NotEnoughData)
                                && final(self).next_batch is None,
                        }
                    }),
                    Result::Ok(Option::None) => (r matches Err(e) && e is NoChannel)
                        && final(self).next_batch is None,
                    Result::Err(e0) => (r matches Err(e1) && e1 == e0)
                        && final(self).next_batch is None,
                }
            },
    {
        match self.set_batch_reader() {
            Result::Err(e) => {
                self.next_channel();
                return Err(e);
            },
            Result::Ok(()) => {},
        }
        let mut reader = self.next_batch.take().unwrap();
        match reader.next_batch() {
            Option::Some(batch) => {
                self.next_batch = Some(reader);
                Ok(batch)
            },
            Option::None => {
                self.next_channel();
                Err(StageError::NotEnoughData)
            },
        }
    }
}

impl<P: ChannelReaderProvider + OriginProvider> OriginProvider for ChannelReader<P> {
    fn origin(&self) -> Option<&BlockInfo> {
        self.prev.origin()
    }
}

} // verus!
