//! Channels and the channel bank: frames grouped by channel id, pruned by
//! age and by total size, emitted as whole payloads in opening order.

use vstd::prelude::*;
use crate::frame::Frame;
use crate::types::{BlockInfo, CHANNEL_TIMEOUT, MAX_CHANNEL_BANK_SIZE};

verus! {

/// Whether some frame in `fs` carries the number `n`.
pub open spec fn has_frame(fs: Seq<Frame>, n: u16) -> bool {
    exists|i: int| 0 <= i < fs.len() && fs[i].number == n
}

/// The data of the frame in `fs` that carries the number `n`; the empty
/// sequence when there is none.
pub open spec fn frame_data_at(fs: Seq<Frame>, n: u16) -> Seq<u8> {
    if has_frame(fs, n) {
        let i = choose|i: int| 0 <= i < fs.len() && fs[i].number == n;
        fs[i].data@
    } else {
        Seq::empty()
    }
}

/// The sum of the frame data lengths in `fs`.
pub open spec fn frames_size(fs: Seq<Frame>) -> int
    decreases fs.len(),
{
    if fs.len() == 0 {
        0
    } else {
        frames_size(fs.drop_last()) + fs.last().data@.len()
    }
}

/// An ordered collection of frames sharing one channel id.
#[derive(Clone, Debug)]
pub struct Channel {
    /// The channel identifier.
    pub id: u128,
    /// The L1 block number at which the first frame arrived.
    pub opened_at: u64,
    /// The accepted frames, in arrival order, one per frame number.
    pub frames: Vec<Frame>,
    /// The highest frame number seen so far.
    pub highest_seen: u16,
    /// Whether a closing frame has been accepted.
    pub closed: bool,
    /// The number of the closing frame; meaningful once `closed`.
    pub closing_number: u16,
    /// The sum of the accepted frames' data lengths.
    pub size: u64,
}

impl Channel {
    /// A channel is well formed when its frame numbers are unique, its
    /// size is the sum of its frames' data lengths, and its bookkeeping
    /// fields agree with its frames.
    pub open spec fn wf(&self) -> bool {
        &&& forall|i: int, j: int|
            0 <= i < j < self.frames@.len() ==> self.frames@[i].number != self.frames@[j].number
        &&& self.size == frames_size(self.frames@)
        &&& forall|i: int| 0 <= i < self.frames@.len()
            ==> (#[trigger] self.frames@[i]).number <= self.highest_seen
        &&& (self.closed ==> self.closing_number <= self.highest_seen)
    }

    /// Opens an empty channel at the given L1 origin number.
    pub fn open_channel(id: u128, opened_at: u64) -> (r: Channel)
        ensures
            r.wf(),
            r.id == id,
            r.opened_at == opened_at,
            r.frames@.len() == 0,
            !r.closed,
            r.size == 0,
    {
        let r = Channel {
            id,
            opened_at,
            frames: Vec::new(),
            highest_seen: 0,
            closed: false,
            closing_number: 0,
            size: 0,
        };
        r
    }

    /// Ingests one frame. A frame whose number is already present is
    /// dropped, as is one past the closing number of a closed channel;
    /// any other frame is inserted, and the channel's bookkeeping
    /// follows it.
    pub fn add_frame(&mut self, frame: Frame) -> (accepted: bool)
        requires
            old(self).wf(),
            frame.data@.len() <= 0xFFFF_FFFFu64,
            old(self).size <= 0xFFFF_FFFF_0000_0000u64,
        ensures
            final(self).wf(),
            final(self).id == old(self).id,
            final(self).opened_at == old(self).opened_at,
            has_frame(old(self).frames@, frame.number) ==> {
                &&& !accepted
                &&& *final(self) == *old(self)
            },
            (!has_frame(old(self).frames@, frame.number) && old(self).closed
                && frame.number > old(self).closing_number) ==> {
                &&& !accepted
                &&& *final(self) == *old(self)
            },
            (!has_frame(old(self).frames@, frame.number) && !(old(self).closed
                && frame.number > old(self).closing_number)) ==> {
                &&& accepted
                &&& final(self).frames@ == old(self).frames@.push(frame)
                &&& final(self).size == old(self).size + frame.data@.len()
                &&& final(self).closed == (old(self).closed || frame.is_last)
                &&& final(self).closing_number == (if frame.is_last {
                    frame.number
                } else {
                    old(self).closing_number
                })
            },
            !accepted ==> *final(self) == *old(self),
    {
        let mut i: usize = 0;
        let n = self.frames.len();
        while i < n
            invariant
                i <= n,
                n == self.frames@.len(),
                *self == *old(self),
                self.wf(),
                forall|k: int| 0 <= k < i ==> self.frames@[k].number != frame.number,
            decreases n - i,
        {
            if self.frames[i].number == frame.number {
                return false;
            }
            i = i + 1;
        }
        if self.closed && frame.number > self.closing_number {
            return false;
        }
        if frame.number > self.highest_seen {
            self.highest_seen = frame.number;
        }
        if frame.is_last {
            self.closed = true;
            self.closing_number = frame.number;
        }
        self.size = self.size + frame.data.len() as u64;
        let ghost old_frames = self.frames@;
        self.frames.push(frame);
        proof {
            assert(self.frames@.drop_last() =~= old_frames);
        }
        true
    }

    /// Whether the channel is complete: closed, with every frame from 0
    /// up to its closing number present.
    pub open spec fn spec_ready(&self) -> bool {
        self.closed && self.highest_seen == self.closing_number
            && forall|n: u16| n <= self.closing_number ==> has_frame(self.frames@, n)
    }

    /// The channel's payload: the data of frames 0 up to and including
    /// `n`, concatenated in frame-number order.
    pub open spec fn spec_payload_upto(fs: Seq<Frame>, n: int) -> Seq<u8>
        decreases n + 1,
    {
        if n < 0 {
            Seq::empty()
        } else {
            Self::spec_payload_upto(fs, n - 1) + frame_data_at(fs, n as u16)
        }
    }

    /// The payload of a ready channel.
    pub open spec fn spec_payload(&self) -> Seq<u8> {
        Self::spec_payload_upto(self.frames@, self.closing_number as int)
    }

    /// Whether the channel is complete, decided exactly as
    /// [`Channel::spec_ready`] states.
    pub fn is_ready(&self) -> (r: bool)
        requires
            self.wf(),
        ensures
            r == self.spec_ready(),
    {
        if !self.closed {
            return false;
        }
        if self.highest_seen != self.closing_number {
            return false;
        }
        let mut n: usize = 0;
        let bound: usize = self.closing_number as usize;
        while n <= bound
            invariant
                self.wf(),
                self.closed,
                n <= bound + 1,
                bound == self.closing_number as int,
                forall|m: u16| (m as int) < n ==> has_frame(self.frames@, m),
            decreases bound + 1 - n,
        {
            let mut i: usize = 0;
            let cnt = self.frames.len();
            let mut found = false;
            while i < cnt
                invariant
                    i <= cnt,
                    cnt == self.frames@.len(),
                    n <= 0xFFFF,
                    found <==> exists|k: int| 0 <= k < i && self.frames@[k].number == n as u16,
                decreases cnt - i,
            {
                if self.frames[i].number == n as u16 {
                    found = true;
                }
                i = i + 1;
            }
            if !found {
                proof {
                    assert(!has_frame(self.frames@, n as u16));
                    assert(n as u16 <= self.closing_number);
                }
                return false;
            }
            n = n + 1;
        }
        true
    }

    /// Concatenates the data of frames 0 up to the closing number, in
    /// frame-number order: the payload handed to the channel reader.
    pub fn assemble(&self) -> (r: Vec<u8>)
        requires
            self.wf(),
            self.spec_ready(),
        ensures
            r@ == self.spec_payload(),
    {
        let mut out: Vec<u8> = Vec::new();
        let mut n: usize = 0;
        let bound: usize = self.closing_number as usize;
        while n <= bound
            invariant
                self.wf(),
                self.spec_ready(),
                n <= bound + 1,
                bound == self.closing_number as int,
                out@ == Self::spec_payload_upto(self.frames@, n - 1),
            decreases bound + 1 - n,
        {
            let mut i: usize = 0;
            let cnt = self.frames.len();
            let mut found = false;
            while i < cnt
                invariant_except_break
                    !found,
                invariant
                    i <= cnt,
                    cnt == self.frames@.len(),
                    n <= 0xFFFF,
                    self.wf(),
                    found ==> i > 0 && (i - 1) < cnt && self.frames@[i - 1].number == n as u16,
                    !found ==> forall|k: int| 0 <= k < i ==> self.frames@[k].number != n as u16,
                ensures
                    found ==> i > 0 && (i - 1) < cnt && self.frames@[i - 1].number == n as u16,
                    !found ==> forall|k: int|
                        0 <= k < cnt ==> self.frames@[k].number != n as u16,
                decreases cnt - i,
            {
                if self.frames[i].number == n as u16 {
                    found = true;
                    i = i + 1;
                    proof {
                        assert(self.frames@[i - 1].number == n as u16);
                    }
                    break;
                }
                i = i + 1;
            }
            if found {
                let i = i - 1;
                let mut j: usize = 0;
                let flen = self.frames[i].data.len();
                proof {
                    assert(has_frame(self.frames@, n as u16));
                    let w = choose|w: int|
                        0 <= w < self.frames@.len() && self.frames@[w].number == n as u16;
                    assert(w == i);
                    assert(frame_data_at(self.frames@, n as u16) == self.frames@[i as int].data@);
                }
                while j < flen
                    invariant
                        j <= flen,
                        i < self.frames@.len(),
                        flen == self.frames@[i as int].data@.len(),
                        out@ == Self::spec_payload_upto(self.frames@, n - 1)
                            + self.frames@[i as int].data@.subrange(0, j as int),
                    decreases flen - j,
                {
                    out.push(self.frames[i].data[j]);
                    proof {
                        assert(self.frames@[i as int].data@.subrange(0, j + 1)
                            =~= self.frames@[i as int].data@.subrange(0, j as int).push(
                            self.frames@[i as int].data@[j as int],
                        ));
                    }
                    j = j + 1;
                }
                proof {
                    assert(self.frames@[i as int].data@.subrange(0, flen as int)
                        =~= self.frames@[i as int].data@);
                    assert(out@ == Self::spec_payload_upto(self.frames@, n as int));
                }
            } else {
                proof {
                    assert(!has_frame(self.frames@, n as u16));
                    assert(false);
                }
            }
            n = n + 1;
        }
        proof {
            assert(out@ == self.spec_payload());
        }
        out
    }
}

/// The sum of the channels' sizes.
pub open spec fn channels_size(cs: Seq<Channel>) -> int
    decreases cs.len(),
{
    if cs.len() == 0 {
        0
    } else {
        cs[0].size + channels_size(cs.skip(1))
    }
}

/// The sum of channel sizes is never negative.
pub proof fn lemma_channels_size_nonneg(cs: Seq<Channel>)
    ensures
        channels_size(cs) >= 0,
    decreases cs.len(),
{
    if cs.len() > 0 {
        lemma_channels_size_nonneg(cs.skip(1));
    }
}

/// Appending a channel adds its size to the sum.
pub proof fn lemma_channels_size_push(cs: Seq<Channel>, c: Channel)
    ensures
        channels_size(cs.push(c)) == channels_size(cs) + c.size,
    decreases cs.len(),
{
    if cs.len() == 0 {
        assert(cs.push(c).skip(1) =~= Seq::<Channel>::empty());
        assert(cs.push(c)[0] == c);
        assert(channels_size(cs.push(c).skip(1)) == 0);
    } else {
        assert(cs.push(c).skip(1) =~= cs.skip(1).push(c));
        lemma_channels_size_push(cs.skip(1), c);
        assert(cs.push(c)[0] == cs[0]);
    }
}

/// Splitting a sequence splits its size sum.
pub proof fn lemma_channels_size_concat(a: Seq<Channel>, b: Seq<Channel>)
    ensures
        channels_size(a + b) == channels_size(a) + channels_size(b),
    decreases a.len(),
{
    if a.len() == 0 {
        assert(a + b =~= b);
    } else {
        assert((a + b).skip(1) =~= a.skip(1) + b);
        lemma_channels_size_concat(a.skip(1), b);
        assert((a + b)[0] == a[0]);
    }
}

/// Each channel's size is at most the sum of all channels' sizes.
pub proof fn lemma_size_elem(cs: Seq<Channel>, i: int)
    requires
        0 <= i < cs.len(),
    ensures
        cs[i].size <= channels_size(cs),
    decreases i,
{
    lemma_channels_size_nonneg(cs.skip(1));
    if i == 0 {
    } else {
        lemma_size_elem(cs.skip(1), i - 1);
        assert(cs.skip(1)[i - 1] == cs[i]);
    }
}

/// Replacing one channel changes the sum by the difference of sizes.
pub proof fn lemma_channels_size_update(cs: Seq<Channel>, i: int, c: Channel)
    requires
        0 <= i < cs.len(),
    ensures
        channels_size(cs.update(i, c)) == channels_size(cs) - cs[i].size + c.size,
    decreases i,
{
    if i == 0 {
        assert(cs.update(0, c).skip(1) =~= cs.skip(1));
    } else {
        assert(cs.update(i, c).skip(1) =~= cs.skip(1).update(i - 1, c));
        lemma_channels_size_update(cs.skip(1), i - 1, c);
    }
}

/// Whether a channel opened at `opened_at` is still alive at the given
/// L1 origin: no older than [`CHANNEL_TIMEOUT`] blocks.
pub open spec fn channel_alive(opened_at: u64, origin_number: u64) -> bool {
    opened_at + CHANNEL_TIMEOUT >= origin_number
}

/// The channels that survive a prune at the given L1 origin.
pub open spec fn alive_filter(origin_number: u64) -> spec_fn(Channel) -> bool {
    |c: Channel| channel_alive(c.opened_at, origin_number)
}

/// Assembles frames into channels, prunes stale and oversized channels,
/// and surfaces completed channel payloads in opening order.
#[derive(Debug)]
pub struct ChannelBank {
    /// The open channels, in opening order; ids are unique.
    pub channels: Vec<Channel>,
    /// The sum of the channels' sizes.
    pub total_size: u64,
}

impl ChannelBank {
    /// A bank is well formed when its channels are well formed with
    /// unique ids, its byte counter is their total size, and that total
    /// respects [`MAX_CHANNEL_BANK_SIZE`].
    pub open spec fn wf(&self) -> bool {
        &&& forall|i: int, j: int|
            0 <= i < j < self.channels@.len() ==> self.channels@[i].id != self.channels@[j].id
        &&& forall|i: int| 0 <= i < self.channels@.len() ==> (#[trigger] self.channels@[i]).wf()
        &&& self.total_size == channels_size(self.channels@)
        &&& self.total_size <= MAX_CHANNEL_BANK_SIZE
    }

    /// Creates an empty channel bank.
    pub fn new() -> (r: ChannelBank)
        ensures
            r.wf(),
            r.channels@.len() == 0,
            r.total_size == 0,
    {
        ChannelBank { channels: Vec::new(), total_size: 0 }
    }

    /// Finds the position of the channel with the given id.
    fn find_channel(&self, id: u128) -> (r: Option<usize>)
        ensures
            match r {
                Option::Some(i) => i < self.channels@.len() && self.channels@[i as int].id == id,
                Option::None => forall|i: int|
                    0 <= i < self.channels@.len() ==> (#[trigger] self.channels@[i]).id != id,
            },
    {
        let mut i: usize = 0;
        let n = self.channels.len();
        while i < n
            invariant
                i <= n,
                n == self.channels@.len(),
                forall|k: int| 0 <= k < i ==> (#[trigger] self.channels@[k]).id != id,
            decreases n - i,
        {
            if self.channels[i].id == id {
                return Some(i);
            }
            i = i + 1;
        }
        None
    }

    /// Ingests one frame, opening a channel when its id is unknown and
    /// evicting the oldest channels while the bank runs over its size
    /// bound. A duplicate frame number, or a frame past a closed
    /// channel's closing number, leaves the bank exactly as it was.
    pub fn ingest_frame(&mut self, frame: Frame, origin_number: u64)
        requires
            old(self).wf(),
            frame.data@.len() <= 0xFFFF_FFFFu64,
        ensures
            final(self).wf(),
            final(self).total_size <= MAX_CHANNEL_BANK_SIZE,
            (exists|i: int| 0 <= i < old(self).channels@.len()
                && (#[trigger] old(self).channels@[i]).id == frame.id
                && (has_frame(old(self).channels@[i].frames@, frame.number)
                    || (old(self).channels@[i].closed
                        && frame.number > old(self).channels@[i].closing_number)))
                ==> final(self).channels@ == old(self).channels@
                    && final(self).total_size == old(self).total_size,
            ((forall|i: int| 0 <= i < old(self).channels@.len()
                ==> (#[trigger] old(self).channels@[i]).id != frame.id)
                && old(self).total_size + frame.data@.len() <= MAX_CHANNEL_BANK_SIZE) ==> {
                &&& final(self).channels@.len() == old(self).channels@.len() + 1
                &&& forall|j: int| 0 <= j < old(self).channels@.len()
                    ==> final(self).channels@[j] == old(self).channels@[j]
                &&& final(self).channels@.last().id == frame.id
                &&& final(self).channels@.last().opened_at == origin_number
                &&& final(self).channels@.last().frames@ == seq![frame]
                &&& final(self).channels@.last().closed == frame.is_last
                &&& final(self).total_size == old(self).total_size + frame.data@.len()
            },
            forall|i: int| (0 <= i < old(self).channels@.len()
                && (#[trigger] old(self).channels@[i]).id == frame.id
                && !has_frame(old(self).channels@[i].frames@, frame.number)
                && !(old(self).channels@[i].closed
                    && frame.number > old(self).channels@[i].closing_number)
                && old(self).total_size + frame.data@.len() <= MAX_CHANNEL_BANK_SIZE) ==> {
                &&& final(self).channels@.len() == old(self).channels@.len()
                &&& forall|j: int| 0 <= j < old(self).channels@.len() && j != i
                    ==> final(self).channels@[j] == old(self).channels@[j]
                &&& final(self).channels@[i].id == frame.id
                &&& final(self).channels@[i].opened_at == old(self).channels@[i].opened_at
                &&& final(self).channels@[i].frames@
                    == old(self).channels@[i].frames@.push(frame)
                &&& final(self).channels@[i].closed
                    == (old(self).channels@[i].closed || frame.is_last)
                &&& final(self).total_size == old(self).total_size + frame.data@.len()
            },
    {
        let idx = self.find_channel(frame.id);
        let ghost pre = *self;
        match idx {
            Option::Some(i) => {
                let mut c = self.channels.remove(i);
                proof {
                    lemma_channels_size_nonneg(pre.channels@.skip(i + 1));
                    lemma_size_remove(pre.channels@, i as int);
                    lemma_size_elem(pre.channels@, i as int);
                }
                let dlen = frame_len_u64(&frame);
                let accepted = c.add_frame(frame);
                if !accepted {
                    self.channels.insert(i, c);
                    proof {
                        assert(self.channels@ =~= pre.channels@);
                    }
                    return;
                }
                let ghost cafter = c;
                self.channels.insert(i, c);
                proof {
                    assert(self.channels@ =~= pre.channels@.update(i as int, cafter));
                    lemma_channels_size_update(pre.channels@, i as int, cafter);
                }
                self.total_size = self.total_size + dlen;
                self.evict();
            },
            Option::None => {
                let mut c = Channel::open_channel(frame.id, origin_number);
                let dlen = frame_len_u64(&frame);
                let ghost fr = frame;
                let accepted = c.add_frame(frame);
                proof {
                    assert(accepted);
                    lemma_channels_size_push(pre.channels@, c);
                }
                self.channels.push(c);
                self.total_size = self.total_size + dlen;
                self.evict();
            },
        }
    }

    /// Evicts the oldest channels until the bank fits its size bound.
    fn evict(&mut self)
        requires
            forall|i: int, j: int|
                0 <= i < j < old(self).channels@.len()
                    ==> old(self).channels@[i].id != old(self).channels@[j].id,
            forall|i: int| 0 <= i < old(self).channels@.len()
                ==> (#[trigger] old(self).channels@[i]).wf(),
            old(self).total_size == channels_size(old(self).channels@),
        ensures
            final(self).wf(),
            exists|k: int| 0 <= k <= old(self).channels@.len()
                && final(self).channels@ =~= old(self).channels@.skip(k),
            old(self).total_size <= MAX_CHANNEL_BANK_SIZE ==> *final(self) == *old(self),
    {
        let ghost start = *self;
        let ghost evicted: int = 0;
        loop
            invariant
                forall|i: int, j: int|
                    0 <= i < j < self.channels@.len()
                        ==> self.channels@[i].id != self.channels@[j].id,
                forall|i: int| 0 <= i < self.channels@.len()
                    ==> (#[trigger] self.channels@[i]).wf(),
                self.total_size == channels_size(self.channels@),
                0 <= evicted <= start.channels@.len(),
                self.channels@ =~= start.channels@.skip(evicted),
                start.total_size <= MAX_CHANNEL_BANK_SIZE ==> *self == start,
            ensures
                self.total_size <= MAX_CHANNEL_BANK_SIZE,
                exists|k: int| 0 <= k <= start.channels@.len()
                    && self.channels@ =~= start.channels@.skip(k),
                start.total_size <= MAX_CHANNEL_BANK_SIZE ==> *self == start,
            decreases self.channels@.len(),
        {
            if self.total_size <= MAX_CHANNEL_BANK_SIZE {
                break;
            }
            proof {
                if self.channels@.len() == 0 {
                    assert(channels_size(self.channels@) == 0);
                    assert(false);
                }
            }
            let ghost pre = self.channels@;
            let c = self.channels.remove(0);
            proof {
                assert(self.channels@ =~= pre.skip(1));
                lemma_channels_size_nonneg(self.channels@);
                assert(start.channels@.skip(evicted).skip(1)
                    =~= start.channels@.skip(evicted + 1));
            }
            self.total_size = self.total_size - c.size;
            proof {
                evicted = evicted + 1;
            }
        }
    }
}

impl ChannelBank {
    /// Drops every channel that is older than [`CHANNEL_TIMEOUT`] L1
    /// blocks at the given origin, keeping the rest in order.
    pub fn prune(&mut self, origin_number: u64)
        requires
            old(self).wf(),
        ensures
            final(self).wf(),
            final(self).channels@ == old(self).channels@.filter(alive_filter(origin_number)),
    {
        let ghost pred = alive_filter(origin_number);
        let mut rest: Vec<Channel> = Vec::new();
        core::mem::swap(&mut self.channels, &mut rest);
        let ghost orig = rest@;
        let mut kept: Vec<Channel> = Vec::new();
        let mut kept_size: u64 = 0;
        let ghost dropped: int = 0;
        let ghost idx: int = 0;
        let n = rest.len();
        proof {
            assert(orig.subrange(0, 0) =~= Seq::<Channel>::empty());
            reveal(Seq::filter);
        }
        loop
            invariant
                0 <= idx <= n,
                n == orig.len(),
                rest@ =~= orig.skip(idx),
                forall|i: int, j: int| 0 <= i < j < orig.len() ==> orig[i].id != orig[j].id,
                forall|i: int| 0 <= i < orig.len() ==> (#[trigger] orig[i]).wf(),
                channels_size(orig) <= MAX_CHANNEL_BANK_SIZE,
                pred == alive_filter(origin_number),
                kept@ =~= orig.subrange(0, idx).filter(pred),
                kept_size == channels_size(kept@),
                kept_size + dropped == channels_size(orig.subrange(0, idx)),
                dropped >= 0,
                forall|j: int| 0 <= j < kept@.len() ==> exists|m: int|
                    0 <= m < idx && #[trigger] kept@[j] == orig[m],
                forall|j1: int, j2: int| 0 <= j1 < j2 < kept@.len()
                    ==> kept@[j1].id != kept@[j2].id,
            ensures
                idx == n,
                kept@ =~= orig.filter(pred),
                kept_size == channels_size(kept@),
                kept_size <= MAX_CHANNEL_BANK_SIZE,
                forall|j: int| 0 <= j < kept@.len() ==> (#[trigger] kept@[j]).wf(),
                forall|j1: int, j2: int| 0 <= j1 < j2 < kept@.len()
                    ==> kept@[j1].id != kept@[j2].id,
            decreases n - idx,
        {
            if rest.len() == 0 {
                proof {
                    assert(idx == n);
                    assert(orig.subrange(0, n as int) =~= orig);
                    lemma_channels_size_nonneg(orig.subrange(0, idx));
                    assert forall|j: int| 0 <= j < kept@.len()
                        implies (#[trigger] kept@[j]).wf() by {
                        let m = choose|m: int| 0 <= m < idx && kept@[j] == orig[m];
                    };
                }
                break;
            }
            let c = rest.remove(0);
            proof {
                assert(c == orig[idx]);
                assert(rest@ =~= orig.skip(idx + 1));
            }
            let c_keep = if origin_number > CHANNEL_TIMEOUT {
                c.opened_at >= origin_number - CHANNEL_TIMEOUT
            } else {
                true
            };
            let ghost pre_sub = orig.subrange(0, idx);
            proof {
                reveal(Seq::filter);
                assert(orig.subrange(0, idx + 1) =~= pre_sub.push(orig[idx]));
                assert(orig.subrange(0, idx + 1).drop_last() =~= pre_sub);
                lemma_channels_size_push(pre_sub, orig[idx]);
                assert(c_keep == pred(orig[idx]));
                if c_keep {
                    assert forall|j: int| 0 <= j < kept@.len()
                        implies kept@[j].id != c.id by {
                        let m = choose|m: int| 0 <= m < idx && kept@[j] == orig[m];
                    };
                }
            }
            if c_keep {
                proof {
                    lemma_channels_size_push(kept@, c);
                    lemma_channels_size_concat(orig.subrange(0, idx + 1), orig.skip(idx + 1));
                    assert(orig.subrange(0, idx + 1) + orig.skip(idx + 1) =~= orig);
                    lemma_channels_size_nonneg(orig.skip(idx + 1));
                }
                kept_size = kept_size + c.size;
                kept.push(c);
            } else {
                proof {
                    dropped = dropped + orig[idx].size;
                }
            }
            proof {
                idx = idx + 1;
            }
        }
        self.channels = kept;
        self.total_size = kept_size;
    }

    /// Pulls the next completed channel payload, pruning stale channels
    /// first: when the front (oldest) channel is closed and contiguous,
    /// its assembled payload comes out and the channel leaves the bank.
    pub fn next_data(&mut self, origin_number: u64) -> (r: Option<Vec<u8>>)
        requires
            old(self).wf(),
        ensures
            final(self).wf(),
            ({
                let pruned = old(self).channels@.filter(alive_filter(origin_number));
                match r {
                    Option::Some(payload) => {
                        &&& pruned.len() > 0
                        &&& pruned[0].spec_ready()
                        &&& payload@ == pruned[0].spec_payload()
                        &&& final(self).channels@ == pruned.skip(1)
                    },
                    Option::None => {
                        &&& (pruned.len() == 0 || !pruned[0].spec_ready())
                        &&& final(self).channels@ == pruned
                    },
                }
            }),
    {
        self.prune(origin_number);
        if self.channels.len() == 0 {
            return None;
        }
        if !self.channels[0].is_ready() {
            return None;
        }
        let ghost pre = self.channels@;
        let c = self.channels.remove(0);
        proof {
            assert(self.channels@ =~= pre.skip(1));
            lemma_channels_size_nonneg(self.channels@);
        }
        self.total_size = self.total_size - c.size;
        let payload = c.assemble();
        Some(payload)
    }
}

/// The provider of the channel bank: the frame queue beneath it.
pub trait ChannelBankProvider {
    /// Pulls the next parsed frame.
    fn next_frame(&mut self) -> crate::errors::StageResult<Frame>;
}

/// The length of a frame's data, as a 64-bit count.
fn frame_len_u64(frame: &Frame) -> (r: u64)
    requires
        frame.data@.len() <= 0xFFFF_FFFFu64,
    ensures
        r == frame.data@.len(),
{
    frame.data.len() as u64
}

/// Removing the channel at `i` subtracts its size from the sum.
pub proof fn lemma_size_remove(cs: Seq<Channel>, i: int)
    requires
        0 <= i < cs.len(),
    ensures
        channels_size(cs.remove(i)) == channels_size(cs) - cs[i].size,
    decreases i,
{
    if i == 0 {
        assert(cs.remove(0) =~= cs.skip(1));
    } else {
        assert(cs.remove(i).skip(1) =~= cs.skip(1).remove(i - 1));
        lemma_size_remove(cs.skip(1), i - 1);
        assert(cs.remove(i)[0] == cs[0]);
    }
}

impl ChannelBank {
    /// Clears the bank: after a reset it holds exactly what a fresh bank
    /// holds, so deriving on from the same anchor replays identically.
    pub fn reset(&mut self)
        ensures
            final(self).wf(),
            final(self).channels@ == Seq::<Channel>::empty(),
            final(self).total_size == 0,
    {
        self.channels = Vec::new();
        self.total_size = 0;
        proof {
            assert(self.channels@ =~= Seq::<Channel>::empty());
        }
    }
}

/// Two frame collections holding the same set of frames agree on the data
/// at every frame number.
pub proof fn lemma_frame_data_at_set(a: Seq<Frame>, b: Seq<Frame>, m: u16)
    requires
        a.to_set() == b.to_set(),
        forall|i: int, j: int| 0 <= i < j < a.len() ==> a[i].number != a[j].number,
        forall|i: int, j: int| 0 <= i < j < b.len() ==> b[i].number != b[j].number,
    ensures
        has_frame(a, m) == has_frame(b, m),
        frame_data_at(a, m) == frame_data_at(b, m),
{
    if has_frame(a, m) {
        let i = choose|i: int| 0 <= i < a.len() && a[i].number == m;
        assert(a.contains(a[i]));
        assert(b.to_set().contains(a[i]));
        assert(b.contains(a[i]));
        let j = choose|j: int| 0 <= j < b.len() && b[j] == a[i];
        assert(has_frame(b, m));
        let j2 = choose|j2: int| 0 <= j2 < b.len() && b[j2].number == m;
        assert(b[j2] == b[j]);
        assert(frame_data_at(b, m) == a[i].data@);
        let i2 = choose|i2: int| 0 <= i2 < a.len() && a[i2].number == m;
        assert(a[i2] == a[i]);
    } else if has_frame(b, m) {
        let j = choose|j: int| 0 <= j < b.len() && b[j].number == m;
        assert(b.contains(b[j]));
        assert(a.to_set().contains(b[j]));
        assert(a.contains(b[j]));
        let i = choose|i: int| 0 <= i < a.len() && a[i] == b[j];
        assert(a[i].number == m);
        assert(has_frame(a, m));
    }
}

/// Reordering or duplicating the frames fed to a channel cannot change
/// its payload: two well-formed channels holding the same set of frames
/// assemble byte-identical payloads up to any frame number. Duplicates
/// never enter (a repeated frame number leaves a channel unchanged), so a
/// block's frames yield one payload however they arrive.
pub proof fn lemma_payload_set_invariant(a: Seq<Frame>, b: Seq<Frame>, n: int)
    requires
        a.to_set() == b.to_set(),
        forall|i: int, j: int| 0 <= i < j < a.len() ==> a[i].number != a[j].number,
        forall|i: int, j: int| 0 <= i < j < b.len() ==> b[i].number != b[j].number,
        n <= 0xFFFF,
    ensures
        Channel::spec_payload_upto(a, n) == Channel::spec_payload_upto(b, n),
    decreases n + 1,
{
    if n >= 0 {
        lemma_payload_set_invariant(a, b, n - 1);
        lemma_frame_data_at_set(a, b, n as u16);
    }
}

/// The channel bank standing as the reader's provider: the bank plus the
/// current L1 origin. The surrounding driver ingests parsed frames into
/// the bank and advances the origin between pulls; each pull surfaces the
/// front ready channel's payload, in opening order, after pruning stale
/// channels.
#[derive(Debug)]
pub struct ChannelBankStage {
    /// The channel bank.
    pub bank: ChannelBank,
    /// The current L1 origin.
    pub origin: BlockInfo,
}

impl ChannelBankStage {
    /// Creates a stage over an empty bank at the given origin.
    pub fn new(origin: BlockInfo) -> (r: ChannelBankStage)
        ensures
            r.bank.wf(),
            r.bank.channels@.len() == 0,
            r.origin == origin,
    {
        ChannelBankStage { bank: ChannelBank::new(), origin }
    }
}

impl crate::channel_reader::ChannelReaderProvider for ChannelBankStage {
    open spec fn inv(&self) -> bool {
        self.bank.wf()
    }

    open spec fn spec_next_data(&self) -> crate::errors::StageResult<Option<Seq<u8>>> {
        let pruned = self.bank.channels@.filter(alive_filter(self.origin.number));
        if pruned.len() > 0 && pruned[0].spec_ready() {
            Ok(Some(pruned[0].spec_payload()))
        } else {
            Ok(None)
        }
    }

    open spec fn spec_pulled(pre: Self, post: Self) -> bool {
        let pruned = pre.bank.channels@.filter(alive_filter(pre.origin.number));
        &&& post.origin == pre.origin
        &&& post.bank.channels@ == (if pruned.len() > 0 && pruned[0].spec_ready() {
            pruned.skip(1)
        } else {
            pruned
        })
    }

    fn next_data(&mut self) -> (r: crate::errors::StageResult<Option<Vec<u8>>>) {
        match self.bank.next_data(self.origin.number) {
            Option::Some(payload) => Ok(Some(payload)),
            Option::None => Ok(None),
        }
    }
}

impl crate::traits::OriginProvider for ChannelBankStage {
    fn origin(&self) -> (r: Option<&BlockInfo>)
        ensures
            r matches Some(b) && *b == self.origin,
    {
        Some(&self.origin)
    }
}

} // verus!

