//! A source that decodes a formatted audio stream on demand and keeps what it
//! decoded in its pile of a segment store.
use vstd::prelude::*;
use crate::segment_store::{clashes, lemma_segments_disjoint, PileID, SegmentStore};
use crate::source::FrameDecoder;

verus! {

/// Where the bytes of a formatted stream come from.
pub enum StreamOrigin {
    FileSystem(String),
    RemoteClient,
}

/// Reads frames of a decoded stream, going through the segment store first.
pub struct FormattedStreamSource<S, D> {
    storage_pile_id: PileID,
    origin: Option<StreamOrigin>,
    decoder: D,
    sample_rate: u32,
    channels: u8,
    next_frame_idx: Option<u64>,
    duration: u64,
    samples: core::marker::PhantomData<S>,
}

impl<S: Copy, D: FrameDecoder<S>> FormattedStreamSource<S, D> {
    pub closed spec fn pile(&self) -> PileID {
        self.storage_pile_id
    }

    pub closed spec fn origin_view(&self) -> Option<StreamOrigin> {
        self.origin
    }

    pub closed spec fn rate(&self) -> u32 {
        self.sample_rate
    }

    pub closed spec fn channel_count(&self) -> u8 {
        self.channels
    }

    pub closed spec fn frame_total(&self) -> u64 {
        self.duration
    }

    /// The frame that the decoder hands out next without a seek, if known.
    pub closed spec fn next_frame(&self) -> Option<u64> {
        self.next_frame_idx
    }

    pub open spec fn wf(&self) -> bool {
        self.channel_count() > 0 && self.rate() > 0
    }

    /// Opens a source over `decoder`, whose stream has `channels` samples per
    /// frame at `sample_rate`, and allocates its pile in `store`.
    pub fn open_stream(
        decoder: D,
        origin: Option<StreamOrigin>,
        sample_rate: u32,
        channels: u8,
        duration: u64,
        store: &mut SegmentStore<S>,
    ) -> (r: Self)
        requires
            old(store).wf(),
            sample_rate > 0,
            channels > 0,
        ensures
            r.wf(),
            final(store).wf(),
            final(store).id() == old(store).id(),
            final(store).pile_count() == old(store).pile_count() + 1,
            final(store).cache_limit() == old(store).cache_limit(),
            final(store).sample_bytes() == old(store).sample_bytes(),
            final(store).cache_bytes() == old(store).cache_bytes(),
            r.pile() == PileID(old(store).pile_count() as usize, old(store).id()),
            final(store).pile(r.pile().0 as int).len() == 0,
            r.rate() == sample_rate,
            r.channel_count() == channels,
            r.frame_total() == duration,
            r.next_frame() == Some(0u64),
            r.origin_view() == origin,
    {
        let storage_pile_id = store.new_pile_id();
        FormattedStreamSource {
            storage_pile_id,
            origin,
            decoder,
            sample_rate,
            channels,
            next_frame_idx: Some(0),
            duration,
            samples: core::marker::PhantomData,
        }
    }

    pub fn origin(&self) -> (r: &Option<StreamOrigin>)
        ensures
            *r == self.origin_view(),
    {
        &self.origin
    }

    pub fn pile_id(&self) -> (r: PileID)
        ensures
            r == self.pile(),
    {
        self.storage_pile_id
    }

    pub fn sample_rate(&self) -> (r: u32)
        ensures
            r == self.rate(),
    {
        self.sample_rate
    }

    pub fn channels(&self) -> (r: u8)
        ensures
            r == self.channel_count(),
    {
        self.channels
    }

    pub fn current_duration_frames(&self) -> (r: u64)
        ensures
            r == self.frame_total(),
    {
        self.duration
    }

    pub fn duration(&self) -> (r: Option<u64>)
        ensures
            r == Some(self.frame_total()),
    {
        Some(self.duration)
    }

    /// Frame `frame_idx` of the stream. A frame that the pile already covers
    /// is returned from there. Otherwise the decoder seeks to it, unless it is
    /// the frame the decoder yields next, and one packet is decoded and kept
    /// as an evictable segment; the frame is then looked up once more.
    /// A failed seek or decode, or a packet that cannot be stored, gives `None`.
    pub fn get_by_frame_i(&mut self, store: &mut SegmentStore<S>, frame_idx: u64) -> (r: Option<
        Vec<S>,
    >)
        requires
            old(self).wf(),
            old(store).wf(),
            old(store).owns(old(self).pile()),
        ensures
            final(self).wf(),
            final(self).pile() == old(self).pile(),
            final(self).rate() == old(self).rate(),
            final(self).channel_count() == old(self).channel_count(),
            final(self).frame_total() == old(self).frame_total(),
            final(store).wf(),
            final(store).id() == old(store).id(),
            final(store).pile_count() == old(store).pile_count(),
            final(store).cache_limit() == old(store).cache_limit(),
            final(store).sample_bytes() == old(store).sample_bytes(),
            old(store).covers_frame(old(self).pile().0 as int, frame_idx as int) ==> (r matches Some(v)
                && old(store).holds_frame(old(self).pile().0 as int, frame_idx as int, v@)),
            r matches Some(v) ==> final(store).holds_frame(old(self).pile().0 as int, frame_idx as int, v@),
    {
        let pile = self.storage_pile_id;
        let ghost s0 = *store;
        let first = store.find(pile, frame_idx);
        let ghost s1 = *store;
        if first.is_some() {
            proof {
                let v = first->Some_0;
                let i = choose|i: int|
                    0 <= i < s0.pile(pile.0 as int).len() && (#[trigger] s0.pile(
                        pile.0 as int,
                    )[i]).covers(frame_idx as int) && v@ == s0.pile(pile.0 as int)[i].frame_at(
                        frame_idx as int,
                    );
                assert(s1.pile(pile.0 as int)[i].frame_idx == s0.pile(pile.0 as int)[i].frame_idx);
                assert(s1.pile(pile.0 as int)[i].covers(frame_idx as int));
            }
            return first;
        }
        if self.needs_seek(frame_idx) {
            if !self.decoder.seek(frame_idx) {
                self.next_frame_idx = None;
                return None;
            }
        }
        let packet = self.decoder.next_packet();
        self.store_packet(store, packet, frame_idx)
    }

    /// Whether reading `frame_idx` from the decoder needs a seek first: it
    /// does unless that frame is the one the decoder yields next.
    pub fn needs_seek(&self, frame_idx: u64) -> (r: bool)
        ensures
            r == (self.next_frame() != Some(frame_idx)),
    {
        match self.next_frame_idx {
            Some(next) => frame_idx != next,
            None => true,
        }
    }

    /// A packet of this source's stream fits the store: it holds whole
    /// frames, at least one, whose indices fit in `u64`, and its bytes fit
    /// under the cache bound.
    pub open spec fn packet_fits(&self, store: SegmentStore<S>, start: u64, data: Seq<S>) -> bool {
        &&& data.len() > 0
        &&& data.len() % (self.channel_count() as nat) == 0
        &&& start + data.len() / (self.channel_count() as nat) <= u64::MAX
        &&& store.bytes_of(data.len()) <= store.cache_limit()
    }

    /// Handles the decoder's answer `packet` to a read of frame `frame_idx`
    /// that missed the pile: a packet that fits is stored as an evictable
    /// segment (unless it shares a frame with one already there), the next
    /// frame becomes the one after the packet, and the frame is looked up
    /// again. No packet, or one that does not fit, gives `None` and leaves
    /// the store alone.
    pub fn store_packet(
        &mut self,
        store: &mut SegmentStore<S>,
        packet: Option<(u64, Vec<S>)>,
        frame_idx: u64,
    ) -> (r: Option<Vec<S>>)
        requires
            old(self).wf(),
            old(store).wf(),
            old(store).owns(old(self).pile()),
        ensures
            final(self).wf(),
            final(self).pile() == old(self).pile(),
            final(self).rate() == old(self).rate(),
            final(self).channel_count() == old(self).channel_count(),
            final(self).frame_total() == old(self).frame_total(),
            final(self).origin_view() == old(self).origin_view(),
            final(store).wf(),
            final(store).keeps_layout_of(*old(store)),
            r matches Some(v) ==> final(store).holds_frame(old(self).pile().0 as int, frame_idx as int, v@),
            match packet {
                None => r is None && *final(store) == *old(store) && final(self).next_frame() is None,
                Some((start, data)) => if !old(self).packet_fits(*old(store), start, data@) {
                    r is None && *final(store) == *old(store) && final(self).next_frame() is None
                } else {
                    let ch = old(self).channel_count() as nat;
                    let end = start + data@.len() / ch;
                    let p = old(self).pile().0 as int;
                    &&& final(self).next_frame() == Some(end as u64)
                    &&& !clashes(old(store).pile(p), start as int, end) ==> {
                        &&& exists|j: int|
                            0 <= j < final(store).pile(p).len()
                                && (#[trigger] final(store).pile(p)[j]).frame_idx == start
                                && final(store).pile(p)[j].data.samples() == data@
                                && final(store).pile(p)[j].channels == old(self).channel_count()
                                && final(store).pile(p)[j].data.is_cache()
                        &&& start <= frame_idx < end ==> (r matches Some(v) && v@ == data@.subrange(
                            (frame_idx - start) * ch,
                            (frame_idx - start) * ch + ch,
                        ))
                    }
                },
            },
    {
        let pile = self.storage_pile_id;
        let ghost pk0 = packet;
        let (start, data) = match packet {
            Some(pk) => pk,
            None => {
                self.next_frame_idx = None;
                return None;
            },
        };
        proof {
            assert(pk0 == Some((start, data)));
        }
        let ch = self.channels as usize;
        if data.len() == 0 || data.len() % ch != 0 {
            self.next_frame_idx = None;
            return None;
        }
        let frames = (data.len() / ch) as u64;
        if start > u64::MAX - frames {
            self.next_frame_idx = None;
            return None;
        }
        let dlen = data.len();
        let sb = store.sample_size();
        proof {
            assert(dlen * sb <= u64::MAX * u64::MAX) by (nonlinear_arith)
                requires
                    dlen <= u64::MAX,
                    sb <= u64::MAX,
            ;
        }
        if dlen as u128 * sb as u128 > store.cache_limit_bytes() as u128 {
            self.next_frame_idx = None;
            return None;
        }
        self.next_frame_idx = Some(start + frames);
        let ghost d = data@;
        let ghost s1 = *store;
        store.insert(pile, start, self.channels, data, false);
        let ghost s2 = *store;
        let second = store.find(pile, frame_idx);
        proof {
            let p = pile.0 as int;
            if second.is_some() {
                let v = second->Some_0;
                let i = choose|i: int|
                    0 <= i < s2.pile(p).len() && (#[trigger] s2.pile(p)[i]).covers(frame_idx as int)
                        && v@ == s2.pile(p)[i].frame_at(frame_idx as int);
                assert(store.pile(p)[i].frame_idx == s2.pile(p)[i].frame_idx);
                assert(store.pile(p)[i].covers(frame_idx as int));
            }
            let end = start + d.len() / (ch as nat);
            if !clashes(s1.pile(p), start as int, end) {
                let j = choose|j: int|
                    0 <= j < s2.pile(p).len() && (#[trigger] s2.pile(p)[j]).frame_idx == start
                        && s2.pile(p)[j].data.samples() == d && s2.pile(p)[j].channels == self.channels
                        && s2.pile(p)[j].data.is_cache();
                assert(store.pile(p)[j].frame_idx == start && store.pile(p)[j].data == s2.pile(p)[j].data
                    && store.pile(p)[j].channels == self.channels);
            }
            if !clashes(s1.pile(p), start as int, end) && start <= frame_idx < end {
                let j = choose|j: int|
                    0 <= j < s2.pile(p).len() && (#[trigger] s2.pile(p)[j]).frame_idx == start
                        && s2.pile(p)[j].data.samples() == d && s2.pile(p)[j].channels == self.channels
                        && s2.pile(p)[j].data.is_cache();
                assert(s2.pile(p)[j].covers(frame_idx as int));
                assert(second is Some);
                let v = second->Some_0;
                let i = choose|i: int|
                    0 <= i < s2.pile(p).len() && (#[trigger] s2.pile(p)[i]).covers(frame_idx as int)
                        && v@ == s2.pile(p)[i].frame_at(frame_idx as int);
                if i != j {
                    lemma_segments_disjoint(&s2, p, i, j, frame_idx as int);
                }
            }
        }
        second
    }
}

} // verus!
