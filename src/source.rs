//! Frame-addressable audio sources.
use vstd::prelude::*;
use crate::segment_store::{SegmentStore, StoreID};
use crate::source::formatted::FormattedStreamSource;
use crate::source::memory::MemorySrc;
use crate::source::queue::{queue_read, QueueSrc};

pub mod dyn_buf;
pub mod formatted;
pub mod memory;
pub mod queue;

verus! {

pub type TFrameIdx = u64;

/// The arithmetic that mixing needs from a sample type. The application
/// implements it for the sample type it plays (32-bit float).
pub trait Sample: Copy {
    /// The sample of silence.
    spec fn silence_spec() -> Self;

    /// The gain that leaves a sample unchanged.
    spec fn unity_spec() -> Self;

    /// `acc + x * gain`.
    spec fn mul_add_spec(acc: Self, x: Self, gain: Self) -> Self;

    /// `x * gain`.
    spec fn scale_spec(x: Self, gain: Self) -> Self;

    /// `a + (b - a) * num / den`.
    spec fn lerp_spec(a: Self, b: Self, num: u64, den: u64) -> Self;

    fn silence() -> (r: Self)
        ensures
            r == Self::silence_spec(),
    ;

    fn unity() -> (r: Self)
        ensures
            r == Self::unity_spec(),
    ;

    fn mul_add(acc: Self, x: Self, gain: Self) -> (r: Self)
        ensures
            r == Self::mul_add_spec(acc, x, gain),
    ;

    fn scale(x: Self, gain: Self) -> (r: Self)
        ensures
            r == Self::scale_spec(x, gain),
    ;

    fn lerp(a: Self, b: Self, num: u64, den: u64) -> (r: Self)
        ensures
            r == Self::lerp_spec(a, b, num, den),
    ;
}

/// A decoder of one formatted audio stream, which yields packets of
/// interleaved frames.
pub trait FrameDecoder<S> {
    /// Moves the decoder so that its next packet holds frame `frame`.
    /// `false` when the seek failed.
    fn seek(&mut self, frame: u64) -> bool;

    /// The next packet: the index of its first frame and its interleaved
    /// samples. `None` at the end of the stream or on a read or decode error.
    fn next_packet(&mut self) -> Option<(u64, Vec<S>)>;
}

/// Any of the source kinds. A queue holds file-backed and in-memory sources.
pub enum Source<S, D> {
    File(FormattedStreamSource<S, D>),
    Memory(MemorySrc<S>),
    Queue(QueueSrc<S, D>),
}

impl<S: Sample, D: FrameDecoder<S>> From<FormattedStreamSource<S, D>> for Source<S, D> {
    fn from(value: FormattedStreamSource<S, D>) -> (r: Self)
        ensures
            r == Source::<S, D>::File(value),
    {
        Source::File(value)
    }
}

impl<S: Sample, D: FrameDecoder<S>> vstd::std_specs::convert::FromSpecImpl<FormattedStreamSource<S, D>> for Source<S, D> {
    open spec fn obeys_from_spec() -> bool {
        true
    }

    open spec fn from_spec(v: FormattedStreamSource<S, D>) -> Self {
        Source::File(v)
    }
}

impl<S: Sample, D: FrameDecoder<S>> From<QueueSrc<S, D>> for Source<S, D> {
    fn from(value: QueueSrc<S, D>) -> (r: Self)
        ensures
            r == Source::<S, D>::Queue(value),
    {
        Source::Queue(value)
    }
}

impl<S: Sample, D: FrameDecoder<S>> vstd::std_specs::convert::FromSpecImpl<QueueSrc<S, D>> for Source<S, D> {
    open spec fn obeys_from_spec() -> bool {
        true
    }

    open spec fn from_spec(v: QueueSrc<S, D>) -> Self {
        Source::Queue(v)
    }
}

impl<S: Sample, D: FrameDecoder<S>> Source<S, D> {
    /// A well-formed file-backed or in-memory source.
    pub open spec fn leaf_wf(&self) -> bool {
        match self {
            Source::File(f) => f.wf(),
            Source::Memory(m) => m.wf(),
            Source::Queue(_) => false,
        }
    }

    pub open spec fn wf(&self) -> bool {
        match self {
            Source::Queue(q) => q.wf(),
            _ => self.leaf_wf(),
        }
    }

    pub open spec fn leaf_in_store(&self, id: StoreID, piles: nat) -> bool {
        match self {
            Source::File(f) => f.pile().1 == id && f.pile().0 < piles,
            _ => true,
        }
    }

    /// Every pile the source reads belongs to a store of id `id` that holds
    /// `piles` piles.
    pub open spec fn in_store(&self, id: StoreID, piles: nat) -> bool {
        match self {
            Source::Queue(q) => q.in_store(id, piles),
            _ => self.leaf_in_store(id, piles),
        }
    }

    pub open spec fn rate(&self) -> u32 {
        match self {
            Source::File(f) => f.rate(),
            Source::Memory(m) => m.rate(),
            Source::Queue(q) => q.rate(),
        }
    }

    pub fn sample_rate(&self) -> (r: u32)
        ensures
            r == self.rate(),
    {
        match self {
            Source::File(f) => f.sample_rate(),
            Source::Memory(m) => m.sample_rate(),
            Source::Queue(q) => q.sample_rate(),
        }
    }

    /// The length in frames of a file-backed or in-memory source.
    pub fn leaf_duration(&self) -> (r: u64)
        requires
            self.leaf_wf(),
        ensures
            match self {
                Source::File(f) => r == f.frame_total(),
                Source::Memory(m) => r == m.frame_total(),
                Source::Queue(_) => r == 0,
            },
    {
        match self {
            Source::File(f) => f.current_duration_frames(),
            Source::Memory(m) => m.current_duration_frames(),
            Source::Queue(_) => 0,
        }
    }

    /// The length in frames when it is known cheaply.
    pub fn duration(&self) -> (r: Option<u64>)
        requires
            self.wf(),
        ensures
            match self {
                Source::File(f) => r == Some(f.frame_total()),
                Source::Memory(m) => r == Some(m.frame_total() as u64),
                Source::Queue(q) => r == Some(q.total_frames()),
            },
    {
        match self {
            Source::File(f) => f.duration(),
            Source::Memory(m) => m.duration(),
            Source::Queue(q) => q.duration(),
        }
    }

    /// The length in frames, whatever it costs to find out.
    pub fn current_duration_frames(&self) -> (r: u64)
        requires
            self.wf(),
        ensures
            Some(r) == match self {
                Source::File(f) => Some(f.frame_total()),
                Source::Memory(m) => Some(m.frame_total() as u64),
                Source::Queue(q) => Some(q.total_frames()),
            },
    {
        match self {
            Source::File(f) => f.current_duration_frames(),
            Source::Memory(m) => m.current_duration_frames(),
            Source::Queue(q) => q.current_duration_frames(),
        }
    }

    /// Reads frame `frame_idx` of a file-backed or in-memory source.
    pub fn read_leaf(&mut self, store: &mut SegmentStore<S>, frame_idx: u64) -> (r: Option<Vec<S>>)
        requires
            old(self).leaf_wf(),
            old(store).wf(),
            old(self).leaf_in_store(old(store).id(), old(store).pile_count()),
        ensures
            final(self).leaf_wf(),
            final(self).leaf_in_store(old(store).id(), old(store).pile_count()),
            final(self).rate() == old(self).rate(),
            final(store).wf(),
            final(store).keeps_layout_of(*old(store)),
            *old(self) is Memory ==> *final(self) == *old(self),
            (*final(self) is Memory <==> *old(self) is Memory),
            match *old(self) {
                Source::Memory(m) => frame_idx < m.frame_total() ==> (r matches Some(v) && v@
                    == m.frame_at(frame_idx as int)),
                _ => true,
            },
            match *old(self) {
                Source::Memory(m) => frame_idx >= m.frame_total() ==> r is None,
                _ => true,
            },
            match *old(self) {
                Source::File(f) => (old(store).covers_frame(f.pile().0 as int, frame_idx as int) ==> (
                r matches Some(v) && old(store).holds_frame(f.pile().0 as int, frame_idx as int, v@)))
                    && (r matches Some(v) ==> final(store).holds_frame(
                    f.pile().0 as int,
                    frame_idx as int,
                    v@,
                )),
                _ => true,
            },
            match *old(self) {
                Source::File(f) => *final(self) matches Source::File(g) && g.pile() == f.pile()
                    && g.frame_total() == f.frame_total() && g.channel_count() == f.channel_count(),
                _ => true,
            },
    {
        match self {
            Source::File(f) => f.get_by_frame_i(store, frame_idx),
            Source::Memory(m) => m.get_by_frame_i(frame_idx),
            Source::Queue(_) => None,
        }
    }

    /// Reads frame `frame_idx`, or `None` past the end of the source.
    pub fn get_by_frame_i(&mut self, store: &mut SegmentStore<S>, frame_idx: u64) -> (r: Option<
        Vec<S>,
    >)
        requires
            old(self).wf(),
            old(store).wf(),
            old(self).in_store(old(store).id(), old(store).pile_count()),
        ensures
            final(self).wf(),
            final(self).in_store(old(store).id(), old(store).pile_count()),
            final(self).rate() == old(self).rate(),
            final(store).wf(),
            final(store).keeps_layout_of(*old(store)),
            *old(self) is Memory ==> *final(self) == *old(self),
            (*final(self) is Memory <==> *old(self) is Memory),
            match *old(self) {
                Source::Memory(m) => frame_idx < m.frame_total() ==> (r matches Some(v) && v@
                    == m.frame_at(frame_idx as int)),
                _ => true,
            },
            match *old(self) {
                Source::Memory(m) => frame_idx >= m.frame_total() ==> r is None,
                _ => true,
            },
            match *old(self) {
                Source::File(f) => (old(store).covers_frame(f.pile().0 as int, frame_idx as int) ==> (
                r matches Some(v) && old(store).holds_frame(f.pile().0 as int, frame_idx as int, v@)))
                    && (r matches Some(v) ==> final(store).holds_frame(
                    f.pile().0 as int,
                    frame_idx as int,
                    v@,
                )),
                _ => true,
            },
            match *old(self) {
                Source::Queue(q) => queue_read(q.children(), q.rate(), frame_idx, 0, 0) matches Some(res)
                    ==> (r matches Some(v) ==> res == Some(v@)) && (r is None ==> res is None),
                _ => true,
            },
    {
        match self {
            Source::Queue(q) => q.get_by_frame_i(store, frame_idx),
            _ => self.read_leaf(store, frame_idx),
        }
    }
}

} // verus!
