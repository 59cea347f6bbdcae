//! A source that plays other sources one after the other.
use vstd::prelude::*;
use crate::composition::clamp_u64;
use crate::compositor::{
    blend_frames, blend_spec, lemma_same_rate_tap, memory_tap_read, opt_view, read_allowed, source_tap,
    tap_of, Tap,
};
use crate::segment_store::{SegmentStore, StoreID};
use crate::source::{FrameDecoder, Sample, Source};

verus! {

/// The frames a child spans, counted at the queue's rate.
pub open spec fn span_of<S: Sample, D: FrameDecoder<S>>(child: Source<S, D>, rate: u32) -> int {
    let frames: int = match child {
        Source::File(f) => f.frame_total() as int,
        Source::Memory(m) => m.frame_total() as int,
        Source::Queue(_) => 0,
    };
    frames * rate / (child.rate() as int)
}

/// The frames of `children`, counted at rate `rate`, end to end.
pub open spec fn spans_total<S: Sample, D: FrameDecoder<S>>(children: Seq<Source<S, D>>, rate: u32) -> int
    decreases children.len(),
{
    if children.len() == 0 {
        0
    } else {
        spans_total(children.drop_last(), rate) + span_of(children.last(), rate)
    }
}

proof fn lemma_spans_total_nonneg<S: Sample, D: FrameDecoder<S>>(children: Seq<Source<S, D>>, rate: u32)
    requires
        forall|i: int| 0 <= i < children.len() ==> (#[trigger] children[i]).rate() > 0,
    ensures
        spans_total(children, rate) >= 0,
    decreases children.len(),
{
    if children.len() > 0 {
        lemma_spans_total_nonneg(children.drop_last(), rate);
        let c = children.last();
        let frames: int = match c {
            Source::File(f) => f.frame_total() as int,
            Source::Memory(m) => m.frame_total() as int,
            Source::Queue(_) => 0,
        };
        assert(frames * rate >= 0) by (nonlinear_arith)
            requires
                frames >= 0,
        ;
        assert(children[children.len() - 1].rate() > 0);
    }
}

/// What child `c` yields for its frame `local` at the queue's rate `rate`,
/// where that is known without reading: an in-memory child, read directly
/// at the same rate and resampled at another.
pub open spec fn known_yield<S: Sample, D: FrameDecoder<S>>(c: Source<S, D>, local: u64, rate: u32) -> Option<
    Option<Seq<S>>,
> {
    match c {
        Source::Memory(m) => Some(memory_tap_read(m, tap_of(local, rate, m.rate(), 0))),
        _ => None,
    }
}

/// The queue's frame `frame`, trying the children from `i` on with child `i`
/// starting at `offset`; `None` where a child on the way is not known
/// without reading it.
pub open spec fn queue_read<S: Sample, D: FrameDecoder<S>>(
    children: Seq<Source<S, D>>,
    rate: u32,
    frame: u64,
    i: nat,
    offset: u64,
) -> Option<Option<Seq<S>>>
    decreases children.len() - i,
{
    if i >= children.len() || frame < offset {
        Some(None)
    } else {
        match known_yield(children[i as int], (frame - offset) as u64, rate) {
            None => None,
            Some(Some(v)) => Some(Some(v)),
            Some(None) => {
                let s = clamp_u64(span_of(children[i as int], rate));
                if offset > u64::MAX - s {
                    Some(None)
                } else {
                    queue_read(children, rate, frame, i + 1, (offset + s) as u64)
                }
            },
        }
    }
}

/// File-backed and in-memory sources concatenated end to end; children at
/// another rate are resampled to the queue's rate.
pub struct QueueSrc<S, D> {
    sources: Vec<Source<S, D>>,
    sample_rate: u32,
}

/// Reads queue-rate frame `frame_idx` of a child at another rate.
fn read_resampled<S: Sample, D: FrameDecoder<S>>(
    child: &mut Source<S, D>,
    store: &mut SegmentStore<S>,
    into_sample_rate: u32,
    frame_idx: u64,
) -> (r: Option<Vec<S>>)
    requires
        into_sample_rate > 0,
        old(child).leaf_wf(),
        old(store).wf(),
        old(child).leaf_in_store(old(store).id(), old(store).pile_count()),
    ensures
        final(child).leaf_wf(),
        final(child).leaf_in_store(old(store).id(), old(store).pile_count()),
        final(child).rate() == old(child).rate(),
        final(store).wf(),
        final(store).keeps_layout_of(*old(store)),
        match *old(child) {
            Source::File(f) => *final(child) matches Source::File(g) && g.frame_total()
                == f.frame_total(),
            Source::Memory(_) => *final(child) == *old(child),
            Source::Queue(_) => true,
        },
        read_allowed(*old(child), tap_of(frame_idx, into_sample_rate, old(child).rate(), 0), opt_view(r)),
{
    let rate = child.sample_rate();
    match source_tap(frame_idx, into_sample_rate, rate, 0) {
        Tap::Silent => None,
        Tap::Direct(k) => child.read_leaf(store, k),
        Tap::Blend { a, num, den } => {
            let fa = child.read_leaf(store, a);
            let fb = child.read_leaf(store, a + 1);
            match (fa, fb) {
                (Some(va), Some(vb)) => {
                    let v = blend_frames(&va, &vb, num, den);
                    proof {
                        assert(v@ == blend_spec(va@, vb@, num, den));
                    }
                    Some(v)
                },
                _ => None,
            }
        },
    }
}

impl<S: Sample, D: FrameDecoder<S>> QueueSrc<S, D> {
    pub closed spec fn children(&self) -> Seq<Source<S, D>> {
        self.sources@
    }

    pub closed spec fn rate(&self) -> u32 {
        self.sample_rate
    }

    pub open spec fn wf(&self) -> bool {
        &&& self.rate() > 0
        &&& forall|i: int| 0 <= i < self.children().len() ==> (#[trigger] self.children()[i]).leaf_wf()
    }

    pub open spec fn in_store(&self, id: StoreID, piles: nat) -> bool {
        forall|i: int|
            0 <= i < self.children().len() ==> (#[trigger] self.children()[i]).leaf_in_store(id, piles)
    }

    /// The length of the queue in its own frames, saturated at `u64::MAX`.
    pub open spec fn total_frames(&self) -> u64 {
        clamp_u64(spans_total(self.children(), self.rate()))
    }

    pub fn new(sample_rate: u32) -> (r: Self)
        requires
            sample_rate > 0,
        ensures
            r.wf(),
            r.rate() == sample_rate,
            r.children().len() == 0,
    {
        QueueSrc { sources: Vec::new(), sample_rate }
    }

    /// Appends `src` to the end of the queue.
    pub fn push(&mut self, src: Source<S, D>)
        requires
            old(self).wf(),
            src.leaf_wf(),
        ensures
            final(self).wf(),
            final(self).rate() == old(self).rate(),
            final(self).children() == old(self).children().push(src),
    {
        self.sources.push(src);
        proof {
            assert forall|i: int| 0 <= i < self.children().len() implies (#[trigger] self.children()[i]).leaf_wf() by {
                if i < old(self).children().len() {
                    assert(self.children()[i] == old(self).children()[i]);
                }
            }
        }
    }

    /// Takes the last source off the queue.
    pub fn pop(&mut self) -> (r: Option<Source<S, D>>)
        requires
            old(self).wf(),
        ensures
            final(self).wf(),
            final(self).rate() == old(self).rate(),
            old(self).children().len() == 0 ==> r is None && final(self).children() == old(
                self,
            ).children(),
            old(self).children().len() > 0 ==> r == Some(old(self).children().last())
                && final(self).children() == old(self).children().drop_last(),
    {
        self.sources.pop()
    }

    pub fn sources(&self) -> (r: &Vec<Source<S, D>>)
        ensures
            r@ == self.children(),
    {
        &self.sources
    }

    pub fn sources_mut(&mut self) -> (r: &mut Vec<Source<S, D>>)
        ensures
            (*r)@ == old(self).children(),
            final(self).children() == (*final(r))@,
            final(self).rate() == old(self).rate(),
    {
        &mut self.sources
    }

    pub fn sample_rate(&self) -> (r: u32)
        ensures
            r == self.rate(),
    {
        self.sample_rate
    }

    /// The frames child `child` spans at the queue's rate, saturated.
    fn span(&self, i: usize) -> (r: u64)
        requires
            self.wf(),
            i < self.children().len(),
        ensures
            r == clamp_u64(span_of(self.children()[i as int], self.rate())),
    {
        let child = &self.sources[i];
        let d = child.leaf_duration();
        let cr = child.sample_rate();
        proof {
            assert(d * self.sample_rate <= u64::MAX * u32::MAX) by (nonlinear_arith)
                requires
                    d <= u64::MAX,
                    self.sample_rate <= u32::MAX,
            ;
        }
        let t = (d as u128 * self.sample_rate as u128) / cr as u128;
        if t > u64::MAX as u128 {
            u64::MAX
        } else {
            t as u64
        }
    }

    pub fn duration(&self) -> (r: Option<u64>)
        requires
            self.wf(),
        ensures
            r == Some(self.total_frames()),
    {
        Some(self.current_duration_frames())
    }

    pub fn current_duration_frames(&self) -> (r: u64)
        requires
            self.wf(),
        ensures
            r == self.total_frames(),
    {
        let mut acc: u64 = 0;
        let mut i: usize = 0;
        while i < self.sources.len()
            invariant
                self.wf(),
                i <= self.children().len(),
                acc == clamp_u64(spans_total(self.children().subrange(0, i as int), self.rate())),
            decreases self.children().len() - i,
        {
            let s = self.span(i);
            proof {
                let pre = self.children().subrange(0, i as int);
                assert(self.children().subrange(0, i + 1).drop_last() =~= pre);
                lemma_spans_total_nonneg(pre, self.rate());
                assert(self.children()[i as int].leaf_wf());
                let c = self.children()[i as int];
                let frames: int = match c {
                    Source::File(f) => f.frame_total() as int,
                    Source::Memory(m) => m.frame_total() as int,
                    Source::Queue(_) => 0,
                };
                assert(frames * self.rate() >= 0) by (nonlinear_arith)
                    requires
                        frames >= 0,
                ;
            }
            if acc > u64::MAX - s {
                acc = u64::MAX;
            } else {
                acc = acc + s;
            }
            i += 1;
        }
        proof {
            assert(self.children().subrange(0, i as int) =~= self.children());
        }
        acc
    }

    /// Frame `frame_idx` of the queue: the children are tried in order, each
    /// at its offset; the first one that yields the frame gives it.
    pub fn get_by_frame_i(&mut self, store: &mut SegmentStore<S>, frame_idx: u64) -> (r: Option<
        Vec<S>,
    >)
        requires
            old(self).wf(),
            old(store).wf(),
            old(self).in_store(old(store).id(), old(store).pile_count()),
        ensures
            final(self).wf(),
            final(self).rate() == old(self).rate(),
            final(self).children().len() == old(self).children().len(),
            final(self).in_store(old(store).id(), old(store).pile_count()),
            final(store).wf(),
            final(store).keeps_layout_of(*old(store)),
            old(self).children().len() == 0 ==> r is None,
            queue_read(old(self).children(), old(self).rate(), frame_idx, 0, 0) matches Some(res)
                ==> (r matches Some(v) ==> res == Some(v@)) && (r is None ==> res is None),
    {
        let ghost id = store.id();
        let ghost piles = store.pile_count();
        let ghost s0 = *store;
        let mut offset: u64 = 0;
        let mut i: usize = 0;
        let len = self.sources.len();
        while i < len
            invariant
                i <= len,
                len == self.children().len(),
                self.wf(),
                self.rate() == old(self).rate(),
                self.in_store(id, piles),
                store.wf(),
                store.keeps_layout_of(*old(store)),
                id == s0.id(),
                piles == s0.pile_count(),
                id == old(store).id(),
                piles == old(store).pile_count(),
                len == old(self).children().len(),
                forall|j: int| i <= j < len ==> self.children()[j] == old(self).children()[j],
                queue_read(old(self).children(), old(self).rate(), frame_idx, 0, 0) matches Some(res)
                    ==> queue_read(old(self).children(), old(self).rate(), frame_idx, i as nat, offset)
                    == Some(res),
            decreases len - i,
        {
            if frame_idx < offset {
                return None;
            }
            let local = frame_idx - offset;
            let child_rate = self.sources[i].sample_rate();
            let ghost before = self.children();
            proof {
                assert(before[i as int].leaf_wf());
                assert(before[i as int].leaf_in_store(id, piles));
            }
            let frame = if child_rate == self.sample_rate {
                proof {
                    lemma_same_rate_tap(local, self.sample_rate, 0);
                }
                self.sources[i].read_leaf(store, local)
            } else {
                read_resampled(&mut self.sources[i], store, self.sample_rate, local)
            };
            proof {
                assert forall|j: int| 0 <= j < self.children().len() implies (#[trigger] self.children()[j]).leaf_wf()
                    && self.children()[j].leaf_in_store(id, piles) by {
                    if j != i {
                        assert(self.children()[j] == before[j]);
                    }
                }
                assert(before[i as int] == old(self).children()[i as int]);
            }
            if frame.is_some() {
                return frame;
            }
            let s = self.span(i);
            if offset > u64::MAX - s {
                return None;
            }
            offset = offset + s;
            i += 1;
        }
        None
    }
}

} // verus!
