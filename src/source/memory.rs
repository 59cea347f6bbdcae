//! A source whose frames are all held in memory.
use vstd::prelude::*;

verus! {

/// Interleaved frames held in memory, read by index.
pub struct MemorySrc<S> {
    samples: Vec<S>,
    channels: u8,
    sample_rate: u32,
}

impl<S: Copy> MemorySrc<S> {
    pub closed spec fn samples(&self) -> Seq<S> {
        self.samples@
    }

    pub closed spec fn channel_count(&self) -> u8 {
        self.channels
    }

    pub closed spec fn rate(&self) -> u32 {
        self.sample_rate
    }

    pub open spec fn wf(&self) -> bool {
        &&& self.channel_count() > 0
        &&& self.rate() > 0
        &&& self.samples().len() % (self.channel_count() as nat) == 0
    }

    /// The number of whole frames held.
    pub open spec fn frame_total(&self) -> nat {
        (self.samples().len() / (self.channel_count() as nat)) as nat
    }

    /// The interleaved samples of frame `k`.
    pub open spec fn frame_at(&self, k: int) -> Seq<S> {
        let lo = k * self.channel_count();
        self.samples().subrange(lo, lo + self.channel_count())
    }

    /// Wraps interleaved `samples` with `channels` samples per frame.
    pub fn new(samples: Vec<S>, channels: u8, sample_rate: u32) -> (r: Self)
        requires
            channels > 0,
            sample_rate > 0,
            samples@.len() % (channels as nat) == 0,
        ensures
            r.wf(),
            r.samples() == samples@,
            r.channel_count() == channels,
            r.rate() == sample_rate,
    {
        MemorySrc { samples, channels, sample_rate }
    }

    pub fn sample_rate(&self) -> (r: u32)
        ensures
            r == self.rate(),
    {
        self.sample_rate
    }

    pub fn channels(&self) -> (r: u8)
        ensures
            r == self.channel_count(),
    {
        self.channels
    }

    pub fn duration(&self) -> (r: Option<u64>)
        requires
            self.wf(),
        ensures
            r == Some(self.frame_total() as u64),
    {
        Some(self.current_duration_frames())
    }

    pub fn current_duration_frames(&self) -> (r: u64)
        requires
            self.wf(),
        ensures
            r == self.frame_total(),
    {
        (self.samples.len() / self.channels as usize) as u64
    }

    /// Frame `frame_idx`, or `None` past the end.
    pub fn get_by_frame_i(&self, frame_idx: u64) -> (r: Option<Vec<S>>)
        requires
            self.wf(),
        ensures
            frame_idx < self.frame_total() ==> (r matches Some(v) && v@ == self.frame_at(frame_idx as int)),
            frame_idx >= self.frame_total() ==> r is None,
    {
        let ch = self.channels as usize;
        let total = self.samples.len() / ch;
        if frame_idx as u128 >= total as u128 {
            return None;
        }
        let k = frame_idx as usize;
        proof {
            let len = self.samples@.len() as int;
            assert(k * ch + ch <= len) by (nonlinear_arith)
                requires
                    k < total,
                    total == len / (ch as int),
                    ch > 0,
                    len >= 0,
            ;
        }
        let lo = k * ch;
        let dlen = self.samples.len();
        let mut out: Vec<S> = Vec::new();
        let mut c: usize = 0;
        while c < ch
            invariant
                c <= ch,
                lo + ch <= self.samples@.len(),
                self.samples@.len() == dlen,
                out@ == self.samples@.subrange(lo as int, lo + c),
            decreases ch - c,
        {
            out.push(self.samples[lo + c]);
            c += 1;
            proof {
                assert(out@ =~= self.samples@.subrange(lo as int, lo + c));
            }
        }
        Some(out)
    }
}

} // verus!
