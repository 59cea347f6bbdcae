//! The timeline and content of one mix: a logical clock anchored to the wall
//! clock, with pause, seek and a change epoch.
use vstd::prelude::*;
use crate::clock::now_millis;
use crate::source::{FrameDecoder, Sample, Source};

verus! {

/// The frame count `rate_a` at `sample_rate_a`, counted at `sample_rate_b`
/// (rounded down).
pub fn convert_sample_rates(sample_rate_a: u64, rate_a: u64, sample_rate_b: u64) -> (r: u64)
    requires
        sample_rate_a > 0,
        rate_a * sample_rate_b / (sample_rate_a as int) <= u64::MAX,
    ensures
        r == rate_a * sample_rate_b / (sample_rate_a as int),
{
    proof {
        assert(rate_a * sample_rate_b <= u64::MAX * u64::MAX) by (nonlinear_arith)
            requires
                rate_a <= u64::MAX,
                sample_rate_b <= u64::MAX,
        ;
    }
    ((rate_a as u128 * sample_rate_b as u128) / sample_rate_a as u128) as u64
}

/// Where a source sits in a composition: its frame (at its own rate) that
/// plays at the composition's time zero, and its gain.
pub struct SrcCompositionData<S> {
    pub frame_offset: i64,
    pub amplification: S,
}

pub struct CompositionSrc<S, D> {
    pub src: Source<S, D>,
    pub composition_data: SrcCompositionData<S>,
}

/// `x` clamped into the range of `i64`.
pub open spec fn clamp_i64(x: int) -> i64 {
    if x < i64::MIN {
        i64::MIN
    } else if x > i64::MAX {
        i64::MAX
    } else {
        x as i64
    }
}

/// `x` clamped into the range of `u64`.
pub open spec fn clamp_u64(x: int) -> u64 {
    if x < 0 {
        0
    } else if x > u64::MAX {
        u64::MAX
    } else {
        x as u64
    }
}

fn clamp_to_i64(x: i128) -> (r: i64)
    ensures
        r == clamp_i64(x as int),
{
    if x < i64::MIN as i128 {
        i64::MIN
    } else if x > i64::MAX as i128 {
        i64::MAX
    } else {
        x as i64
    }
}

/// The state of one composition. Times are milliseconds of the monotonic
/// clock.
pub struct CompositionState<S, D> {
    id: String,
    pause_t: Option<u64>,
    channels: u8,
    pub sources: Vec<CompositionSrc<S, D>>,
    amplification: S,
    /// Bumped whenever buffered audio of this composition stops being valid.
    pub config_change_idx: u64,
    start_t: u64,
    playback_offset_ms: i64,
}

impl<S: Sample, D: FrameDecoder<S>> CompositionState<S, D> {
    pub closed spec fn id_view(&self) -> Seq<char> {
        self.id@
    }

    pub closed spec fn srcs(&self) -> Seq<CompositionSrc<S, D>> {
        self.sources@
    }

    pub closed spec fn epoch(&self) -> u64 {
        self.config_change_idx
    }

    pub closed spec fn paused_at(&self) -> Option<u64> {
        self.pause_t
    }

    pub closed spec fn start_ms(&self) -> u64 {
        self.start_t
    }

    pub closed spec fn offset_ms(&self) -> i64 {
        self.playback_offset_ms
    }

    pub closed spec fn channel_count(&self) -> u8 {
        self.channels
    }

    pub closed spec fn gain(&self) -> S {
        self.amplification
    }

    /// Milliseconds of wall clock the composition has played by `now`: up to
    /// the pause, if paused.
    pub open spec fn elapsed_at(&self, now: u64) -> int {
        let until = match self.paused_at() {
            Some(p) => p,
            None => now,
        };
        if until >= self.start_ms() {
            until - self.start_ms()
        } else {
            0
        }
    }

    /// The logical time at `now`, before clamping.
    pub open spec fn logical_ms(&self, now: u64) -> int {
        self.elapsed_at(now) + self.offset_ms()
    }

    /// The logical time at `now` as the clock reports it.
    pub open spec fn time_at(&self, now: u64) -> u64 {
        clamp_u64(self.logical_ms(now))
    }

    /// Paused, or sought before time zero and waiting for the wall clock.
    pub open spec fn paused_spec(&self, now: u64) -> bool {
        self.paused_at() is Some || self.logical_ms(now) < 0
    }

    /// A composition of two channels, anchored at `now`.
    pub fn new_at(id: String, amp: S, now: u64) -> (r: Self)
        ensures
            r.id_view() == id@,
            r.gain() == amp,
            r.channel_count() == 2,
            r.srcs().len() == 0,
            r.epoch() == 0,
            r.start_ms() == now,
            r.paused_at() is None,
            r.offset_ms() == 0,
    {
        CompositionState {
            id,
            pause_t: None,
            channels: 2,
            sources: Vec::new(),
            amplification: amp,
            config_change_idx: 0,
            start_t: now,
            playback_offset_ms: 0,
        }
    }

    /// A composition of two channels, anchored at the current time.
    pub fn new(id: String, amp: S) -> (r: Self)
        ensures
            r.id_view() == id@,
            r.gain() == amp,
            r.channel_count() == 2,
            r.srcs().len() == 0,
            r.epoch() == 0,
            r.paused_at() is None,
            r.offset_ms() == 0,
    {
        Self::new_at(id, amp, now_millis())
    }

    /// Milliseconds between `earlier` and `later`, zero if `later` comes first.
    fn span_ms(earlier: u64, later: u64) -> (r: u64)
        ensures
            r == if later >= earlier {
                later - earlier
            } else {
                0
            },
    {
        if later >= earlier {
            later - earlier
        } else {
            0
        }
    }

    fn elapsed_ms(&self, now: u64) -> (r: u64)
        ensures
            r == self.elapsed_at(now),
    {
        let until = match self.pause_t {
            Some(p) => p,
            None => now,
        };
        Self::span_ms(self.start_t, until)
    }

    /// The logical time at `now`, in milliseconds, saturated into `u64`.
    pub fn time_millis_at(&self, now: u64) -> (r: u64)
        ensures
            r == self.time_at(now),
    {
        let t = self.elapsed_ms(now) as i128 + self.playback_offset_ms as i128;
        if t < 0 {
            0
        } else if t > u64::MAX as i128 {
            u64::MAX
        } else {
            t as u64
        }
    }

    /// The logical time now.
    pub fn get_time_millis(&self) -> (r: u64)
        ensures
            exists|now: u64| r == self.time_at(now),
    {
        let now = now_millis();
        self.time_millis_at(now)
    }

    /// The logical time at `now` counted in frames at `sample_rate`.
    pub fn time_frames_at(&self, now: u64, sample_rate: u32) -> (r: u64)
        ensures
            r == clamp_u64(self.time_at(now) * sample_rate / 1000),
    {
        let ms = self.time_millis_at(now);
        proof {
            assert(ms * sample_rate <= u64::MAX * u32::MAX) by (nonlinear_arith)
                requires
                    ms <= u64::MAX,
                    sample_rate <= u32::MAX,
            ;
            assert(ms * sample_rate / 1000 >= 0) by (nonlinear_arith)
                requires
                    ms >= 0,
                    sample_rate >= 0,
            ;
        }
        let t = (ms as u128 * sample_rate as u128) / 1000;
        if t > u64::MAX as u128 {
            u64::MAX
        } else {
            t as u64
        }
    }

    /// Moves the logical time at `now` to `time_ms` and bumps the change epoch.
    pub fn set_time_millis_at(&mut self, time_ms: u64, now: u64)
        ensures
            final(self).offset_ms() == clamp_i64(time_ms - old(self).elapsed_at(now)),
            final(self).epoch() == if old(self).epoch() == u64::MAX {
                0
            } else {
                (old(self).epoch() + 1) as u64
            },
            final(self).paused_at() == old(self).paused_at(),
            final(self).start_ms() == old(self).start_ms(),
            final(self).id_view() == old(self).id_view(),
            final(self).channel_count() == old(self).channel_count(),
            final(self).gain() == old(self).gain(),
            final(self).srcs() == old(self).srcs(),
            i64::MIN <= time_ms - old(self).elapsed_at(now) <= i64::MAX 
                ==> final(self).logical_ms(now) == time_ms,
    {
        let elapsed = self.elapsed_ms(now);
        self.playback_offset_ms = clamp_to_i64(time_ms as i128 - elapsed as i128);
        self.config_change_idx = self.config_change_idx.wrapping_add(1);
    }

    /// Moves the logical time now to `time_ms` and bumps the change epoch.
    pub fn set_time_millis(&mut self, time_ms: u64)
        ensures
            exists|now: u64|
                #![trigger old(self).elapsed_at(now)]
                final(self).offset_ms() == clamp_i64(time_ms - old(self).elapsed_at(now)) && (i64::MIN
                    <= time_ms - old(self).elapsed_at(now) <= i64::MAX ==> final(self).logical_ms(now)
                    == time_ms),
            final(self).epoch() == if old(self).epoch() == u64::MAX {
                0
            } else {
                (old(self).epoch() + 1) as u64
            },
            final(self).paused_at() == old(self).paused_at(),
            final(self).start_ms() == old(self).start_ms(),
            final(self).id_view() == old(self).id_view(),
            final(self).channel_count() == old(self).channel_count(),
            final(self).gain() == old(self).gain(),
            final(self).srcs() == old(self).srcs(),
    {
        let now = now_millis();
        self.set_time_millis_at(time_ms, now);
    }

    /// Sought before time zero, with the wall clock not there yet.
    pub fn is_pushed_pass_zero_at(&self, now: u64) -> (r: bool)
        ensures
            r == (self.offset_ms() < 0 && Self::span_spec(self.start_ms(), now) + self.offset_ms() < 0),
    {
        (Self::span_ms(self.start_t, now) as i128) < -(self.playback_offset_ms as i128)
    }

    pub open spec fn span_spec(earlier: u64, later: u64) -> int {
        if later >= earlier {
            later - earlier
        } else {
            0
        }
    }

    /// Paused, or sought before time zero and waiting for the wall clock.
    pub fn is_paused_at(&self, now: u64) -> (r: bool)
        ensures
            r == self.paused_spec(now),
    {
        if self.pause_t.is_some() {
            return true;
        }
        (self.elapsed_ms(now) as i128 + self.playback_offset_ms as i128) < 0
    }

    pub fn is_paused(&self) -> (r: bool)
        ensures
            exists|now: u64| r == self.paused_spec(now),
    {
        self.is_paused_at(now_millis())
    }

    /// Freezes the clock at `time`.
    pub fn set_paused_since(&mut self, time: u64)
        requires
            old(self).start_ms() <= time,
        ensures
            final(self).paused_at() == Some(time),
            final(self).offset_ms() == old(self).offset_ms(),
            final(self).start_ms() == old(self).start_ms(),
            final(self).epoch() == old(self).epoch(),
            final(self).srcs() == old(self).srcs(),
    {
        self.pause_t = Some(time);
    }

    /// Pauses (`true`) or resumes (`false`) at `now`; nothing happens if the
    /// clock already is in that state. Resuming shifts the offset by the time
    /// spent paused, so that the logical time goes on from where it stopped.
    pub fn set_paused_at(&mut self, state: bool, now: u64)
        ensures
            final(self).start_ms() == old(self).start_ms(),
            final(self).epoch() == old(self).epoch(),
            final(self).srcs() == old(self).srcs(),
            final(self).id_view() == old(self).id_view(),
            final(self).channel_count() == old(self).channel_count(),
            final(self).gain() == old(self).gain(),
            state == (old(self).paused_at() is Some) ==> (final(self).paused_at() == old(
                self,
            ).paused_at() && final(self).offset_ms() == old(self).offset_ms()),
            state && old(self).paused_at() is None ==> final(self).paused_at() == Some(now)
                && final(self).offset_ms() == old(self).offset_ms(),
            !state && old(self).paused_at() is Some ==> final(self).paused_at() is None
                && final(self).offset_ms() == clamp_i64(
                old(self).offset_ms() - Self::span_spec(old(self).paused_at()->Some_0, now),
            ),
    {
        match self.pause_t {
            Some(p) => {
                if !state {
                    let paused_for = Self::span_ms(p, now);
                    self.playback_offset_ms = clamp_to_i64(
                        self.playback_offset_ms as i128 - paused_for as i128,
                    );
                    self.pause_t = None;
                }
            },
            None => {
                if state {
                    self.pause_t = Some(now);
                }
            },
        }
    }

    /// Pauses (`true`) or resumes (`false`) now; see `set_paused_at`.
    pub fn set_paused(&mut self, state: bool)
        ensures
            final(self).start_ms() == old(self).start_ms(),
            final(self).epoch() == old(self).epoch(),
            final(self).srcs() == old(self).srcs(),
            final(self).id_view() == old(self).id_view(),
            final(self).channel_count() == old(self).channel_count(),
            final(self).gain() == old(self).gain(),
            state == (old(self).paused_at() is Some) ==> (final(self).paused_at() == old(
                self,
            ).paused_at() && final(self).offset_ms() == old(self).offset_ms()),
            exists|now: u64|
                #![trigger Self::span_spec(old(self).start_ms(), now)]
                (state && old(self).paused_at() is None ==> final(self).paused_at() == Some(now)
                    && final(self).offset_ms() == old(self).offset_ms()) && (!state && old(
                    self,
                ).paused_at() is Some ==> final(self).paused_at() is None && final(self).offset_ms()
                    == clamp_i64(
                    old(self).offset_ms() - Self::span_spec(old(self).paused_at()->Some_0, now),
                )),
            final(self).paused_at() is Some == state,
    {
        let now = now_millis();
        let ghost before = *self;
        self.set_paused_at(state, now);
        proof {
            assert((state && before.paused_at() is None ==> self.paused_at() == Some(now)
                && self.offset_ms() == before.offset_ms()) && (!state && before.paused_at() is Some
                ==> self.paused_at() is None && self.offset_ms() == clamp_i64(
                before.offset_ms() - Self::span_spec(before.paused_at()->Some_0, now),
            )));
            assert(Self::span_spec(before.start_ms(), now) == Self::span_spec(old(self).start_ms(), now));
        }
    }

    pub fn start_time(&self) -> (r: u64)
        ensures
            r == self.start_ms(),
    {
        self.start_t
    }

    pub fn get_channels(&self) -> (r: u8)
        ensures
            r == self.channel_count(),
    {
        self.channels
    }

    pub fn get_id(&self) -> (r: &String)
        ensures
            r@ == self.id_view(),
    {
        &self.id
    }

    pub fn set_amplification(&mut self, amp: S)
        ensures
            final(self).gain() == amp,
            final(self).srcs() == old(self).srcs(),
            final(self).epoch() == old(self).epoch(),
            final(self).offset_ms() == old(self).offset_ms(),
            final(self).paused_at() == old(self).paused_at(),
            final(self).start_ms() == old(self).start_ms(),
    {
        self.amplification = amp;
    }

    pub fn get_amplification(&self) -> (r: S)
        ensures
            r == self.gain(),
    {
        self.amplification
    }

    /// Adds `src` at unit gain, so that its frame `frame_offset` plays at the
    /// composition's time zero.
    pub fn push_src_offset(&mut self, src: Source<S, D>, frame_offset: i64)
        ensures
            final(self).srcs().len() == old(self).srcs().len() + 1,
            forall|i: int| 0 <= i < old(self).srcs().len() ==> final(self).srcs()[i] == old(self).srcs()[i],
            final(self).srcs().last().src == src,
            final(self).srcs().last().composition_data.frame_offset == frame_offset,
            final(self).srcs().last().composition_data.amplification == S::unity_spec(),
            final(self).gain() == old(self).gain(),
            final(self).epoch() == old(self).epoch(),
            final(self).offset_ms() == old(self).offset_ms(),
            final(self).paused_at() == old(self).paused_at(),
            final(self).start_ms() == old(self).start_ms(),
    {
        let amplification = S::unity();
        self.sources.push(
            CompositionSrc { src, composition_data: SrcCompositionData { frame_offset, amplification } },
        );
    }

    /// Adds `src` at unit gain so that it starts at the logical time `now`.
    pub fn push_src_default_at(&mut self, src: Source<S, D>, now: u64)
        ensures
            final(self).srcs().len() == old(self).srcs().len() + 1,
            forall|i: int| 0 <= i < old(self).srcs().len() ==> final(self).srcs()[i] == old(self).srcs()[i],
            final(self).srcs().last().src == src,
            final(self).srcs().last().composition_data.frame_offset == clamp_i64(
                old(self).time_at(now) * src.rate() / 1000,
            ),
            final(self).srcs().last().composition_data.amplification == S::unity_spec(),
            final(self).epoch() == old(self).epoch(),
            final(self).offset_ms() == old(self).offset_ms(),
            final(self).paused_at() == old(self).paused_at(),
            final(self).start_ms() == old(self).start_ms(),
            final(self).gain() == old(self).gain(),
    {
        let rate = src.sample_rate();
        let frames = self.time_frames_at(now, rate);
        let frame_offset = clamp_to_i64(frames as i128);
        self.push_src_offset(src, frame_offset);
    }

    /// Adds `src` at unit gain so that it starts at the logical time now.
    pub fn push_src_default(&mut self, src: Source<S, D>)
        ensures
            final(self).srcs().len() == old(self).srcs().len() + 1,
            forall|i: int| 0 <= i < old(self).srcs().len() ==> final(self).srcs()[i] == old(self).srcs()[i],
            final(self).srcs().last().src == src,
            final(self).srcs().last().composition_data.amplification == S::unity_spec(),
            exists|now: u64|
                final(self).srcs().last().composition_data.frame_offset == clamp_i64(
                    #[trigger] old(self).time_at(now) * src.rate() / 1000,
                ),
            final(self).epoch() == old(self).epoch(),
            final(self).offset_ms() == old(self).offset_ms(),
            final(self).paused_at() == old(self).paused_at(),
            final(self).start_ms() == old(self).start_ms(),
            final(self).gain() == old(self).gain(),
    {
        self.push_src_default_at(src, now_millis());
    }
}

} // verus!
