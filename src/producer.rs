//! The decisions of the producer that keeps a composition's buffer stream a
//! bounded time ahead of the wall clock. The thread that sleeps, locks and
//! appends buffers asks `ProducerClock::step` what to do next.
use vstd::prelude::*;
use crate::composition::{clamp_i64, clamp_u64, CompositionState};
use crate::source::{FrameDecoder, Sample};

verus! {

/// How far ahead of the wall clock the producer may run, in milliseconds.
pub const COMPUTE_AHEAD_MS: u64 = 300;

/// How long the producer sleeps when it has nothing to do, in milliseconds.
pub const POLL_INTERVAL_MS: u64 = 50;

/// Fewer live references to the newest buffer than this mean that no
/// consumer is attached.
pub const ACTIVE_THRESHOLD: usize = 3;

/// What the producer does next.
#[derive(Debug, PartialEq, Eq, Structural)]
pub enum ProducerAction {
    /// Nobody listens: mark the producer killed and stop.
    Kill,
    /// Wait for the poll interval, then ask again.
    Sleep,
    /// Mix the buffer whose first frame is this one and append it.
    Render(u64),
}

/// The producer's own clock: when it last aligned to the composition, the
/// next frame to mix, the change epoch it aligned to and the frames it has
/// mixed since.
pub struct ProducerClock {
    pub start_ms: u64,
    pub frame_index: u64,
    pub change_epoch: u64,
    pub emitted_frames: u64,
}

pub open spec fn sat_add(a: int, b: int) -> u64 {
    clamp_u64(a + b)
}

/// `emitted_frames` at `sample_rate` run more than the lookahead ahead of
/// `elapsed_ms` of wall clock.
pub open spec fn runs_ahead(emitted_frames: u64, sample_rate: u32, elapsed_ms: int) -> bool {
    1000 * emitted_frames > sample_rate * (elapsed_ms + COMPUTE_AHEAD_MS)
}

impl ProducerClock {
    /// Milliseconds since the clock's anchor at `now`, zero before it.
    pub open spec fn elapsed_at(&self, now: u64) -> int {
        if now >= self.start_ms {
            now - self.start_ms
        } else {
            0
        }
    }

    /// The clock after the first buffer, of `frames_per_node` frames from
    /// frame zero, was mixed at `now`.
    pub fn after_first_buffer(now: u64, frames_per_node: u64) -> (r: Self)
        ensures
            r.start_ms == now,
            r.frame_index == frames_per_node,
            r.change_epoch == 0,
            r.emitted_frames == frames_per_node,
    {
        ProducerClock { start_ms: now, frame_index: frames_per_node, change_epoch: 0, emitted_frames: frames_per_node }
    }

    /// The action and the next clock, given the live references to the
    /// newest buffer, the time `now`, and the composition's pause state,
    /// change epoch and logical time.
    pub open spec fn step_spec(
        self,
        live_refs: usize,
        now: u64,
        paused: bool,
        epoch: u64,
        logical_ms: u64,
        sample_rate: u32,
        frames_per_node: u64,
    ) -> (Self, ProducerAction) {
        if live_refs < ACTIVE_THRESHOLD {
            (self, ProducerAction::Kill)
        } else if runs_ahead(self.emitted_frames, sample_rate, self.elapsed_at(now)) {
            (self, ProducerAction::Sleep)
        } else if paused {
            (self, ProducerAction::Sleep)
        } else {
            let resync = epoch != self.change_epoch;
            let first = if resync {
                clamp_u64(logical_ms * sample_rate / 1000)
            } else {
                self.frame_index
            };
            let emitted = if resync {
                0
            } else {
                self.emitted_frames
            };
            (
                ProducerClock {
                    start_ms: if resync {
                        now
                    } else {
                        self.start_ms
                    },
                    frame_index: sat_add(first as int, frames_per_node as int),
                    change_epoch: epoch,
                    emitted_frames: sat_add(emitted as int, frames_per_node as int),
                },
                ProducerAction::Render(first),
            )
        }
    }

    /// Decides the producer's next move: stop when nobody listens, wait
    /// while it runs ahead or the composition is paused, realign to the
    /// composition's logical time when its change epoch moved, and otherwise
    /// mix the next buffer.
    pub fn step(
        &mut self,
        live_refs: usize,
        now: u64,
        paused: bool,
        epoch: u64,
        logical_ms: u64,
        sample_rate: u32,
        frames_per_node: u64,
    ) -> (r: ProducerAction)
        ensures
            (*final(self), r) == old(self).step_spec(
                live_refs,
                now,
                paused,
                epoch,
                logical_ms,
                sample_rate,
                frames_per_node,
            ),
    {
        if live_refs < ACTIVE_THRESHOLD {
            return ProducerAction::Kill;
        }
        let elapsed: u64 = if now >= self.start_ms {
            now - self.start_ms
        } else {
            0
        };
        proof {
            assert(sample_rate * (elapsed + COMPUTE_AHEAD_MS) <= u32::MAX * (u64::MAX
                + COMPUTE_AHEAD_MS)) by (nonlinear_arith)
                requires
                    sample_rate <= u32::MAX,
                    elapsed <= u64::MAX,
            ;
        }
        if 1000 * (self.emitted_frames as u128) > sample_rate as u128 * (elapsed as u128
            + COMPUTE_AHEAD_MS as u128) {
            return ProducerAction::Sleep;
        }
        if paused {
            return ProducerAction::Sleep;
        }
        if epoch != self.change_epoch {
            proof {
                assert(logical_ms * sample_rate <= u64::MAX * u32::MAX) by (nonlinear_arith)
                    requires
                        logical_ms <= u64::MAX,
                        sample_rate <= u32::MAX,
                ;
                assert(logical_ms * sample_rate / 1000 >= 0) by (nonlinear_arith)
                    requires
                        logical_ms >= 0,
                        sample_rate >= 0,
                ;
            }
            let t = (logical_ms as u128 * sample_rate as u128) / 1000;
            self.frame_index = if t > u64::MAX as u128 {
                u64::MAX
            } else {
                t as u64
            };
            self.start_ms = now;
            self.emitted_frames = 0;
            self.change_epoch = epoch;
        }
        let first = self.frame_index;
        self.frame_index = if first > u64::MAX - frames_per_node {
            u64::MAX
        } else {
            first + frames_per_node
        };
        self.emitted_frames = if self.emitted_frames > u64::MAX - frames_per_node {
            u64::MAX
        } else {
            self.emitted_frames + frames_per_node
        };
        ProducerAction::Render(first)
    }
}

/// The frames in one buffer of `buf_size` interleaved samples.
pub fn frames_per_node(buf_size: usize, channels: u8) -> (r: u64)
    requires
        channels > 0,
    ensures
        r == buf_size as nat / (channels as nat),
{
    (buf_size / channels as usize) as u64
}

/// The buffers that span the lookahead at `sample_rate`, rounded up.
pub fn lookahead_nodes(sample_rate: u32, channels: u8, buf_size: usize) -> (r: u64)
    requires
        channels > 0,
        buf_size as nat / (channels as nat) > 0,
    ensures
        r as int == ({
            let fpn = (buf_size as int) / (channels as int);
            (COMPUTE_AHEAD_MS * sample_rate + 1000 * fpn - 1) / (1000 * fpn)
        }),
{
    let fpn = frames_per_node(buf_size, channels);
    proof {
        assert(1000 * fpn <= 1000 * u64::MAX) by (nonlinear_arith)
            requires
                fpn <= u64::MAX,
        ;
        assert((COMPUTE_AHEAD_MS * sample_rate + 1000 * fpn - 1) / (1000 * fpn) <= COMPUTE_AHEAD_MS * sample_rate + 1000 * fpn) by (nonlinear_arith)
            requires
                fpn >= 1,
                sample_rate >= 0,
        ;
        assert((COMPUTE_AHEAD_MS * sample_rate + 1000 * fpn - 1) / (1000 * fpn) <= u64::MAX) by (nonlinear_arith)
            requires
                fpn >= 1,
                fpn <= u64::MAX,
                sample_rate <= u32::MAX,
        ;
    }
    let den: u128 = 1000 * fpn as u128;
    ((COMPUTE_AHEAD_MS as u128 * sample_rate as u128 + den - 1) / den) as u64
}

/// Within one change epoch the producer's buffers follow each other without
/// gap or overlap: the next buffer it mixes starts right after the last.
pub proof fn lemma_renders_are_contiguous(
    clock: ProducerClock,
    live_refs: usize,
    now: u64,
    epoch: u64,
    logical_ms: u64,
    sample_rate: u32,
    frames_per_node: u64,
    live_refs2: usize,
    now2: u64,
    logical_ms2: u64,
)
    requires
        clock.change_epoch == epoch,
        clock.frame_index + frames_per_node <= u64::MAX,
    ensures
        ({
            let (c1, a1) = clock.step_spec(
                live_refs,
                now,
                false,
                epoch,
                logical_ms,
                sample_rate,
                frames_per_node,
            );
            let (c2, a2) = c1.step_spec(
                live_refs2,
                now2,
                false,
                epoch,
                logical_ms2,
                sample_rate,
                frames_per_node,
            );
            a1 matches ProducerAction::Render(f1) ==> (a2 matches ProducerAction::Render(f2) ==> f2
                == f1 + frames_per_node)
        }),
{
}

/// After a seek to `t_ms` at `seek_at`, the first buffer the producer mixes
/// at `now`, no later than the lookahead after the seek while the
/// composition plays, starts within the lookahead of frame
/// `t_ms * sample_rate / 1000`.
pub proof fn lemma_seek_realigns<S: Sample, D: FrameDecoder<S>>(
    before: CompositionState<S, D>,
    after: CompositionState<S, D>,
    t_ms: u64,
    seek_at: u64,
    clock: ProducerClock,
    live_refs: usize,
    now: u64,
    sample_rate: u32,
    frames_per_node: u64,
)
    requires
        after.offset_ms() == clamp_i64(t_ms - before.elapsed_at(seek_at)),
        after.epoch() != clock.change_epoch,
        after.paused_at() is None,
        before.paused_at() is None,
        after.start_ms() == before.start_ms(),
        before.start_ms() <= seek_at <= now <= seek_at + COMPUTE_AHEAD_MS,
        t_ms + COMPUTE_AHEAD_MS <= i64::MAX,
        (t_ms + COMPUTE_AHEAD_MS) * sample_rate / 1000 <= u64::MAX,
        now - before.start_ms() <= i64::MAX,
    ensures
        clock.step_spec(
            live_refs,
            now,
            false,
            after.epoch(),
            after.time_at(now),
            sample_rate,
            frames_per_node,
        ).1 matches ProducerAction::Render(f) ==> t_ms * sample_rate / 1000 <= f <= (t_ms
            + COMPUTE_AHEAD_MS) * sample_rate / 1000,
{
    let l = after.logical_ms(now);
    assert(l == t_ms + (now - seek_at));
    assert(t_ms * sample_rate / 1000 <= l * sample_rate / 1000) by (nonlinear_arith)
        requires
            t_ms <= l,
            sample_rate >= 0,
    ;
    assert(l * sample_rate / 1000 <= (t_ms + COMPUTE_AHEAD_MS) * sample_rate / 1000) by (nonlinear_arith)
        requires
            l <= t_ms + COMPUTE_AHEAD_MS,
            sample_rate >= 0,
            l >= 0,
    ;
}

} // verus!
