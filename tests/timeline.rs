use rad_core::composition::CompositionState;
use rad_core::compositor::compute_frames;
use rad_core::producer::{
    frames_per_node, lookahead_nodes, ProducerAction, ProducerClock, ACTIVE_THRESHOLD, COMPUTE_AHEAD_MS,
};
use rad_core::segment_store::{SegmentStore, StoreID};
use rad_core::source::memory::MemorySrc;
use rad_core::source::{FrameDecoder, Sample, Source};

#[derive(Clone, Copy, Debug, PartialEq)]
struct F(f32);

impl Sample for F {
    fn silence_spec() -> F {
        Self::silence()
    }
    fn unity_spec() -> F {
        Self::unity()
    }
    fn mul_add_spec(acc: F, x: F, gain: F) -> F {
        Self::mul_add(acc, x, gain)
    }
    fn scale_spec(x: F, gain: F) -> F {
        Self::scale(x, gain)
    }
    fn lerp_spec(a: F, b: F, num: u64, den: u64) -> F {
        Self::lerp(a, b, num, den)
    }
    fn silence() -> F {
        F(0.0)
    }
    fn unity() -> F {
        F(1.0)
    }
    fn mul_add(acc: F, x: F, gain: F) -> F {
        F(acc.0 + x.0 * gain.0)
    }
    fn scale(x: F, gain: F) -> F {
        F(x.0 * gain.0)
    }
    fn lerp(a: F, b: F, num: u64, den: u64) -> F {
        F(a.0 + (b.0 - a.0) * (num as f32 / den as f32))
    }
}

struct NoDecoder;

impl FrameDecoder<F> for NoDecoder {
    fn seek(&mut self, _frame: u64) -> bool {
        false
    }
    fn next_packet(&mut self) -> Option<(u64, Vec<F>)> {
        None
    }
}

type Cmp = CompositionState<F, NoDecoder>;

#[test]
fn clock_runs_from_anchor() {
    let cmp: Cmp = CompositionState::new_at("c".to_string(), F(1.0), 1000);
    assert_eq!(cmp.time_millis_at(1000), 0);
    assert_eq!(cmp.time_millis_at(3500), 2500);
    assert_eq!(cmp.time_millis_at(10), 0);
    assert_eq!(cmp.start_time(), 1000);
    assert_eq!(cmp.get_channels(), 2);
    assert_eq!(cmp.get_id(), "c");
    assert!(!cmp.is_paused_at(2000));
}

#[test]
fn seek_moves_clock_and_bumps_epoch() {
    let mut cmp: Cmp = CompositionState::new_at("c".to_string(), F(1.0), 0);
    let e0 = cmp.config_change_idx;
    cmp.set_time_millis_at(10_000, 2_000);
    assert_eq!(cmp.time_millis_at(2_000), 10_000);
    assert_eq!(cmp.time_millis_at(2_500), 10_500);
    assert_eq!(cmp.config_change_idx, e0 + 1);
}

#[test]
fn seek_before_zero_waits_for_wall_clock() {
    let mut late: Cmp = CompositionState::new_at("d".to_string(), F(1.0), 0);
    late.set_paused_at(true, 0);
    late.set_paused_at(false, 1_000);
    assert_eq!(late.time_millis_at(1_000), 0);
    assert!(late.is_pushed_pass_zero_at(500));
    assert!(late.is_paused_at(500));
    assert_eq!(late.time_millis_at(500), 0);
    assert!(!late.is_pushed_pass_zero_at(1_000));
    assert!(!late.is_paused_at(1_000));
}

#[test]
fn pause_freezes_and_resume_continues() {
    let mut cmp: Cmp = CompositionState::new_at("c".to_string(), F(1.0), 0);
    cmp.set_paused_at(true, 1_000);
    assert!(cmp.is_paused_at(1_000));
    assert_eq!(cmp.time_millis_at(5_000), 1_000);
    // Pausing again changes nothing.
    cmp.set_paused_at(true, 2_000);
    assert_eq!(cmp.time_millis_at(5_000), 1_000);
    cmp.set_paused_at(false, 4_000);
    assert!(!cmp.is_paused_at(4_000));
    assert_eq!(cmp.time_millis_at(4_000), 1_000);
    assert_eq!(cmp.time_millis_at(4_250), 1_250);
    // Resuming again changes nothing.
    cmp.set_paused_at(false, 9_000);
    assert_eq!(cmp.time_millis_at(9_000), 6_000);
}

#[test]
fn paused_since_freezes_at_given_time() {
    let mut cmp: Cmp = CompositionState::new_at("c".to_string(), F(1.0), 100);
    cmp.set_paused_since(600);
    assert_eq!(cmp.time_millis_at(10_000), 500);
}

#[test]
fn amplification_round_trips() {
    let mut cmp: Cmp = CompositionState::new_at("c".to_string(), F(1.0), 0);
    cmp.set_amplification(F(0.5));
    assert_eq!(cmp.get_amplification(), F(0.5));
}

#[test]
fn push_at_logical_time() {
    let mut cmp: Cmp = CompositionState::new_at("c".to_string(), F(1.0), 0);
    cmp.push_src_default_at(Source::Memory(MemorySrc::new(vec![F(1.0)], 1, 44100)), 2_000);
    assert_eq!(cmp.sources[0].composition_data.frame_offset, 88200);
    assert_eq!(cmp.sources[0].composition_data.amplification, F(1.0));
}

#[test]
fn producer_kills_without_listeners() {
    let mut clock = ProducerClock::after_first_buffer(0, 512);
    let act = clock.step(ACTIVE_THRESHOLD - 1, 10, false, 0, 0, 48000, 512);
    assert_eq!(act, ProducerAction::Kill);
}

#[test]
fn producer_throttles_and_pauses() {
    let mut clock = ProducerClock::after_first_buffer(0, 512);
    // 0.3 s at 48 kHz is 14400 frames.
    let mut renders = 0;
    loop {
        match clock.step(ACTIVE_THRESHOLD, 0, false, 0, 0, 48000, 512) {
            ProducerAction::Render(f) => {
                assert_eq!(f, 512 * (renders + 1));
                renders += 1;
            }
            ProducerAction::Sleep => break,
            ProducerAction::Kill => panic!("listeners are attached"),
        }
    }
    assert!(clock.emitted_frames * 1000 > 48000 * COMPUTE_AHEAD_MS);
    assert!((clock.emitted_frames - 512) * 1000 <= 48000 * COMPUTE_AHEAD_MS);
    let mut idle = ProducerClock::after_first_buffer(0, 512);
    assert_eq!(idle.step(ACTIVE_THRESHOLD, 0, true, 0, 0, 48000, 512), ProducerAction::Sleep);
}

#[test]
fn seek_scenario() {
    let mut store = SegmentStore::new(StoreID::new(1));
    let mut cmp: Cmp = CompositionState::new_at("s".to_string(), F(1.0), 0);
    let mut frames = Vec::new();
    for k in 0..600_000u32 {
        frames.push(F(k as f32));
    }
    cmp.push_src_offset(Source::Memory(MemorySrc::new(frames, 1, 48000)), 0);
    let mut clock = ProducerClock::after_first_buffer(0, 512);
    let now = 1_234;
    cmp.set_time_millis_at(10_000, now);
    let act = clock.step(
        ACTIVE_THRESHOLD,
        now + 20,
        cmp.is_paused_at(now + 20),
        cmp.config_change_idx,
        cmp.time_millis_at(now + 20),
        48000,
        512,
    );
    let first = match act {
        ProducerAction::Render(f) => f,
        other => panic!("expected a render, got {other:?}"),
    };
    assert!((479_000..=481_000).contains(&first));
    let amp = cmp.get_amplification();
    let buf = compute_frames(&mut cmp.sources, &mut store, 2, 48000, amp, first, 1024);
    assert_eq!(buf[0].0, first as f32);
}

#[test]
fn epoch_change_realigns_within_lookahead() {
    for t in [0u64, 5_000, 123_456] {
        for delay in [0u64, 100, 300] {
            let mut cmp: Cmp = CompositionState::new_at("s".to_string(), F(1.0), 0);
            let mut clock = ProducerClock::after_first_buffer(0, 512);
            let seek_at = 50_000;
            cmp.set_time_millis_at(t, seek_at);
            let now = seek_at + delay;
            let act = clock.step(
                ACTIVE_THRESHOLD,
                now,
                cmp.is_paused_at(now),
                cmp.config_change_idx,
                cmp.time_millis_at(now),
                44100,
                512,
            );
            let f = match act {
                ProducerAction::Render(f) => f,
                other => panic!("expected a render, got {other:?}"),
            };
            assert!(t * 44100 / 1000 <= f && f <= (t + COMPUTE_AHEAD_MS) * 44100 / 1000);
            assert_eq!(clock.change_epoch, cmp.config_change_idx);
            assert_eq!(clock.start_ms, now);
        }
    }
}

#[test]
fn buffer_geometry() {
    assert_eq!(frames_per_node(1024, 2), 512);
    assert_eq!(lookahead_nodes(48000, 2, 1024), 29);
    assert_eq!(lookahead_nodes(44100, 2, 1024), 26);
    assert_eq!(lookahead_nodes(1000, 1, 300), 1);
}
