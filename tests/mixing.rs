use rad_core::composition::{convert_sample_rates, CompositionState};
use rad_core::compositor::{compute_eventual_frame, compute_frames, source_tap, Tap};
use rad_core::segment_store::{SegmentStore, StoreID};
use rad_core::source::formatted::FormattedStreamSource;
use rad_core::source::memory::MemorySrc;
use rad_core::source::queue::QueueSrc;
use rad_core::source::{FrameDecoder, Sample, Source};

#[derive(Clone, Copy, Debug, PartialEq)]
struct F(f32);

impl Sample for F {
    fn silence_spec() -> F {
        Self::silence()
    }
    fn unity_spec() -> F {
        Self::unity()
    }
    fn mul_add_spec(acc: F, x: F, gain: F) -> F {
        Self::mul_add(acc, x, gain)
    }
    fn scale_spec(x: F, gain: F) -> F {
        Self::scale(x, gain)
    }
    fn lerp_spec(a: F, b: F, num: u64, den: u64) -> F {
        Self::lerp(a, b, num, den)
    }
    fn silence() -> F {
        F(0.0)
    }
    fn unity() -> F {
        F(1.0)
    }
    fn mul_add(acc: F, x: F, gain: F) -> F {
        F(acc.0 + x.0 * gain.0)
    }
    fn scale(x: F, gain: F) -> F {
        F(x.0 * gain.0)
    }
    fn lerp(a: F, b: F, num: u64, den: u64) -> F {
        F(a.0 + (b.0 - a.0) * (num as f32 / den as f32))
    }
}

/// A decoder of a two-channel stream of constant frames, in packets of
/// `packet` frames.
struct DcDecoder {
    value: f32,
    next: u64,
    total: u64,
    packet: u64,
}

impl FrameDecoder<F> for DcDecoder {
    fn seek(&mut self, frame: u64) -> bool {
        self.next = frame - frame % self.packet;
        true
    }
    fn next_packet(&mut self) -> Option<(u64, Vec<F>)> {
        if self.next >= self.total {
            return None;
        }
        let start = self.next;
        let n = self.packet.min(self.total - start);
        self.next += n;
        Some((start, vec![F(self.value); (n * 2) as usize]))
    }
}

type Cmp = CompositionState<F, DcDecoder>;

fn dc_source(store: &mut SegmentStore<F>, value: f32) -> Source<F, DcDecoder> {
    let dec = DcDecoder { value, next: 0, total: 48000 * 60, packet: 1152 };
    Source::File(FormattedStreamSource::open_stream(dec, None, 48000, 2, 48000 * 60, store))
}

fn ramp(frames: usize, rate: u32) -> MemorySrc<F> {
    let mut v = Vec::new();
    for k in 0..frames {
        v.push(F(k as f32));
        v.push(F(k as f32));
    }
    MemorySrc::new(v, 2, rate)
}

fn buffer(cmp: &mut Cmp, store: &mut SegmentStore<F>, rate: u32, offset: u64) -> Vec<F> {
    let amp = cmp.get_amplification();
    let ch = cmp.get_channels();
    compute_frames(&mut cmp.sources, store, ch, rate, amp, offset, 1024)
}

#[test]
fn silence_without_sources() {
    let mut store = SegmentStore::new(StoreID::new(1));
    let mut cmp: Cmp = CompositionState::new_at("silent".to_string(), F(1.0), 0);
    let buf = buffer(&mut cmp, &mut store, 48000, 0);
    assert_eq!(buf.len(), 1024);
    assert!(buf.iter().all(|s| s.0 == 0.0));
}

#[test]
fn dc_source_doubled_by_composition_gain() {
    let mut store = SegmentStore::new(StoreID::new(1));
    let mut cmp: Cmp = CompositionState::new_at("dc".to_string(), F(2.0), 0);
    let src = dc_source(&mut store, 0.5);
    cmp.push_src_offset(src, 0);
    let buf = buffer(&mut cmp, &mut store, 48000, 0);
    assert_eq!(buf.len(), 1024);
    assert!(buf.iter().all(|s| s.0 == 1.0));
}

#[test]
fn delayed_entry() {
    let mut store = SegmentStore::new(StoreID::new(1));
    let mut cmp: Cmp = CompositionState::new_at("late".to_string(), F(2.0), 0);
    let src = dc_source(&mut store, 0.5);
    cmp.push_src_offset(src, 512);
    let first = buffer(&mut cmp, &mut store, 48000, 0);
    assert!(first.iter().all(|s| s.0 == 0.0));
    let second = buffer(&mut cmp, &mut store, 48000, 512);
    assert!(second.iter().all(|s| s.0 == 1.0));
}

#[test]
fn linear_resample_of_ramp() {
    let mut store = SegmentStore::new(StoreID::new(1));
    let mut cmp: Cmp = CompositionState::new_at("resample".to_string(), F(1.0), 0);
    cmp.push_src_offset(Source::Memory(ramp(4000, 24000)), 0);
    let buf = buffer(&mut cmp, &mut store, 48000, 0);
    for k in 0..512usize {
        let want = if k % 2 == 0 { (k / 2) as f32 } else { ((k - 1) / 2) as f32 + 0.5 };
        assert_eq!(buf[2 * k].0, want, "frame {k}");
        assert_eq!(buf[2 * k + 1].0, want, "frame {k}");
    }
}

#[test]
fn mixing_is_linear() {
    let mut store = SegmentStore::new(StoreID::new(1));
    let mut one: Cmp = CompositionState::new_at("one".to_string(), F(1.0), 0);
    let mut two: Cmp = CompositionState::new_at("two".to_string(), F(1.0), 0);
    let mut both: Cmp = CompositionState::new_at("both".to_string(), F(1.0), 0);
    one.push_src_offset(Source::Memory(ramp(3000, 48000)), 0);
    two.push_src_offset(Source::Memory(ramp(3000, 24000)), -10);
    both.push_src_offset(Source::Memory(ramp(3000, 48000)), 0);
    both.push_src_offset(Source::Memory(ramp(3000, 24000)), -10);
    let a = buffer(&mut one, &mut store, 48000, 100);
    let b = buffer(&mut two, &mut store, 48000, 100);
    let c = buffer(&mut both, &mut store, 48000, 100);
    for i in 0..1024 {
        assert!((a[i].0 + b[i].0 - c[i].0).abs() < 1e-3);
    }
}

#[test]
fn mono_source_fills_every_channel() {
    let mut store = SegmentStore::new(StoreID::new(1));
    let mut sources = vec![];
    let mut cmp: Cmp = CompositionState::new_at("mono".to_string(), F(1.0), 0);
    cmp.push_src_offset(Source::Memory(MemorySrc::new(vec![F(0.25), F(0.75)], 1, 48000)), 0);
    sources.append(&mut cmp.sources);
    let frame = compute_eventual_frame(&mut sources, &mut store, 2, 48000, 1);
    assert_eq!(frame, vec![F(0.75), F(0.75)]);
    let past = compute_eventual_frame(&mut sources, &mut store, 2, 48000, 2);
    assert_eq!(past, vec![F(0.0), F(0.0)]);
}

#[test]
fn taps() {
    assert_eq!(source_tap(10, 48000, 48000, 0), Tap::Direct(10));
    assert_eq!(source_tap(10, 48000, 48000, 11), Tap::Silent);
    assert_eq!(source_tap(10, 48000, 48000, -5), Tap::Direct(15));
    assert_eq!(source_tap(3, 48000, 24000, 0), Tap::Blend { a: 1, num: 24000, den: 48000 });
    assert_eq!(source_tap(4, 48000, 24000, 0), Tap::Blend { a: 2, num: 0, den: 48000 });
    assert_eq!(source_tap(1, 44100, 48000, 0), Tap::Blend { a: 1, num: 3900, den: 44100 });
    assert_eq!(source_tap(3, 48000, 24000, 2), Tap::Silent);
}

#[test]
fn rate_conversion() {
    assert_eq!(convert_sample_rates(48000, 96000, 44100), 88200);
    assert_eq!(convert_sample_rates(44100, 1, 48000), 1);
    assert_eq!(convert_sample_rates(3, 10, 1), 3);
}

#[test]
fn memory_source_round_trip() {
    let src = ramp(100, 48000);
    assert_eq!(src.duration(), Some(100));
    for k in 0..100u64 {
        assert_eq!(src.get_by_frame_i(k), Some(vec![F(k as f32), F(k as f32)]));
    }
    assert_eq!(src.get_by_frame_i(100), None);
    assert_eq!(src.get_by_frame_i(u64::MAX), None);
}

#[test]
fn file_source_reads_through_store() {
    let mut store = SegmentStore::new(StoreID::new(3));
    let dec = DcDecoder { value: 0.25, next: 0, total: 5000, packet: 1000 };
    let mut src = FormattedStreamSource::open_stream(dec, None, 48000, 2, 5000, &mut store);
    assert_eq!(src.duration(), Some(5000));
    assert_eq!(src.get_by_frame_i(&mut store, 0), Some(vec![F(0.25), F(0.25)]));
    // Decoded packet is kept: frame 999 comes from the store.
    assert_eq!(store.find(src.pile_id(), 999), Some(vec![F(0.25), F(0.25)]));
    // A jump seeks.
    assert_eq!(src.get_by_frame_i(&mut store, 3500), Some(vec![F(0.25), F(0.25)]));
    assert!(store.find(src.pile_id(), 3000).is_some());
    // Past the end there is nothing to decode.
    assert_eq!(src.get_by_frame_i(&mut store, 6000), None);
}

#[test]
fn queue_concatenates_children() {
    let mut store = SegmentStore::new(StoreID::new(1));
    let mut q: QueueSrc<F, DcDecoder> = QueueSrc::new(48000);
    q.push(Source::Memory(MemorySrc::new(vec![F(1.0), F(1.0), F(2.0), F(2.0)], 2, 48000)));
    q.push(Source::Memory(MemorySrc::new(vec![F(7.0), F(7.0)], 2, 48000)));
    assert_eq!(q.sources().len(), 2);
    assert_eq!(q.duration(), Some(3));
    let mut src = Source::Queue(q);
    assert_eq!(src.get_by_frame_i(&mut store, 1), Some(vec![F(2.0), F(2.0)]));
    assert_eq!(src.get_by_frame_i(&mut store, 2), Some(vec![F(7.0), F(7.0)]));
    assert_eq!(src.get_by_frame_i(&mut store, 3), None);
    assert_eq!(src.current_duration_frames(), 3);
}

#[test]
fn queue_resamples_children_and_counts_in_its_rate() {
    let mut store = SegmentStore::new(StoreID::new(1));
    let mut q: QueueSrc<F, DcDecoder> = QueueSrc::new(48000);
    q.push(Source::Memory(ramp(10, 24000)));
    q.push(Source::Memory(MemorySrc::new(vec![F(9.0), F(9.0)], 2, 48000)));
    assert_eq!(q.duration(), Some(21));
    assert_eq!(q.get_by_frame_i(&mut store, 3), Some(vec![F(1.5), F(1.5)]));
    assert_eq!(q.get_by_frame_i(&mut store, 20), Some(vec![F(9.0), F(9.0)]));
    let last = q.pop();
    assert!(last.is_some());
    assert_eq!(q.sources().len(), 1);
    assert!(q.sources_mut().pop().is_some());
    assert!(q.pop().is_none());
    assert_eq!(q.get_by_frame_i(&mut store, 0), None);
}

#[test]
fn conversions_into_source() {
    let mut store = SegmentStore::new(StoreID::new(1));
    let dec = DcDecoder { value: 0.5, next: 0, total: 10, packet: 4 };
    let file = FormattedStreamSource::open_stream(dec, None, 48000, 2, 10, &mut store);
    let src: Source<F, DcDecoder> = Source::from(file);
    assert!(matches!(src, Source::File(_)));
    assert_eq!(src.sample_rate(), 48000);
    let q: QueueSrc<F, DcDecoder> = QueueSrc::new(22050);
    let src: Source<F, DcDecoder> = q.into();
    assert!(matches!(src, Source::Queue(_)));
    assert_eq!(src.sample_rate(), 22050);
    assert_eq!(src.duration(), Some(0));
}

#[test]
fn queue_plays_decoded_child_then_memory_child() {
    let mut store = SegmentStore::new(StoreID::new(1));
    let dec = DcDecoder { value: 0.5, next: 0, total: 10, packet: 4 };
    let file = FormattedStreamSource::open_stream(dec, None, 48000, 2, 10, &mut store);
    let mut q: QueueSrc<F, DcDecoder> = QueueSrc::new(48000);
    q.push(Source::File(file));
    q.push(Source::Memory(MemorySrc::new(vec![F(3.0), F(3.0)], 2, 48000)));
    assert_eq!(q.current_duration_frames(), 11);
    let mut src = Source::Queue(q);
    assert_eq!(src.get_by_frame_i(&mut store, 0), Some(vec![F(0.5), F(0.5)]));
    assert_eq!(src.get_by_frame_i(&mut store, 9), Some(vec![F(0.5), F(0.5)]));
    assert_eq!(src.get_by_frame_i(&mut store, 10), Some(vec![F(3.0), F(3.0)]));
    assert_eq!(src.get_by_frame_i(&mut store, 11), None);
}

#[test]
fn packets_are_stored_or_refused() {
    let mut store = SegmentStore::new(StoreID::new(4));
    let dec = DcDecoder { value: 0.5, next: 0, total: 100, packet: 10 };
    let mut src = FormattedStreamSource::open_stream(dec, None, 48000, 2, 100, &mut store);
    assert!(!src.needs_seek(0));
    assert!(src.needs_seek(5));
    // A packet of whole frames is kept and answers the read.
    let data: Vec<F> = (0..8).map(|i| F(i as f32)).collect();
    assert_eq!(src.store_packet(&mut store, Some((20, data)), 22), Some(vec![F(4.0), F(5.0)]));
    assert!(!src.needs_seek(24));
    assert_eq!(store.find(src.pile_id(), 23), Some(vec![F(6.0), F(7.0)]));
    // No packet, an empty one, or one of half a frame: nothing is stored.
    assert_eq!(src.store_packet(&mut store, None, 0), None);
    assert!(src.needs_seek(24));
    assert_eq!(src.store_packet(&mut store, Some((0, Vec::new())), 0), None);
    assert_eq!(src.store_packet(&mut store, Some((0, vec![F(1.0)])), 0), None);
    assert_eq!(store.find(src.pile_id(), 0), None);
    assert_eq!(store.cache_size(), 32);
}
