use rad_core::segment_store::{SegmentStore, StoreID, DEFAULT_CACHE_LIMIT_BYTES};

fn seg(value: f32, frames: usize) -> Vec<f32> {
    vec![value; frames * 2]
}

/// Bytes of one two-channel segment of `frames` frames of f32.
fn seg_bytes(frames: usize) -> u64 {
    (frames * 2 * 4) as u64
}

#[test]
fn new_store_is_empty_with_default_limit() {
    let store: SegmentStore<f32> = SegmentStore::new(StoreID::new(1));
    assert_eq!(store.cache_size(), 0);
    assert_eq!(store.cache_limit_bytes(), DEFAULT_CACHE_LIMIT_BYTES);
    assert_eq!(store.cache_limit_bytes(), 32 * 1024 * 1024);
    assert_eq!(store.store_id(), StoreID::new(1));
    assert_eq!(store.sample_size(), 4);
}

#[test]
fn piles_are_dense_and_tagged_with_store() {
    let mut store: SegmentStore<f32> = SegmentStore::new(StoreID::new(7));
    let a = store.new_pile_id();
    let b = store.new_pile_id();
    assert_eq!(a.0, 0);
    assert_eq!(b.0, 1);
    assert_eq!(a.1, StoreID::new(7));
}

#[test]
fn lookup_returns_covered_frame() {
    let mut store: SegmentStore<f32> = SegmentStore::new(StoreID::new(1));
    let p = store.new_pile_id();
    let data: Vec<f32> = (0..20).map(|i| i as f32).collect();
    store.insert(p, 100, 2, data, false);
    assert_eq!(store.find(p, 100), Some(vec![0.0, 1.0]));
    assert_eq!(store.find(p, 103), Some(vec![6.0, 7.0]));
    assert_eq!(store.find(p, 109), Some(vec![18.0, 19.0]));
    assert_eq!(store.find(p, 110), None);
    assert_eq!(store.find(p, 99), None);
    assert_eq!(store.cache_size(), 80);
}

#[test]
fn overlapping_insert_is_ignored() {
    let mut store: SegmentStore<f32> = SegmentStore::new(StoreID::new(1));
    let p = store.new_pile_id();
    store.insert(p, 10, 2, seg(1.0, 10), false);
    // Starts inside the first segment.
    store.insert(p, 15, 2, seg(2.0, 10), false);
    // Starts before and reaches into it.
    store.insert(p, 5, 2, seg(3.0, 6), false);
    assert_eq!(store.find(p, 15), Some(vec![1.0, 1.0]));
    assert_eq!(store.find(p, 10), Some(vec![1.0, 1.0]));
    assert_eq!(store.find(p, 5), None);
    assert_eq!(store.find(p, 20), None);
    assert_eq!(store.cache_size(), seg_bytes(10));
    // Adjacent segments share no frame.
    store.insert(p, 20, 2, seg(4.0, 5), false);
    store.insert(p, 5, 2, seg(5.0, 5), false);
    assert_eq!(store.find(p, 20), Some(vec![4.0, 4.0]));
    assert_eq!(store.find(p, 9), Some(vec![5.0, 5.0]));
    assert_eq!(store.cache_size(), seg_bytes(20));
}

#[test]
fn empty_insert_is_ignored() {
    let mut store: SegmentStore<f32> = SegmentStore::new(StoreID::new(1));
    let p = store.new_pile_id();
    store.insert(p, 0, 2, Vec::new(), false);
    assert_eq!(store.cache_size(), 0);
    assert_eq!(store.find(p, 0), None);
}

#[test]
fn piles_are_independent() {
    let mut store: SegmentStore<f32> = SegmentStore::new(StoreID::new(1));
    let p = store.new_pile_id();
    let q = store.new_pile_id();
    store.insert(p, 0, 2, seg(1.0, 4), false);
    store.insert(q, 0, 2, seg(2.0, 4), false);
    assert_eq!(store.find(p, 1), Some(vec![1.0, 1.0]));
    assert_eq!(store.find(q, 1), Some(vec![2.0, 2.0]));
}

#[test]
fn lru_eviction_scenario() {
    // cache_limit = 3 segments; insert A, B, C, D; look up A; insert E.
    let frames = 16;
    let mut store: SegmentStore<f32> = SegmentStore::with_limit(StoreID::new(1), 3 * seg_bytes(frames));
    let p = store.new_pile_id();
    let start = |k: u64| k * 100;
    store.insert(p, start(0), 2, seg(1.0, frames), false); // A
    store.insert(p, start(1), 2, seg(2.0, frames), false); // B
    store.insert(p, start(2), 2, seg(3.0, frames), false); // C
    store.insert(p, start(3), 2, seg(4.0, frames), false); // D: the bound holds three, A goes
    let _ = store.find(p, start(0));
    store.insert(p, start(4), 2, seg(5.0, frames), false); // E
    assert_eq!(store.find(p, start(1)), None, "B is evicted");
    assert!(store.find(p, start(2)).is_some());
    assert!(store.find(p, start(3)).is_some());
    assert!(store.find(p, start(4)).is_some());
    assert!(store.cache_size() <= store.cache_limit_bytes());
}

#[test]
fn lru_touch_protects_segment() {
    let frames = 16;
    let mut store: SegmentStore<f32> = SegmentStore::with_limit(StoreID::new(1), 3 * seg_bytes(frames));
    let p = store.new_pile_id();
    store.insert(p, 0, 2, seg(1.0, frames), false); // A
    store.insert(p, 100, 2, seg(2.0, frames), false); // B
    store.insert(p, 200, 2, seg(3.0, frames), false); // C
    assert!(store.find(p, 0).is_some()); // touch A
    store.insert(p, 300, 2, seg(4.0, frames), false); // D evicts B, not A
    assert_eq!(store.find(p, 100), None);
    assert_eq!(store.find(p, 0), Some(vec![1.0, 1.0]));
    assert!(store.find(p, 200).is_some());
    assert!(store.find(p, 300).is_some());
}

#[test]
fn permanent_segments_are_never_evicted_nor_counted() {
    let frames = 8;
    let mut store: SegmentStore<f32> = SegmentStore::with_limit(StoreID::new(1), seg_bytes(frames));
    let p = store.new_pile_id();
    store.insert(p, 0, 2, seg(9.0, frames), true);
    assert_eq!(store.cache_size(), 0);
    store.insert(p, 100, 2, seg(1.0, frames), false);
    store.insert(p, 200, 2, seg(2.0, frames), false);
    assert_eq!(store.find(p, 0), Some(vec![9.0, 9.0]));
    assert_eq!(store.find(p, 100), None);
    assert!(store.find(p, 200).is_some());
    assert_eq!(store.cache_size(), seg_bytes(frames));
}

#[test]
fn cache_bound_holds_over_many_operations() {
    let limit = 5 * seg_bytes(10) + 3;
    let mut store: SegmentStore<f32> = SegmentStore::with_limit(StoreID::new(2), limit);
    let p = store.new_pile_id();
    let q = store.new_pile_id();
    for k in 0..200u64 {
        let pile = if k % 3 == 0 { q } else { p };
        store.insert(pile, k * 10, 2, seg(k as f32, 10), false);
        let _ = store.find(p, (k / 2) * 10);
        assert!(store.cache_size() <= store.cache_limit_bytes());
    }
    assert_eq!(store.cache_size(), 5 * seg_bytes(10));
}

#[test]
fn drop_pile_releases_its_bytes() {
    let mut store: SegmentStore<f32> = SegmentStore::new(StoreID::new(1));
    let p = store.new_pile_id();
    let q = store.new_pile_id();
    store.insert(p, 0, 2, seg(1.0, 4), false);
    store.insert(p, 10, 2, seg(1.0, 4), true);
    store.insert(q, 0, 2, seg(2.0, 4), false);
    store.drop_pile(p);
    assert_eq!(store.find(p, 0), None);
    assert_eq!(store.find(p, 10), None);
    assert_eq!(store.find(q, 0), Some(vec![2.0, 2.0]));
    assert_eq!(store.cache_size(), seg_bytes(4));
}

#[test]
fn permanent_insert_keeps_cache_size() {
    let mut store: SegmentStore<f32> = SegmentStore::with_limit(StoreID::new(1), seg_bytes(8));
    let p = store.new_pile_id();
    store.insert(p, 0, 2, seg(1.0, 8), false);
    store.insert(p, 100, 2, seg(2.0, 8), true);
    assert_eq!(store.cache_size(), seg_bytes(8));
    assert!(store.find(p, 0).is_some());
    assert!(store.find(p, 100).is_some());
}

#[test]
fn eviction_stops_once_the_segment_fits() {
    let frames = 4;
    let mut store: SegmentStore<f32> = SegmentStore::with_limit(StoreID::new(1), 4 * seg_bytes(frames));
    let p = store.new_pile_id();
    for k in 0..4u64 {
        store.insert(p, k * 10, 2, seg(k as f32, frames), false);
    }
    // Two segments' worth needs exactly the two least recent to go.
    store.insert(p, 100, 2, seg(9.0, 2 * frames), false);
    assert_eq!(store.find(p, 0), None);
    assert_eq!(store.find(p, 10), None);
    assert!(store.find(p, 20).is_some());
    assert!(store.find(p, 30).is_some());
    assert_eq!(store.cache_size(), 4 * seg_bytes(frames));
}
