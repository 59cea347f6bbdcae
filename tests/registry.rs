use rad_core::adapter::AdapterHandle;
use rad_core::http::{chunk_frame, chunk_header, request_target};
use rad_core::cmp_reg::{BufPlan, CompositionRegistry, CompositorData, CompositorState};
use rad_core::wav::gen_wav_header;
use std::sync::atomic::AtomicBool;
use std::sync::{Arc, Mutex};

#[test]
fn registry_finds_compositions_by_id() {
    let mut reg: CompositionRegistry<u32, &'static str> = CompositionRegistry::new();
    assert_eq!(reg.find_composition("a"), None);
    reg.push_composition("a".to_string(), 1);
    reg.push_composition("b".to_string(), 2);
    assert_eq!(reg.find_composition("a"), Some(&1));
    assert_eq!(reg.find_composition("b"), Some(&2));
    assert_eq!(reg.find_composition("c"), None);
}

#[test]
fn registry_serves_one_active_producer_per_pair() {
    let mut reg: CompositionRegistry<u32, &'static str> = CompositionRegistry::new();
    reg.push_composition("a".to_string(), 1);
    assert_eq!(reg.active_buf("a", 48000), None);
    reg.push_compositor(CompositorData::new("a".to_string(), 48000, CompositorState::Active("head0")));
    assert_eq!(reg.active_buf("a", 48000), Some(&"head0"));
    assert_eq!(reg.active_buf("a", 44100), None);
    assert!(reg.set_head("a", 48000, "head1"));
    assert_eq!(reg.active_buf("a", 48000), Some(&"head1"));
    assert!(!reg.set_head("a", 44100, "x"));
    reg.mark_killed("a", 48000);
    assert_eq!(reg.active_buf("a", 48000), None);
    reg.push_compositor(CompositorData::new("a".to_string(), 48000, CompositorState::Active("fresh")));
    assert_eq!(reg.active_buf("a", 48000), Some(&"fresh"));
    reg.prune();
    assert_eq!(reg.active_buf("a", 48000), Some(&"fresh"));
    reg.mark_killed("a", 48000);
    reg.prune();
    assert_eq!(reg.active_buf("a", 48000), None);
}

#[test]
fn adapter_handle_reports_and_closes() {
    let status = Arc::new(Mutex::new("Established".to_owned()));
    let flag = Arc::new(AtomicBool::new(false));
    let mut handle = AdapterHandle::new("udp-1".to_string(), "net-udp".to_string(), status.clone(), flag.clone());
    assert_eq!(handle.id(), "udp-1");
    assert_eq!(handle.kind(), "net-udp");
    assert_eq!(handle.status(), "Established");
    *status.lock().unwrap() = "Sending".to_owned();
    assert_eq!(handle.status(), "Sending");
    let other = handle.clone();
    assert!(!other.is_closed());
    handle.close();
    assert!(handle.is_closed());
    assert!(other.is_closed());
    assert!(flag.load(std::sync::atomic::Ordering::Relaxed));
}

#[test]
fn wav_header_bytes() {
    let h = gen_wav_header(48000, 2);
    assert_eq!(h.len(), 44);
    assert_eq!(&h[0..4], b"RIFF");
    assert_eq!(&h[4..8], &[0xff, 0xff, 0xff, 0xff]);
    assert_eq!(&h[8..12], b"WAVE");
    assert_eq!(&h[12..16], b"fmt ");
    assert_eq!(&h[16..20], &16u32.to_le_bytes());
    assert_eq!(&h[20..22], &1u16.to_le_bytes());
    assert_eq!(&h[22..24], &2u16.to_le_bytes());
    assert_eq!(&h[24..28], &48000u32.to_le_bytes());
    assert_eq!(&h[28..32], &192000u32.to_le_bytes());
    assert_eq!(&h[32..34], &4u16.to_le_bytes());
    assert_eq!(&h[34..36], &16u16.to_le_bytes());
    assert_eq!(&h[36..40], b"data");
    assert_eq!(&h[40..44], &(u32::MAX - 44).to_le_bytes());
}

#[test]
fn request_target_is_second_field_of_first_line() {
    let req = b"GET /audio.wav HTTP/1.1\r\nHost: x\r\n\r\n".to_vec();
    let (a, b) = request_target(&req).unwrap();
    assert_eq!(&req[a..b], b"/audio.wav");
    let bare = b"GET /x\r\n".to_vec();
    let (a, b) = request_target(&bare).unwrap();
    assert_eq!(&bare[a..b], b"/x");
    assert_eq!(request_target(&b"GARBAGE\r\nHost: a b\r\n".to_vec()), None);
    assert_eq!(request_target(&Vec::new()), None);
}

#[test]
fn chunk_framing() {
    assert_eq!(chunk_header(2048), b"800\r\n".to_vec());
    assert_eq!(chunk_header(44), b"2c\r\n".to_vec());
    assert_eq!(chunk_header(0), b"0\r\n".to_vec());
    assert_eq!(chunk_frame(&b"abc".to_vec()), b"3\r\nabc\r\n".to_vec());
}

#[test]
fn request_plan() {
    let mut reg: CompositionRegistry<u32, &'static str> = CompositionRegistry::new();
    assert!(matches!(reg.plan_active_buf("a", 48000), BufPlan::Unknown));
    reg.push_composition("a".to_string(), 5);
    assert!(matches!(reg.plan_active_buf("a", 48000), BufPlan::Start(&5)));
    reg.push_compositor(CompositorData::new("a".to_string(), 48000, CompositorState::Active("h")));
    assert!(matches!(reg.plan_active_buf("a", 48000), BufPlan::Serve(&"h")));
    assert!(matches!(reg.plan_active_buf("a", 44100), BufPlan::Start(&5)));
}
