use ethercat_parser::live_capture::{
    build_bpf_filter, nanos_since_epoch, offset_to_nanos, packet_header_to_nanos, system_time_to_nanos,
    CaptureAction, CaptureEvent, CaptureOptions, CapturedPacketHeader, EpochOffset, LiveStats,
};
use std::sync::atomic::{AtomicBool, Ordering};
use std::sync::Arc;
use std::time::SystemTime;

#[test]
fn test_bpf_filter_contains_ethercat_ethertype() {
    let filter = build_bpf_filter();
    assert!(filter.contains("0x88a4") || filter.contains("0x88A4"));
    assert!(filter.contains("ether proto"));
}

#[test]
fn test_capture_options_default() {
    let opts = CaptureOptions::default();
    assert_eq!(opts.promiscuous, true);
    assert_eq!(opts.snaplen, 65535);
    assert_eq!(opts.immediate_mode, true);
}

#[test]
fn test_live_stats_default() {
    let s = LiveStats::default();
    assert_eq!(s.received, 0);
    assert_eq!(s.dropped, 0);
    assert_eq!(s.ethercat_frames, 0);
}

#[test]
fn test_packet_header_to_nanos() {
    let header = CapturedPacketHeader {
        ts_sec: 1700000000,
        ts_usec: 123456,
        caplen: 64,
        len: 64,
    };
    let ns = packet_header_to_nanos(&header);
    assert_eq!(ns, 1700000000123456000);
}

#[test]
fn test_system_time_to_nanos() {
    let now = SystemTime::now();
    let ns = system_time_to_nanos(&now).unwrap();
    assert!(ns > 1700000000000000000);
}

#[test]
fn test_should_stop_flag() {
    let mut opts = CaptureOptions::default();
    opts.interface_name = "lo".to_string();
    let flag = Arc::new(AtomicBool::new(false));
    flag.store(true, Ordering::Relaxed);
    let f = Arc::clone(&flag);
    assert_eq!(f.load(Ordering::Relaxed), true);
}

#[test]
fn filter_text_is_exact() {
    assert_eq!(build_bpf_filter(), "ether proto 0x88a4");
}

#[test]
fn offsets_before_the_epoch_wrap() {
    let after = EpochOffset { before_epoch: false, secs: 2, subsec_nanos: 5 };
    assert_eq!(offset_to_nanos(after), 2_000_000_005);
    let before = EpochOffset { before_epoch: true, secs: 0, subsec_nanos: 1 };
    assert_eq!(offset_to_nanos(before), u64::MAX);
    let zero = EpochOffset { before_epoch: true, secs: 0, subsec_nanos: 0 };
    assert_eq!(offset_to_nanos(zero), 0);
}

fn ethercat_packet() -> Vec<u8> {
    let mut d = vec![0u8; 12];
    d.extend_from_slice(&[0x88, 0xA4, 0x0C, 0x10, 0x00, 0x01]);
    d
}

#[test]
fn capture_events_update_counters() {
    let mut s = LiveStats::default();
    let h = CapturedPacketHeader { ts_sec: 1, ts_usec: 2, caplen: 18, len: 60 };
    match s.on_capture_event(CaptureEvent::Packet(h, ethercat_packet())) {
        CaptureAction::Deliver(f) => {
            assert_eq!(f.timestamp_ns, 1_000_002_000);
            assert_eq!(f.frame_length, 18);
            assert_eq!(f.header.ec_header.num_datagrams, 1);
        }
        _ => panic!("an EtherCAT frame should be delivered"),
    }
    assert!(matches!(
        s.on_capture_event(CaptureEvent::Packet(h, vec![0u8; 10])),
        CaptureAction::Continue
    ));
    let mut ipv4 = vec![0u8; 20];
    ipv4[12] = 0x08;
    assert!(matches!(
        s.on_capture_event(CaptureEvent::Packet(h, ipv4)),
        CaptureAction::Continue
    ));
    let mut short_ec = vec![0u8; 16];
    short_ec[12] = 0x88;
    short_ec[13] = 0xA4;
    assert!(matches!(
        s.on_capture_event(CaptureEvent::Packet(h, short_ec)),
        CaptureAction::Continue
    ));
    assert!(matches!(s.on_capture_event(CaptureEvent::TimeoutExpired), CaptureAction::Continue));
    assert_eq!(s.received, 4);
    assert_eq!(s.ethercat_frames, 2);
    assert_eq!(s.parse_errors, 2);
    assert!(matches!(s.on_capture_event(CaptureEvent::Failed), CaptureAction::Fail));
    assert_eq!(s.parse_errors, 3);
    assert!(matches!(s.on_capture_event(CaptureEvent::NoMorePackets), CaptureAction::End));
    s.apply_device_stats(100, 3, 1);
    assert_eq!(s.received, 100);
    assert_eq!(s.dropped, 3);
    assert_eq!(s.if_dropped, 1);
    assert_eq!(s.ethercat_frames, 2);
}

#[test]
fn offsets_that_do_not_fit_give_nothing() {
    let max = EpochOffset { before_epoch: false, secs: 18_446_744_073, subsec_nanos: 709_551_615 };
    assert_eq!(nanos_since_epoch(max), Some(u64::MAX));
    let over = EpochOffset { before_epoch: false, secs: 18_446_744_073, subsec_nanos: 709_551_616 };
    assert_eq!(nanos_since_epoch(over), None);
    let before = EpochOffset { before_epoch: true, secs: 1, subsec_nanos: 0 };
    assert_eq!(nanos_since_epoch(before), Some(u64::MAX - 999_999_999));
}

#[test]
fn system_times_on_both_sides_of_the_epoch() {
    let after = std::time::UNIX_EPOCH + std::time::Duration::new(5, 7);
    assert_eq!(system_time_to_nanos(&after), Some(5_000_000_007));
    let before = std::time::UNIX_EPOCH - std::time::Duration::new(1, 0);
    assert_eq!(system_time_to_nanos(&before), Some(u64::MAX - 1_000_000_000 + 1));
    assert_eq!(system_time_to_nanos(&std::time::UNIX_EPOCH), Some(0));
}
