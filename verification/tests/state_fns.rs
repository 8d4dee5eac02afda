use vrift::state::{get_step, GetStep};
use vrift::state::{
    activate_vfs, alert_level_name, event_name, expand_cas_root, fd_usage_action, inception_state_name, is_vfs_ready,
    manifest_root_len, next_backoff, parse_log_level, BackoffAction, EventType, FdUsageAction, FixedString,
    FlightRecorder, InceptionState, LogLevel, Logger, LOG_BUF_SIZE,
};

#[test]
fn test_state_codes_and_names() {
    assert_eq!(InceptionState::from_u8(0), InceptionState::Ready);
    assert_eq!(InceptionState::from_u8(3), InceptionState::Busy);
    assert_eq!(InceptionState::from_u8(9), InceptionState::EarlyInit);
    assert_eq!(InceptionState::RustInit.code(), 1);
    assert_eq!(inception_state_name(0), "Ready");
    assert_eq!(inception_state_name(2), "EarlyInit");
    assert_eq!(inception_state_name(7), "Unknown");
    assert_eq!(LogLevel::from_u8(4), LogLevel::Error);
    assert_eq!(LogLevel::from_u8(200), LogLevel::Off);
    assert_eq!(LogLevel::Warn.code(), 3);
    assert_eq!(EventType::CowTriggered.code(), 5);
    assert_eq!(event_name(0), "UNKNOWN");
    assert_eq!(event_name(5), "CowTriggered");
    assert_eq!(event_name(12), "ReingestFail");
    assert_eq!(event_name(13), "INVALID");
}

#[test]
fn test_parse_log_level_any_case() {
    assert_eq!(parse_log_level(b"trace"), LogLevel::Trace);
    assert_eq!(parse_log_level(b"DEBUG"), LogLevel::Debug);
    assert_eq!(parse_log_level(b"Warn"), LogLevel::Warn);
    assert_eq!(parse_log_level(b"error"), LogLevel::Error);
    assert_eq!(parse_log_level(b"OFF"), LogLevel::Off);
    assert_eq!(parse_log_level(b"verbose"), LogLevel::Info);
    assert_eq!(parse_log_level(b""), LogLevel::Info);
}

#[test]
fn test_vfs_flag() {
    let mut flag: u8 = 0;
    assert!(!is_vfs_ready(flag));
    activate_vfs(&mut flag);
    assert_eq!(flag, 1);
    assert!(is_vfs_ready(flag));
}

#[test]
fn test_fd_usage_bands() {
    // 72% of 1000: first warning band alert
    match fd_usage_action(1000, 720, 0, 500) {
        FdUsageAction::Alert { threshold, usage_pct, new_packed } => {
            assert_eq!(threshold, 70);
            assert_eq!(usage_pct, 72);
            assert_eq!(new_packed, (70u64 << 32) | 500);
        }
        _ => panic!("expected an alert"),
    }
    let packed = (70u64 << 32) | 500;
    // same band within 10 seconds: quiet; after 10 seconds: again
    assert_eq!(fd_usage_action(1000, 720, packed, 505), FdUsageAction::Nothing);
    assert!(matches!(fd_usage_action(1000, 720, packed, 510), FdUsageAction::Alert { threshold: 70, .. }));
    // a higher band alerts at once
    assert!(matches!(fd_usage_action(1000, 900, packed, 501), FdUsageAction::Alert { threshold: 85, .. }));
    // below 50%: clear the alert state
    assert_eq!(fd_usage_action(1000, 100, packed, 600), FdUsageAction::Reset);
    assert_eq!(fd_usage_action(1000, 100, 0, 600), FdUsageAction::Nothing);
    assert_eq!(fd_usage_action(0, 100, 0, 600), FdUsageAction::Nothing);
    assert_eq!(alert_level_name(85), "CRITICAL");
    assert_eq!(alert_level_name(70), "WARNING");
}

#[test]
fn test_next_backoff() {
    assert_eq!(next_backoff(0), (1, BackoffAction::Spin));
    assert_eq!(next_backoff(9), (10, BackoffAction::Yield));
    assert_eq!(next_backoff(99), (100, BackoffAction::Sleep));
    assert_eq!(next_backoff(1000), (1000, BackoffAction::Sleep));
    assert_eq!(next_backoff(u32::MAX), (1000, BackoffAction::Sleep));
}

#[test]
fn test_manifest_root_len_and_cas_root() {
    assert_eq!(manifest_root_len(b"/p/to/.vrift/manifest.lmdb"), 5);
    assert_eq!(manifest_root_len(b"/p/to/manifest.lmdb"), 5);
    assert_eq!(manifest_root_len(b"/manifest.lmdb"), 14);
    assert_eq!(manifest_root_len(b".vrift/m"), 0);
    assert_eq!(manifest_root_len(b"x.vrift/m"), 1);
    assert_eq!(expand_cas_root("~/cas", Some("/home/u")), "/home/u/cas");
    assert_eq!(expand_cas_root("~/cas", None), "~/cas");
    assert_eq!(expand_cas_root("/var/cas", Some("/home/u")), "/var/cas");
    assert_eq!(expand_cas_root("~", Some("/home/u")), "~");
}

#[test]
fn test_fixed_string_truncates() {
    let mut s = FixedString::<4>::new();
    assert!(s.is_empty());
    s.set("abcdef");
    assert_eq!(s.byte_len(), 4);
    assert_eq!(s.as_str(), "abcd");
    // cut inside a character: not valid text, read back as empty
    s.set_bytes("aé".as_bytes());
    assert_eq!(s.byte_len(), 3);
    s.set("aaé");
    assert_eq!(s.as_str(), "aaé");
    s.set("aaaé");
    assert_eq!(s.byte_len(), 4);
    assert_eq!(s.as_str(), "");
}

#[test]
fn test_flight_recorder_counts() {
    let mut r = FlightRecorder::new();
    r.record(EventType::OpenHit, 1, 0, 10);
    r.record(EventType::OpenHit, 2, 0, 11);
    r.record(EventType::StatMiss, 3, -2, 12);
    assert_eq!(r.head, 3);
    let c = r.recent_event_counts(1000);
    assert_eq!(c.len(), 16);
    assert_eq!(c[1], 2);
    assert_eq!(c[4], 1);
    assert_eq!(c[0], 0);
    let last_two = r.recent_event_counts(2);
    assert_eq!(last_two[1], 1);
    assert_eq!(last_two[4], 1);
}

#[test]
fn test_logger_ring() {
    let mut l = Logger::new();
    l.log("hello ");
    l.log("world");
    assert_eq!(l.snapshot(), b"hello world".to_vec());
    let big = "x".repeat(LOG_BUF_SIZE + 1);
    l.log(&big);
    assert_eq!(l.snapshot(), b"hello world".to_vec());
    let fill = "y".repeat(LOG_BUF_SIZE - 3);
    l.log(&fill);
    let snap = l.snapshot();
    assert_eq!(snap.len(), LOG_BUF_SIZE);
    // oldest first: the tail of "hello world" the fill did not overwrite
    assert_eq!(&snap[..3], b"rld");
    assert!(snap[3..].iter().all(|b| *b == b'y'));
}

#[test]
fn test_get_step() {
    assert_eq!(get_step(true, 3), GetStep::Use);
    assert_eq!(get_step(false, 0), GetStep::Initialize);
    assert_eq!(get_step(false, 1), GetStep::Fallback);
    assert_eq!(get_step(false, 2), GetStep::Fallback);
    assert_eq!(get_step(false, 3), GetStep::Fallback);
}
