//! Log names and the ring of recent lines.

use ezpn::observability::{
    crash_dir, crash_file, crash_report, log_dir, sanitize_filename, state_dir, LogRing,
    CRASH_RING_CAPACITY,
};

#[test]
fn sanitize_strips_path_separators() {
    assert_eq!(sanitize_filename("my/session"), "my_session");
    assert_eq!(sanitize_filename("a..b"), "a__b");
    assert_eq!(sanitize_filename(""), "ezpn");
    assert_eq!(sanitize_filename("ok-name_1"), "ok-name_1");
}

#[test]
fn state_dir_uses_xdg_when_set() {
    let dir = state_dir(Some("/state"), Some("/home/me"));
    assert!(dir.ends_with("ezpn") || dir.ends_with(".ezpn"));
    assert_eq!(dir, "/state/ezpn");
    assert_eq!(state_dir(None, Some("/home/me")), "/home/me/.local/state/ezpn");
    assert!(state_dir(None, None).ends_with(".ezpn"));
}

#[test]
fn logs_and_crashes_lie_under_the_state_directory() {
    assert_eq!(log_dir(Some("/state"), None), "/state/ezpn/log");
    assert_eq!(crash_dir(Some("/state"), None), "/state/ezpn/crash");
}

#[test]
fn ring_buffer_caps_at_capacity() {
    let mut ring = LogRing::new();
    for i in 0..(CRASH_RING_CAPACITY + 50) {
        ring.push_ring(format!("line {i}\n").as_bytes());
    }
    assert_eq!(ring.len(), CRASH_RING_CAPACITY);
    // Oldest retained line should be index 50.
    assert_eq!(ring.line(0).unwrap(), "line 50\n");
    assert_eq!(ring.line(CRASH_RING_CAPACITY - 1).unwrap(), "line 249\n");
    assert!(ring.line(CRASH_RING_CAPACITY).is_none());
}

#[test]
fn a_chunk_is_cut_behind_its_line_breaks() {
    let mut ring = LogRing::new();
    ring.push_ring(b"one\ntwo\nthree");
    assert_eq!(ring.len(), 3);
    assert_eq!(ring.line(0), Some("one\n"));
    assert_eq!(ring.line(1), Some("two\n"));
    assert_eq!(ring.line(2), Some("three"));
}

#[test]
fn broken_bytes_become_replacement_characters() {
    let mut ring = LogRing::new();
    ring.push_ring(b"a\xffb\n");
    assert_eq!(ring.line(0), Some("a\u{fffd}b\n"));
}

#[test]
fn a_crash_report_ends_with_the_recent_lines() {
    let mut ring = LogRing::new();
    ring.push_ring(b"first\nsecond\n");
    let report = crash_report(17, 4, "boom", "frames", &ring);
    assert!(report.contains("boom"));
    assert!(report.contains("frames"));
    assert!(report.ends_with("first\nsecond\n"));
    assert!(crash_file(17, 4).contains("17"));
}
