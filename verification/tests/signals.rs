//! Flags that signal handlers raise.

use ezpn::signals::{dump_session_path, Signal, SignalState};

#[test]
fn signal_state_default_is_all_false() {
    let s = SignalState::default();
    assert!(!s.sigterm);
    assert!(!s.sighup);
    assert!(!s.sigchld);
    assert!(!s.sigusr1);
}

#[test]
fn taking_the_flags_lowers_the_others() {
    let mut s = SignalState::default();
    s.note(Signal::Hangup);
    s.note(Signal::User1);
    let seen = s.take();
    assert!(seen.sighup && seen.sigusr1);
    assert!(!seen.sigterm && !seen.sigchld);
    assert_eq!(s, SignalState::default());
}

#[test]
fn a_request_to_end_stays_raised() {
    let mut s = SignalState::default();
    s.note(Signal::Terminate);
    s.note(Signal::Child);
    assert!(s.take().sigterm);
    assert_eq!(s, SignalState { sigterm: true, ..SignalState::default() });
}

#[test]
fn a_dump_lies_under_the_state_directory() {
    let (dir, file) = dump_session_path(Some("/state"), Some("/home/me"), 7, 99).unwrap();
    assert_eq!(dir, "/state/ezpn");
    assert_eq!(file, "/state/ezpn/dump-7-99.json");
    let (dir, _) = dump_session_path(None, Some("/home/me"), 7, 99).unwrap();
    assert_eq!(dir, "/home/me/.local/state/ezpn");
    assert!(dump_session_path(None, None, 7, 99).is_none());
}
