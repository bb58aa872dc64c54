//! The control socket: requests, responses and the answers to them.

use ezpn::ipc::{
    classify_line, is_ext_command, socket_dir, socket_path_for_pid, IpcRequestExt, IpcResponse,
    LineKind, SendKeysOutcome, SendKeysStatus, DUMP_MAX_BYTES, SEND_KEYS_DEFAULT_TIMEOUT_MS,
};
use ezpn::layout::Layout;
use ezpn::pane::{Pane, PaneLaunch};
use ezpn::protocol::AttachMode;
use ezpn::server::connection::ClientInfo;
use ezpn::server::ext_handlers::{
    dispatch_ext, dump_lines, handle_dump_mut, handle_ls_tree, slice_lines, too_large, PaneFacts,
    TabSource,
};
use std::collections::HashMap;

/// `is_ext_command` leaves the other commands to the main loop.
#[test]
fn is_ext_command_classifies_v012_commands() {
    assert!(is_ext_command(r#"{"cmd":"ls_tree"}"#));
    assert!(!is_ext_command(r#"{"cmd":"list"}"#));
    assert!(!is_ext_command(
        r#"{"cmd":"split","direction":"horizontal"}"#
    ));
    assert!(!is_ext_command("not json"));
}

#[test]
fn is_ext_command_recognises_dump() {
    assert!(is_ext_command(r#"{"cmd":"dump","pane":0}"#));
}

#[test]
fn is_ext_command_recognises_send_keys() {
    assert!(is_ext_command(r#"{"cmd":"send_keys","pane":0,"text":"x"}"#));
}

#[test]
fn lines_are_sorted_by_their_command() {
    assert_eq!(classify_line("   "), LineKind::Blank);
    assert_eq!(classify_line(r#"{"cmd":"list"}"#), LineKind::Legacy);
    assert_eq!(classify_line(r#"  {"cmd":"dump","pane":0}"#), LineKind::Ext);
    assert_eq!(classify_line(r#"{"cmd":7}"#), LineKind::Legacy);
}

#[test]
fn dump_max_bytes_matches_wire_cap() {
    assert_eq!(DUMP_MAX_BYTES, 16 * 1024 * 1024);
}

#[test]
fn send_keys_default_timeout_is_30s() {
    assert_eq!(SEND_KEYS_DEFAULT_TIMEOUT_MS, 30_000);
}

#[test]
fn the_socket_lies_in_the_runtime_directory() {
    assert_eq!(socket_dir(None, Some("/run/user/7")), "/run/user/7");
    assert_eq!(socket_dir(Some("/t"), Some("/run/user/7")), "/t");
    assert_eq!(socket_path_for_pid(12, None, Some("/run/user/7")), "/run/user/7/ezpn-12.sock");
    assert_eq!(socket_path_for_pid(12, None, None), "/tmp/ezpn-12.sock");
}

#[test]
fn responses_hold_one_answer() {
    let r = IpcResponse::success("done");
    assert!(r.ok && r.error.is_none() && r.dump.is_none());
    assert_eq!(r.message.as_deref(), Some("done"));
    let r = IpcResponse::error("no");
    assert!(!r.ok && r.message.is_none());
    assert_eq!(r.error.as_deref(), Some("no"));
    let r = IpcResponse::with_panes(Vec::new());
    assert!(r.ok && r.panes.is_some());
    let r = IpcResponse::with_send_keys(SendKeysOutcome {
        status: SendKeysStatus::Timeout,
        exit_code: None,
        waited_ms: 30_000,
    });
    assert!(r.ok);
    assert_eq!(r.send_keys.unwrap().waited_ms, 30_000);
}

fn texts(words: &[&str]) -> Vec<String> {
    words.iter().map(|w| w.to_string()).collect()
}

/// A dump over the cap gets the message that tells what to do about it.
#[test]
fn dump_too_large_error_uses_documented_phrase() {
    let lines: Vec<String> = (0..(DUMP_MAX_BYTES / 32 + 8))
        .map(|i| format!("{:0>31}", i))
        .collect();
    let total_bytes: usize = lines.iter().map(|l| l.len() + 1).sum();
    assert!(total_bytes > DUMP_MAX_BYTES);
    assert!(too_large(&lines));
    let response = dump_lines(0, &lines, None, None);
    assert!(!response.ok);
    assert_eq!(
        response.error.as_deref(),
        Some("dump too large; use --last N")
    );
    assert!(dump_lines(0, &lines, None, Some(2)).ok);
}

/// `since=2` drops the first line, `last=2` keeps only the trailing two.
#[test]
fn since_and_last_slice_correctly() {
    let lines: Vec<String> = (1..=5).map(|i| format!("line{}", i)).collect();
    assert_eq!(slice_lines(&lines, Some(2), Some(2)), vec!["line4", "line5"]);
    assert_eq!(slice_lines(&lines, Some(2), None), vec!["line2", "line3", "line4", "line5"]);
    assert_eq!(slice_lines(&lines, Some(0), None), lines);
    assert_eq!(slice_lines(&lines, Some(9), None), Vec::<String>::new());
    assert_eq!(slice_lines(&lines, None, Some(9)), lines);
}

/// A session without panes.
fn bare<'a>(
    layout: &'a Layout,
    panes: &'a HashMap<usize, Pane>,
    facts: &'a HashMap<usize, PaneFacts>,
) -> Vec<TabSource<'a>> {
    vec![TabSource { id: 0, name: "main", layout, panes, facts, active_pane: 0 }]
}

/// No session is listed where the filter does not match.
#[test]
fn ls_tree_filter_mismatch_returns_empty_sessions() {
    let (layout, panes, facts) = (Layout::from_grid(1, 1), HashMap::new(), HashMap::new());
    let tabs = bare(&layout, &panes, &facts);
    let created = 1_745_800_000.0f64.to_bits();
    let response = handle_ls_tree(Some("nope"), &tabs, 0, &Vec::new(), "main", created, 0);
    assert!(response.ok);
    let tree = response.ls_tree.unwrap();
    assert_eq!(tree.proto_version, "1.0");
    assert!(tree.sessions.is_empty());
}

#[test]
fn ls_tree_of_a_session_without_panes_has_its_tab() {
    let (layout, panes, facts) = (Layout::from_grid(1, 1), HashMap::new(), HashMap::new());
    let tabs = bare(&layout, &panes, &facts);
    let created = 1_745_800_000.0f64.to_bits();
    let clients = vec![ClientInfo { id: 3, mode: AttachMode::Shared, tw: 80, th: 24 }];
    let tree = handle_ls_tree(None, &tabs, 0, &clients, "main", created, 0).ls_tree.unwrap();
    assert_eq!(tree.proto_version, "1.0");
    assert_eq!(tree.sessions.len(), 1);
    assert_eq!(tree.sessions[0].name, "main");
    assert_eq!(f64::from_bits(tree.sessions[0].created_at), 1_745_800_000.0);
    assert_eq!(tree.sessions[0].tabs.len(), 1);
    assert_eq!(tree.sessions[0].tabs[0].id, 0);
    assert_eq!(tree.sessions[0].clients.len(), 1);
    assert_eq!(tree.sessions[0].clients[0].size, [80, 24]);
    assert_eq!(tree.sessions[0].clients[0].mode, "shared");
}

#[test]
fn panes_are_listed_in_ascending_order() {
    let layout = Layout::from_grid(1, 3);
    let (mut panes, mut facts) = (HashMap::new(), HashMap::new());
    for id in [2usize, 0, 1] {
        panes.insert(id, Pane::new(PaneLaunch::Command(format!("run {id}")), None, Vec::new()));
        facts.insert(id, PaneFacts { rows: 24, cols: 80, title: String::new(), pid: Some(9) });
    }
    let tabs = bare(&layout, &panes, &facts);
    let tree = handle_ls_tree(None, &tabs, 0, &Vec::new(), "main", 0, 0).ls_tree.unwrap();
    let tab = &tree.sessions[0].tabs[0];
    let ids: Vec<usize> = tab.panes.iter().map(|p| p.id).collect();
    assert_eq!(ids, vec![0, 1, 2]);
    assert!(tab.panes[0].is_focused && !tab.panes[1].is_focused);
    assert_eq!(tab.panes[2].command, "run 2");
}

#[test]
fn ipc_command_ext_routes_ls_tree_through_dispatch() {
    let (layout, panes, facts) = (Layout::from_grid(1, 1), HashMap::new(), HashMap::new());
    let tabs = bare(&layout, &panes, &facts);
    let response = dispatch_ext(
        &IpcRequestExt::LsTree { session: None },
        &tabs,
        0,
        &Vec::new(),
        "main",
        1_745_800_000.0f64.to_bits(),
        0,
    );
    assert!(response.ok);
    assert!(response.ls_tree.is_some());
}

#[test]
fn ipc_command_ext_send_keys_returns_stub_error() {
    let (layout, panes, facts) = (Layout::from_grid(1, 1), HashMap::new(), HashMap::new());
    let tabs = bare(&layout, &panes, &facts);
    let response = dispatch_ext(
        &IpcRequestExt::SendKeys {
            pane: 0,
            text: "echo".into(),
            await_prompt: false,
            timeout_ms: None,
            no_newline: false,
        },
        &tabs,
        0,
        &Vec::new(),
        "main",
        0,
        0,
    );
    assert!(!response.ok);
    let err = response.error.unwrap();
    assert!(err.contains("#81"), "got: {err}");
}

#[test]
fn a_dump_names_its_pane() {
    let mut panes = HashMap::new();
    panes.insert(4usize, Pane::new(PaneLaunch::Shell, None, Vec::new()));
    let request = |pane| IpcRequestExt::Dump {
        pane,
        session: None,
        since: None,
        last: Some(1),
        include_scrollback: true,
        strip_ansi: false,
    };
    let lines = texts(&["a", "b"]);
    let dump = handle_dump_mut(&request(4), &panes, 4, &lines).dump.unwrap();
    assert_eq!((dump.pane, dump.total), (4, 2));
    assert_eq!(dump.lines, vec!["b"]);
    let missing = handle_dump_mut(&request(7), &panes, 4, &lines);
    assert!(!missing.ok && missing.error.unwrap().contains('7'));
}

#[test]
fn only_a_text_member_of_an_object_counts() {
    assert!(!is_ext_command(r#"["cmd","dump"]"#));
    assert!(!is_ext_command(r#"{"cmd":{"cmd":"dump"}}"#));
    assert!(!is_ext_command(r#"{"other":"dump"}"#));
    assert!(is_ext_command(r#"{"a":1,"cmd":"dump","z":null}"#));
    assert!(is_ext_command(r#"{"cmd":"list","cmd":"dump"}"#));
}
