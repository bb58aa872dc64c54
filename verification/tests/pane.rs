//! Panes: the sequences that are kept from the emulator, and their state.

use ezpn::bytes::{parse_u32, parse_u8};
use ezpn::keys::{KeyCode, KeyEvent, KeyModifiers};
use ezpn::pane::intercept::{
    intercept_chunk, percent_decode, scan_csi_terminator, scan_osc_terminator, track_dec_modes,
    InterceptCtx, ScanCsi, ScanOsc,
};
use ezpn::pane::{
    compute_eviction, dump_windows, scan_sync_brackets, Pane, PaneLaunch, ScrollbackEviction,
};
use ezpn::terminal_state::{
    ClipboardPolicy, KittyKbdFlags, KittyKbdStack, MouseEncoding, MouseProtocol, Osc52Decision,
    Osc52GetPolicy, Osc52SetPolicy, PaneTerminalState, Rgb, ThemePalette,
};

/// Takes a chunk in and hands out what is sent back to the program.
fn run_intercept(
    chunk: &[u8],
    ctx: &mut InterceptCtx,
    policy: &ClipboardPolicy,
    palette: &ThemePalette,
) -> Vec<u8> {
    intercept_chunk(ctx, policy, palette, chunk, 0);
    std::mem::take(&mut ctx.replies)
}

#[test]
fn track_dec_modes_bracketed_paste() {
    let mut s = PaneTerminalState::new();
    track_dec_modes(b"\x1b[?2004h", &mut s);
    assert!(s.bracketed_paste);
    track_dec_modes(b"\x1b[?2004l", &mut s);
    assert!(!s.bracketed_paste);
}

#[test]
fn track_dec_modes_combined_modes() {
    // `\x1b[?1000;1006h` enables both protocol and SGR encoding.
    let mut s = PaneTerminalState::new();
    track_dec_modes(b"\x1b[?1000;1006h", &mut s);
    assert_eq!(s.mouse_mode.protocol, MouseProtocol::X10);
    assert_eq!(s.mouse_mode.encoding, MouseEncoding::Sgr);

    track_dec_modes(b"\x1b[?1000;1006l", &mut s);
    assert!(s.mouse_mode.is_off());
    assert_eq!(s.mouse_mode.encoding, MouseEncoding::X10);
}

#[test]
fn track_dec_modes_focus_events() {
    let mut s = PaneTerminalState::new();
    track_dec_modes(b"\x1b[?1004h", &mut s);
    assert!(s.focus_reporting);
    track_dec_modes(b"\x1b[?1004l", &mut s);
    assert!(!s.focus_reporting);
}

#[test]
fn track_dec_modes_mouse_protocol_progression() {
    let mut s = PaneTerminalState::new();
    track_dec_modes(b"\x1b[?1000h", &mut s);
    assert_eq!(s.mouse_mode.protocol, MouseProtocol::X10);
    track_dec_modes(b"\x1b[?1002h", &mut s);
    assert_eq!(s.mouse_mode.protocol, MouseProtocol::Btn);
    track_dec_modes(b"\x1b[?1003h", &mut s);
    assert_eq!(s.mouse_mode.protocol, MouseProtocol::Any);
    track_dec_modes(b"\x1b[?1003l", &mut s);
    assert!(s.mouse_mode.is_off());
}

#[test]
fn track_dec_modes_disable_inactive_protocol_no_op() {
    // ?1003h then ?1000l should NOT clear 1003 — different protocol bit.
    let mut s = PaneTerminalState::new();
    track_dec_modes(b"\x1b[?1003h", &mut s);
    assert_eq!(s.mouse_mode.protocol, MouseProtocol::Any);
    track_dec_modes(b"\x1b[?1000l", &mut s);
    assert_eq!(
        s.mouse_mode.protocol,
        MouseProtocol::Any,
        "disabling X10 must not affect active Any protocol"
    );
}

#[test]
fn percent_decode_basic() {
    assert_eq!(percent_decode("/tmp"), "/tmp");
    assert_eq!(percent_decode("/path%20with%20spaces"), "/path with spaces");
    assert_eq!(percent_decode("%2Fweird%2Fpath"), "/weird/path");
    // Unknown escape — leave alone
    assert_eq!(percent_decode("%ZZ"), "%ZZ");
}

#[test]
fn parse_helpers() {
    assert_eq!(parse_u8(b"42"), Some(42));
    assert_eq!(parse_u8(b""), None);
    assert_eq!(parse_u8(b"abc"), None);
    assert_eq!(parse_u8(b"300"), None); // overflow
    assert_eq!(parse_u32(b"1024"), Some(1024));
}

#[test]
fn scan_csi_finds_final_byte() {
    match scan_csi_terminator(b"5u", 0) {
        ScanCsi::Complete { end, final_byte } => {
            assert_eq!(end, 1);
            assert_eq!(final_byte, b'u');
        }
        ScanCsi::Incomplete => panic!("should be complete"),
    }
}

#[test]
fn scan_osc_terminators() {
    match scan_osc_terminator(b"7;file:///tmp\x07", 0) {
        ScanOsc::Complete { end } => assert_eq!(end, b"7;file:///tmp".len()),
        ScanOsc::Incomplete => panic!("BEL terminator missed"),
    }
    match scan_osc_terminator(b"7;file:///tmp\x1b\\", 0) {
        ScanOsc::Complete { end } => assert_eq!(end, b"7;file:///tmp".len()),
        ScanOsc::Incomplete => panic!("ST terminator missed"),
    }
    match scan_osc_terminator(b"7;file:///tmp", 0) {
        ScanOsc::Incomplete => {}
        ScanOsc::Complete { .. } => panic!("should be incomplete"),
    }
}


#[test]
fn intercept_kitty_push_then_query_replies_with_top() {
    let mut ctx = InterceptCtx::new();
    let policy = ClipboardPolicy::default();
    let palette = ThemePalette::default();

    // Push flags=5
    run_intercept(b"\x1b[>5u", &mut ctx, &policy, &palette);
    assert_eq!(ctx.state.kitty_kbd.active().bits(), 5);

    // Query → reply written to writer
    let reply = run_intercept(b"\x1b[?u", &mut ctx, &policy, &palette);
    assert_eq!(reply, b"\x1b[?5u");
}

#[test]
fn intercept_kitty_push_pop_modify_sequence() {
    let mut ctx = InterceptCtx::new();
    let policy = ClipboardPolicy::default();
    let palette = ThemePalette::default();

    // Push 1, push 15, modify with mode=3 (AND-NOT) flags=4 → 11
    run_intercept(b"\x1b[>1u\x1b[>15u\x1b[=4;3u", &mut ctx, &policy, &palette);
    assert_eq!(ctx.state.kitty_kbd.active().bits(), 11);
    assert_eq!(ctx.state.kitty_kbd.depth(), 2);

    // Pop one
    run_intercept(b"\x1b[<1u", &mut ctx, &policy, &palette);
    assert_eq!(ctx.state.kitty_kbd.active().bits(), 1);

    // Pop everything
    run_intercept(b"\x1b[<5u", &mut ctx, &policy, &palette);
    assert_eq!(ctx.state.kitty_kbd.depth(), 0);
    assert_eq!(ctx.state.kitty_kbd.active().bits(), 0);
}


#[test]
fn intercept_osc7_decodes_simple_path() {
    let mut ctx = InterceptCtx::new();
    let policy = ClipboardPolicy::default();
    let palette = ThemePalette::default();

    run_intercept(b"\x1b]7;file:///tmp\x1b\\", &mut ctx, &policy, &palette);
    let (path, _ts) = ctx.state.reported_cwd.as_ref().expect("OSC 7 not captured");
    assert_eq!(path, "/tmp");
}

#[test]
fn intercept_osc7_decodes_percent_escapes_and_host() {
    let mut ctx = InterceptCtx::new();
    let policy = ClipboardPolicy::default();
    let palette = ThemePalette::default();

    run_intercept(b"\x1b]7;file://hostname/home/u%20ser/pkg\x07", &mut ctx, &policy, &palette);
    let (path, _ts) = ctx.state.reported_cwd.as_ref().unwrap();
    assert_eq!(path, "/home/u ser/pkg");
}


#[test]
fn intercept_osc8_does_not_consume_or_inject() {
    let mut ctx = InterceptCtx::new();
    let policy = ClipboardPolicy::default();
    let palette = ThemePalette::default();

    // OSC 8 ; ; URL ST text OSC 8 ; ; ST — the multiplexer touches none of it.
    let reply = run_intercept(b"\x1b]8;;https://example.com\x1b\\link\x1b]8;;\x1b\\", &mut ctx, &policy, &palette);
    assert!(reply.is_empty(), "OSC 8 must not produce a writer reply");
    assert!(ctx.osc52_pending.is_empty(), "OSC 8 must not enqueue anything");
    assert!(ctx.state.reported_cwd.is_none());
}


#[test]
fn intercept_osc11_query_returns_theme_bg() {
    let mut ctx = InterceptCtx::new();
    let policy = ClipboardPolicy::default();
    let mut palette = ThemePalette::default();
    palette.bg = Some(Rgb::new(0x1e, 0x1e, 0x2e));

    let reply = run_intercept(b"\x1b]11;?\x07", &mut ctx, &policy, &palette);
    assert_eq!(reply, b"\x1b]11;rgb:1e1e/1e1e/2e2e\x07");
}

#[test]
fn intercept_osc11_query_passes_through_when_no_theme() {
    let mut ctx = InterceptCtx::new();
    let policy = ClipboardPolicy::default();
    let palette = ThemePalette::default(); // inactive

    let reply = run_intercept(b"\x1b]11;?\x07", &mut ctx, &policy, &palette);
    assert!(reply.is_empty(), "no theme → no multiplexer-side reply");
}

#[test]
fn intercept_osc4_palette_query() {
    let mut ctx = InterceptCtx::new();
    let policy = ClipboardPolicy::default();
    let mut palette = ThemePalette::default();
    palette.palette[42] = Some(Rgb::new(0x12, 0x34, 0x56));

    let reply = run_intercept(b"\x1b]4;42;?\x07", &mut ctx, &policy, &palette);
    assert_eq!(reply, b"\x1b]4;42;rgb:1212/3434/5656\x07");
}

#[test]
fn intercept_osc4_unknown_index_silent() {
    let mut ctx = InterceptCtx::new();
    let policy = ClipboardPolicy::default();
    let mut palette = ThemePalette::default();
    palette.fg = Some(Rgb::new(0xff, 0xff, 0xff));

    // Theme is active but index 99 not set: no reply.
    let reply = run_intercept(b"\x1b]4;99;?\x07", &mut ctx, &policy, &palette);
    assert!(reply.is_empty());
}


#[test]
fn intercept_chunk_boundary_split_osc52() {
    // Same OSC 52 split across two reads — must reassemble correctly.
    let mut ctx = InterceptCtx::new();
    let policy = ClipboardPolicy {
        set: Osc52SetPolicy::Allow,
        ..ClipboardPolicy::default()
    };
    let palette = ThemePalette::default();

    // First half ends mid-OSC.
    intercept_chunk(&mut ctx, &policy, &palette, b"\x1b]52;c;", 0);
    assert!(ctx.osc52_pending.is_empty());
    // Second half completes it.
    intercept_chunk(&mut ctx, &policy, &palette, b"aGVsbG8=\x07", 0);
    assert_eq!(ctx.osc52_pending.len(), 1);
    assert_eq!(&ctx.osc52_pending[0], b"\x1b]52;c;aGVsbG8=\x07");
}


#[test]
fn intercept_osc52_set_allow_pushes_envelope() {
    let mut ctx = InterceptCtx::new();
    let policy = ClipboardPolicy {
        set: Osc52SetPolicy::Allow,
        ..ClipboardPolicy::default()
    };
    let palette = ThemePalette::default();

    run_intercept(b"\x1b]52;c;aGVsbG8=\x07", &mut ctx, &policy, &palette);
    assert_eq!(ctx.osc52_pending.len(), 1);
    assert!(ctx.state.osc52_pending_confirm.is_empty());
}

#[test]
fn intercept_osc52_set_deny_drops_silently() {
    let mut ctx = InterceptCtx::new();
    let policy = ClipboardPolicy {
        set: Osc52SetPolicy::Deny,
        ..ClipboardPolicy::default()
    };
    let palette = ThemePalette::default();

    run_intercept(b"\x1b]52;c;aGVsbG8=\x07", &mut ctx, &policy, &palette);
    assert!(ctx.osc52_pending.is_empty());
    assert!(ctx.state.osc52_pending_confirm.is_empty());
}

#[test]
fn intercept_osc52_set_confirm_parks_payload() {
    let mut ctx = InterceptCtx::new();
    let policy = ClipboardPolicy::default(); // Confirm is the default
    let palette = ThemePalette::default();

    run_intercept(b"\x1b]52;c;aGVsbG8=\x07", &mut ctx, &policy, &palette);
    assert!(ctx.osc52_pending.is_empty(), "confirm policy must not auto-forward");
    assert_eq!(ctx.state.osc52_pending_confirm.len(), 1);
}

#[test]
fn intercept_osc52_set_oversized_dropped() {
    let mut ctx = InterceptCtx::new();
    let policy = ClipboardPolicy {
        set: Osc52SetPolicy::Allow,
        max_bytes: 16,
        ..ClipboardPolicy::default()
    };
    let palette = ThemePalette::default();

    // 32-byte base64 payload exceeds the cap.
    let blob = vec![b'A'; 32];
    let mut seq = b"\x1b]52;c;".to_vec();
    seq.extend_from_slice(&blob);
    seq.push(0x07);
    run_intercept(&seq, &mut ctx, &policy, &palette);
    assert!(ctx.osc52_pending.is_empty(), "oversized OSC 52 must be dropped");
}

#[test]
fn intercept_osc52_get_default_denies() {
    let mut ctx = InterceptCtx::new();
    let policy = ClipboardPolicy::default();
    let palette = ThemePalette::default();

    run_intercept(b"\x1b]52;c;?\x07", &mut ctx, &policy, &palette);
    assert!(ctx.osc52_pending.is_empty(), "OSC 52 read must be denied by default");
}

#[test]
fn intercept_osc52_per_pane_decision_overrides_confirm() {
    let mut ctx = InterceptCtx::new();
    ctx.state.osc52_decision = Osc52Decision::Allowed;
    let policy = ClipboardPolicy::default(); // Confirm
    let palette = ThemePalette::default();

    run_intercept(b"\x1b]52;c;aGVsbG8=\x07", &mut ctx, &policy, &palette);
    // Decision=Allowed should bypass confirm and forward immediately.
    assert_eq!(ctx.osc52_pending.len(), 1);
    assert!(ctx.state.osc52_pending_confirm.is_empty());
}

#[test]
fn intercept_osc52_per_pane_decision_denied_blocks() {
    let mut ctx = InterceptCtx::new();
    ctx.state.osc52_decision = Osc52Decision::Denied;
    let policy = ClipboardPolicy {
        set: Osc52SetPolicy::Allow,
        ..ClipboardPolicy::default()
    };
    let palette = ThemePalette::default();

    run_intercept(b"\x1b]52;c;aGVsbG8=\x07", &mut ctx, &policy, &palette);
    // Cached Denied beats config Allow.
    assert!(ctx.osc52_pending.is_empty());
}


#[test]
fn compute_eviction_disabled_when_budget_zero() {
    let n = compute_eviction(0, 1_000_000, 80, ScrollbackEviction::OldestLine);
    assert_eq!(n, 0, "budget=0 must disable the byte cap");
}

#[test]
fn compute_eviction_under_budget_is_zero() {
    let n = compute_eviction(1024, 512, 80, ScrollbackEviction::OldestLine);
    assert_eq!(n, 0);
}

#[test]
fn compute_eviction_over_budget_returns_positive() {
    // 80 cols × 4 bytes/cell = 320 byte/row estimate.
    // Overflow = 1024 → ceil(1024/320) ≈ 3.
    let n = compute_eviction(1024, 2048, 80, ScrollbackEviction::OldestLine);
    assert!(n >= 1, "expected at least 1 row evicted, got {n}");
    assert!(n <= 4, "estimate should be small, got {n}");
}

#[test]
fn compute_eviction_minimum_one_when_just_over_budget() {
    // Tiny overflow: byte_estimate − byte_budget = 1; integer-div with
    // ~320-byte row gives 0, but we floor to 1 so telemetry fires.
    let n = compute_eviction(1024, 1025, 80, ScrollbackEviction::OldestLine);
    assert_eq!(n, 1);
}

#[test]
fn compute_eviction_policy_currently_does_not_change_count() {
    // Until vt100 exposes per-row deletion both policies behave the
    // same. This test pins the contract so the day vt100 ships an API
    // and `compute_eviction` becomes policy-aware, the diff is loud.
    let oldest = compute_eviction(1024, 4096, 80, ScrollbackEviction::OldestLine);
    let largest = compute_eviction(1024, 4096, 80, ScrollbackEviction::LargestLine);
    assert_eq!(oldest, largest);
}

#[test]
fn vt100_parser_history_grows_then_eviction_fires() {
    // End-to-end check: drive a vt100 parser past the byte budget by
    // pushing many lines through it, then assert `compute_eviction`
    // signals overflow. We can't directly query vt100's history depth
    // (it's private), so we use `rows_formatted()` length over
    // repeated process() calls as a proxy that the parser is buffering.
    let cols: u16 = 80;
    let mut parser = vt100::Parser::new(24, cols, 1000);
    let line = b"abcdefghijklmnopqrstuvwxyz0123456789\r\n";
    let mut estimate: usize = 0;
    let budget: usize = 4 * 1024;
    for _ in 0..512 {
        parser.process(line);
        estimate = estimate.saturating_add(line.len());
    }
    // Sanity: parser is alive and has visible content.
    let visible: Vec<_> = parser.screen().rows(0, cols).collect();
    assert_eq!(visible.len(), 24);
    // Eviction signal must fire — estimate (~19 KiB) >> budget (4 KiB).
    let evicted = compute_eviction(budget, estimate, cols, ScrollbackEviction::OldestLine);
    assert!(
        evicted > 0,
        "estimate {estimate} > budget {budget} should evict (got {evicted})"
    );
}

fn pane() -> Pane {
    Pane::new(PaneLaunch::Shell, None, Vec::new())
}

#[test]
fn what_is_pushed_is_popped() {
    let mut stack = KittyKbdStack::new();
    stack.push(KittyKbdFlags(3));
    stack.push(KittyKbdFlags(9));
    stack.pop(1);
    assert_eq!(stack.active().bits(), 3);
    assert_eq!(stack.depth(), 1);
    stack.pop(7);
    assert_eq!(stack.depth(), 0);
}

#[test]
fn plain_bytes_change_nothing() {
    let mut ctx = InterceptCtx::new();
    let policy = ClipboardPolicy::default();
    let palette = ThemePalette::default();
    let reply = run_intercept(b"plain text\r\n", &mut ctx, &policy, &palette);
    assert!(reply.is_empty());
    assert!(ctx.osc52_pending.is_empty() && ctx.osc_carry.is_empty() && ctx.csi_carry.is_empty());
    assert!(ctx.state.reported_cwd.is_none());
}

#[test]
fn a_broken_off_sequence_is_joined_with_the_next_chunk() {
    let mut ctx = InterceptCtx::new();
    let policy = ClipboardPolicy::default();
    let palette = ThemePalette::default();
    for chunk in [b"\x1b[".as_slice(), b">1", b"1", b"u"] {
        intercept_chunk(&mut ctx, &policy, &palette, chunk, 0);
    }
    assert_eq!(ctx.state.kitty_kbd.active().bits(), 11);
    assert!(ctx.csi_carry.is_empty());
}

#[test]
fn a_path_of_broken_bytes_is_read_with_replacements() {
    assert_eq!(percent_decode("/a%FFb"), "/a\u{fffd}b");
    assert_eq!(percent_decode("/%E2%9C%93"), "/\u{2713}");
}

#[test]
fn synchronised_output_is_counted() {
    let (mut depth, mut opened) = (0, None);
    scan_sync_brackets(b"\x1b[?2026h", &mut depth, &mut opened, 5);
    assert_eq!((depth, opened), (1, Some(5)));
    scan_sync_brackets(b"x\x1b[?2026hy", &mut depth, &mut opened, 6);
    assert_eq!((depth, opened), (2, Some(5)));
    scan_sync_brackets(b"\x1b[?2026l\x1b[?2026l", &mut depth, &mut opened, 7);
    assert_eq!((depth, opened), (0, None));
}

#[test]
fn a_pane_takes_chunks_in() {
    let mut p = pane();
    let chunks = vec![b"\x1b[?2004h".to_vec(), b"\x1b]7;file:///srv\x07".to_vec()];
    assert!(p.read_output(&chunks, false, None, 80, 1_000));
    assert!(p.bracketed_paste());
    assert_eq!(p.reported_cwd(1_000), Some("/srv"));
    // A directory that was told of long ago is not trusted.
    assert_eq!(p.reported_cwd(60_000), None);
    assert_eq!(p.live_cwd(60_000, Some("/proc")), Some("/proc".to_string()));
    assert!(p.is_alive());
    assert!(p.read_output(&Vec::new(), false, Some(3), 80, 2_000));
    assert!(!p.is_alive());
    assert_eq!(p.exit_code(), Some(3));
    let mut cut_off = pane();
    assert!(cut_off.read_output(&Vec::new(), true, None, 80, 2_000));
    assert!(!cut_off.is_alive() && cut_off.exit_code().is_none());
    assert!(!cut_off.read_output(&Vec::new(), true, None, 80, 3_000));
}

#[test]
fn scrolling_stays_within_the_history() {
    let mut p = pane();
    p.scroll_up(10, 4);
    assert_eq!(p.scroll_offset(), 4);
    p.scroll_down(1);
    assert_eq!(p.scroll_offset(), 3);
    assert!(p.is_scrolled());
    p.snap_to_bottom();
    assert!(!p.is_scrolled());
}

#[test]
fn windows_cover_the_scrollback() {
    for (max, rows) in [(0, 24), (5, 24), (24, 24), (100, 24), (7, 3)] {
        let windows = dump_windows(max, rows);
        let lines: usize = windows.iter().map(|w| w.1).sum();
        assert_eq!(lines, max, "{max} lines above {rows} rows");
    }
}

#[test]
fn keys_are_sent_as_terminals_send_them() {
    let p = pane();
    let none = KeyModifiers::none();
    assert_eq!(p.write_key(KeyEvent::new(KeyCode::Char('a'), none)), b"a");
    assert_eq!(p.write_key(KeyEvent::new(KeyCode::Enter, none)), b"\r");
    assert_eq!(p.write_key(KeyEvent::new(KeyCode::Up, none)), b"\x1b[A");
    let ctrl = KeyModifiers { control: true, ..none };
    assert_eq!(p.write_key(KeyEvent::new(KeyCode::Char('c'), ctrl)), b"\x03");
    let alt = KeyModifiers { alt: true, ..none };
    assert_eq!(p.write_key(KeyEvent::new(KeyCode::Char('x'), alt)), b"\x1bx");
    assert_eq!(p.write_key(KeyEvent::new(KeyCode::Char('\u{e9}'), none)), "\u{e9}".as_bytes());
}

#[test]
fn mouse_reports_follow_the_encoding() {
    let mut p = pane();
    assert!(!p.wants_mouse(false));
    p.take_chunk(b"\x1b[?1000;1006h", 80, 0);
    assert!(p.wants_mouse(false));
    assert_eq!(p.send_mouse_event(0, 4, 2, false, false), b"\x1b[<0;5;3M");
    assert_eq!(p.send_mouse_event(0, 4, 2, true, false), b"\x1b[<0;5;3m");
}

#[test]
fn a_new_pane_asks_before_it_sets_the_clipboard() {
    let pane = Pane::new(PaneLaunch::Shell, None, Vec::new());
    assert_eq!(pane.clipboard_policy.set, Osc52SetPolicy::Confirm);
    assert_eq!(pane.clipboard_policy.get, Osc52GetPolicy::Deny);
    assert_eq!(pane.clipboard_policy.max_bytes, 1_048_576);
}

#[test]
fn a_pane_that_takes_no_input_is_dead() {
    let mut pane = Pane::new(PaneLaunch::Shell, None, Vec::new());
    assert!(pane.is_alive());
    pane.write_failed();
    assert!(!pane.is_alive());
}
