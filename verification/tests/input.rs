//! Keys, the mouse and other events of a session.

use ezpn::keymap::{parse_chord, Action, Dir, Keymap, KeymapTable};
use ezpn::keys::{
    Event, KeyCode, KeyEvent, KeyModifiers, MouseButton, MouseEvent, MouseEventKind,
};
use ezpn::layout::{Direction, Layout};
use ezpn::pane::{Pane, PaneLaunch};
use ezpn::render::{build_border_cache, BorderCache, BorderStyle};
use ezpn::server::actions::{
    execute_action, execute_command, parse_bool_opt, Command, CommandError,
};
use ezpn::server::daemon::prefill_rename;
use ezpn::server::events::process_event;
use ezpn::server::input_modes::{
    complete_palette, copy_fallback, copy_finished, copy_left, copy_scroll, copy_sequence, process_key,
    CopyOutcome,
};
use ezpn::server::mouse::{process_mouse, selection_sequence, tab_under};
use ezpn::server::palette::{palette_entries, EntryKind};
use ezpn::server::state::{
    CopyModeState, CopyScroll, Effect, Env, InputMode, Osc52ConfirmState, TabAction, Ui,
};
use ezpn::settings::Settings;
use std::collections::{HashMap, HashSet};

struct Session {
    ui: Ui,
    keymap: Keymap,
    panes: HashMap<usize, Pane>,
    grabs: HashSet<usize>,
    env: Env,
    effects: Vec<Effect>,
}

fn session(cols: usize) -> Session {
    let layout = Layout::from_grid(1, cols);
    let mut panes = HashMap::new();
    for id in layout.pane_ids() {
        panes.insert(id, Pane::new(PaneLaunch::Shell, None, Vec::new()));
    }
    Session {
        ui: Ui::new(layout, 0, Settings::new(BorderStyle::Rounded)),
        keymap: Keymap::new(),
        panes,
        grabs: HashSet::new(),
        env: Env { tw: 80, th: 24, prefix_key: 'b', now: 1_000, screen: (22, 78) },
        effects: Vec::new(),
    }
}

impl Session {
    fn key(&mut self, code: KeyCode, modifiers: KeyModifiers) {
        process_key(
            &mut self.ui,
            KeyEvent::new(code, modifiers),
            &self.keymap,
            &self.panes,
            &self.env,
            &mut self.effects,
        );
    }

    fn plain(&mut self, c: char) {
        self.key(KeyCode::Char(c), KeyModifiers::none());
    }

    fn prefix(&mut self, c: char) {
        self.key(KeyCode::Char('b'), KeyModifiers::none().with_control());
        assert!(matches!(self.ui.mode, InputMode::Prefix { .. }));
        self.plain(c);
    }

    fn cache(&self) -> BorderCache {
        build_border_cache(&self.ui.layout, true, self.env.tw, self.env.th)
    }

    fn mouse(&mut self, kind: MouseEventKind, column: u16, row: u16) {
        let cache = self.cache();
        process_mouse(
            &mut self.ui,
            MouseEvent { kind, column, row, modifiers: KeyModifiers::none() },
            &self.panes,
            &self.grabs,
            &cache,
            None,
            &self.env,
            &mut self.effects,
        );
    }
}

#[test]
fn a_typed_key_goes_to_the_active_pane() {
    let mut s = session(2);
    s.plain('a');
    assert_eq!(s.effects.len(), 1);
    assert!(matches!(
        s.effects[0],
        Effect::WriteKey { pane: 0, key } if key.code == KeyCode::Char('a')
    ));
}

#[test]
fn a_broadcast_key_goes_to_every_pane() {
    let mut s = session(2);
    s.prefix('B');
    assert!(s.ui.broadcast);
    s.plain('a');
    assert!(matches!(s.effects.last(), Some(Effect::BroadcastKey(_))));
}

#[test]
fn the_prefix_holds_for_one_key() {
    let mut s = session(2);
    s.prefix('%');
    assert!(matches!(s.ui.mode, InputMode::Normal));
    assert!(matches!(
        s.effects.first(),
        Some(Effect::Split { target: 0, dir: Direction::Horizontal })
    ));
    let asked = s.effects.len();
    s.plain('%');
    assert!(matches!(s.effects[asked], Effect::WriteKey { .. }));
}

#[test]
fn the_prefix_leads_to_the_other_modes() {
    let mut s = session(2);
    s.prefix('x');
    assert!(matches!(s.ui.mode, InputMode::CloseConfirm));
    s.key(KeyCode::Esc, KeyModifiers::none());
    assert!(matches!(s.ui.mode, InputMode::Normal));
    s.prefix('R');
    assert!(matches!(s.ui.mode, InputMode::ResizeMode));
    s.key(KeyCode::Esc, KeyModifiers::none());
    s.prefix('?');
    assert!(matches!(s.ui.mode, InputMode::HelpOverlay));
    s.key(KeyCode::Esc, KeyModifiers::none());
    s.prefix('q');
    assert!(matches!(s.ui.mode, InputMode::PaneSelect));
    s.key(KeyCode::Esc, KeyModifiers::none());
    assert!(matches!(s.ui.mode, InputMode::Normal));
    s.prefix('[');
    assert!(matches!(s.ui.mode, InputMode::CopyMode(_)));
}

#[test]
fn the_prefix_drives_tabs_and_the_session() {
    let mut s = session(2);
    s.prefix('c');
    assert!(matches!(s.ui.tab_action, TabAction::NewTab));
    s.prefix('3');
    assert!(matches!(s.ui.tab_action, TabAction::GoToTab(_)));
    s.prefix('d');
    assert!(s.ui.detach_requested);
    s.prefix('o');
    assert_eq!(s.ui.active, 1);
    s.prefix('z');
    assert_eq!(s.ui.zoomed_pane, Some(1));
    s.prefix('z');
    assert_eq!(s.ui.zoomed_pane, None);
}

#[test]
fn a_name_is_typed_and_taken() {
    let mut s = session(1);
    s.prefix(',');
    prefill_rename(&mut s.ui, "a");
    for c in "log".chars() {
        s.plain(c);
    }
    s.key(KeyCode::Backspace, KeyModifiers::none());
    s.key(KeyCode::Enter, KeyModifiers::none());
    assert!(matches!(&s.ui.tab_action, TabAction::Rename(n) if n == "alo"));
    assert!(matches!(s.ui.mode, InputMode::Normal));
}

#[test]
fn a_command_line_is_run() {
    let mut s = session(1);
    s.prefix(':');
    assert!(matches!(s.effects.last(), Some(Effect::BuildPalette)));
    for c in "kill-pane".chars() {
        s.plain(c);
    }
    s.key(KeyCode::Enter, KeyModifiers::none());
    assert!(s.effects.iter().any(|e| matches!(e, Effect::RunCommand(t) if t == "kill-pane")));
    assert!(matches!(s.ui.mode, InputMode::Normal));
}

#[test]
fn completing_puts_the_entry_into_the_line() {
    let mut s = session(1);
    s.prefix(':');
    complete_palette(&mut s.ui, "split-window");
    assert!(matches!(&s.ui.mode, InputMode::CommandPalette { buffer } if buffer == "split-window"));
}

#[test]
fn a_question_takes_every_key() {
    let mut s = session(1);
    s.ui.osc52_confirm = Some(Osc52ConfirmState {
        pane_id: 0,
        byte_count: 3,
        queued_payloads: vec![b"abc".to_vec()],
    });
    s.plain('k');
    assert!(s.effects.is_empty() && s.ui.osc52_confirm.is_some());
    s.plain('y');
    assert!(matches!(
        &s.effects[0],
        Effect::AllowClipboard { pane: 0, forward } if forward[0] == b"abc"
    ));
    assert!(s.ui.osc52_confirm.is_none());
}

#[test]
fn a_binding_comes_before_the_builtin_keys() {
    let mut s = session(2);
    let chord = parse_chord("F2").unwrap();
    s.keymap.bind(KeymapTable::Normal, chord, Action::SelectPane { dir: Dir::Right });
    s.key(KeyCode::F(2), KeyModifiers::none());
    assert_eq!(s.ui.active, 1);
    assert!(s.effects.is_empty());
}

#[test]
fn a_dead_pane_is_started_again() {
    let mut s = session(1);
    s.panes.get_mut(&0).unwrap().kill();
    s.key(KeyCode::Enter, KeyModifiers::none());
    assert!(matches!(s.effects[0], Effect::Respawn { pane: 0 }));
}

#[test]
fn copy_mode_scrolls_past_its_edges() {
    let at = |cursor_row| CopyModeState { cursor_row, pane_rows: 10, pane_cols: 40 };
    let up = KeyEvent::new(KeyCode::Up, KeyModifiers::none());
    assert_eq!(copy_scroll(&at(0), up), CopyScroll::Up(1));
    assert_eq!(copy_scroll(&at(5), up), CopyScroll::Stay);
    let down = KeyEvent::new(KeyCode::Down, KeyModifiers::none());
    assert_eq!(copy_scroll(&at(9), down), CopyScroll::Down(1));
}

#[test]
fn copied_text_is_sent_to_the_clipboard() {
    assert_eq!(copy_sequence("hello"), b"\x1b]52;c;aGVsbG8=\x07");
    assert_eq!(selection_sequence("hello").unwrap(), b"\x1b]52;c;aGVsbG8=\x07");
    assert!(selection_sequence("").is_none());
    let done = CopyOutcome::CopyAndExit { text: "hello".to_string(), clipboard: false };
    assert_eq!(copy_fallback(&done).unwrap(), copy_sequence("hello"));
    let done = CopyOutcome::CopyAndExit { text: "hello".to_string(), clipboard: true };
    assert!(copy_fallback(&done).is_none());
    let mut s = session(1);
    s.prefix('[');
    copy_finished(&mut s.ui, &CopyOutcome::Exit);
    assert!(matches!(s.ui.mode, InputMode::Normal));
}

#[test]
fn leaving_copy_mode_shows_the_newest_lines() {
    let mut s = session(1);
    let pane = s.panes.get_mut(&0).unwrap();
    pane.scroll_up(7, 100);
    let at = CopyModeState { cursor_row: 3, pane_rows: 10, pane_cols: 40 };
    copy_left(pane, &CopyOutcome::Moved(at));
    assert_eq!(pane.scroll_offset(), 7);
    copy_left(pane, &CopyOutcome::Exit);
    assert_eq!(pane.scroll_offset(), 0);
    assert!(pane.take_osc52().is_empty());
    pane.scroll_up(7, 100);
    copy_left(pane, &CopyOutcome::CopyAndExit { text: "hello".to_string(), clipboard: false });
    assert_eq!(pane.scroll_offset(), 0);
    assert_eq!(pane.take_osc52(), vec![copy_sequence("hello")]);
    copy_left(pane, &CopyOutcome::CopyAndExit { text: "hello".to_string(), clipboard: true });
    assert!(pane.take_osc52().is_empty());
}

#[test]
fn commands_act_on_the_layout() {
    let mut s = session(3);
    let r = execute_command(
        &mut s.ui,
        Ok(Command::SelectPane { dir: Dir::Right }),
        &s.env,
        &mut s.effects,
    );
    assert!(r.is_ok());
    assert_eq!(s.ui.active, 1);
    let r = execute_command(&mut s.ui, Err(CommandError::Bad("no such".into())), &s.env, &mut s.effects);
    assert!(r.unwrap_err().contains("no such"));
    let set = |key: &str, value: &str| Command::SetOption { key: key.into(), value: value.into() };
    let r = execute_command(&mut s.ui, Ok(set("status", "off")), &s.env, &mut s.effects);
    assert!(r.is_ok());
    assert!(!s.ui.settings.show_status_bar);
    let r = execute_command(&mut s.ui, Ok(set("status", "maybe")), &s.env, &mut s.effects);
    assert_eq!(r.unwrap_err(), "set-option status: expected on/off, got `maybe`");
    let r = execute_command(&mut s.ui, Ok(set("colour", "red")), &s.env, &mut s.effects);
    assert_eq!(r.unwrap_err(), "set-option: unknown key `colour`");
    let show = Command::DisplayMessage { text: "hi".into() };
    let r = execute_command(&mut s.ui, Ok(show), &s.env, &mut s.effects);
    assert_eq!(r.unwrap(), Some("hi".to_string()));
    assert_eq!(parse_bool_opt("on"), Some(true));
    assert_eq!(parse_bool_opt("false"), Some(false));
    assert_eq!(parse_bool_opt("maybe"), None);
}

#[test]
fn actions_act_on_the_session() {
    let mut s = session(2);
    execute_action(&mut s.ui, &Action::SwapPane { up: false }, &s.env, &mut s.effects).unwrap();
    assert_eq!(s.ui.layout.pane_ids(), vec![1, 0]);
    s.keymap.bind(KeymapTable::Prefix, parse_chord("k").unwrap(), Action::DetachSession);
    s.keymap.bind(KeymapTable::Prefix, parse_chord("v").unwrap(), Action::NextWindow);
    s.prefix('k');
    assert!(s.ui.detach_requested);
    s.prefix('v');
    assert!(matches!(s.ui.tab_action, TabAction::NextTab));
}

#[test]
fn a_click_focuses_the_pane_under_it() {
    let mut s = session(2);
    let rect = s.cache().pane_rects()[&1];
    s.mouse(MouseEventKind::Down(MouseButton::Left), rect.x + 3, rect.y + 3);
    assert_eq!(s.ui.active, 1);
}

#[test]
fn a_double_click_zooms() {
    let mut s = session(2);
    let rect = s.cache().pane_rects()[&1];
    s.mouse(MouseEventKind::Down(MouseButton::Left), rect.x + 3, rect.y + 3);
    s.env.now += 100;
    s.mouse(MouseEventKind::Down(MouseButton::Left), rect.x + 3, rect.y + 3);
    assert_eq!(s.ui.zoomed_pane, Some(1));
}

#[test]
fn dragging_a_separator_moves_it() {
    let mut s = session(2);
    let before = s.cache().pane_rects()[&0];
    let column = before.x + before.w;
    s.mouse(MouseEventKind::Down(MouseButton::Left), column, 8);
    assert!(s.ui.drag.is_some());
    s.mouse(MouseEventKind::Drag(MouseButton::Left), column + 10, 8);
    assert!(s.cache().pane_rects()[&0].w > before.w);
    s.mouse(MouseEventKind::Up(MouseButton::Left), column + 10, 8);
    assert!(s.ui.drag.is_none());
    assert!(s.effects.iter().any(|e| matches!(e, Effect::ResizeAll)));
}

#[test]
fn the_wheel_scrolls_or_is_sent_on() {
    let mut s = session(1);
    s.mouse(MouseEventKind::ScrollUp, 5, 5);
    assert!(matches!(s.effects[0], Effect::ScrollUp { pane: 0, lines: 3 }));
    s.grabs.insert(0);
    s.effects.clear();
    s.mouse(MouseEventKind::ScrollDown, 5, 5);
    assert_eq!(s.effects.len(), 3);
    assert!(matches!(s.effects[0], Effect::SendScroll { pane: 0, up: false, .. }));
}

#[test]
fn pasted_text_goes_in_brackets_where_the_program_asked() {
    let mut s = session(1);
    let cache = Some(s.cache());
    s.panes.get_mut(&0).unwrap().take_chunk(b"\x1b[?2004h", 80, 0);
    process_event(
        &mut s.ui,
        Event::Paste("hi".to_string()),
        &s.keymap,
        &s.panes,
        &s.grabs,
        &cache,
        None,
        &s.env,
        &mut s.effects,
    );
    assert!(matches!(
        &s.effects[0],
        Effect::WriteBytes { pane: 0, bytes } if bytes == b"\x1b[200~hi\x1b[201~"
    ));
}

#[test]
fn the_palette_offers_commands_panes_and_the_session() {
    let s = session(2);
    let history = vec!["list-buffers".to_string()];
    let entries = palette_entries(&history, &s.ui.layout, &s.panes, "work");
    assert!(entries.iter().any(|e| e.kind == EntryKind::Command));
    assert!(entries.iter().any(|e| e.kind == EntryKind::History && e.payload == "list-buffers"));
    assert_eq!(entries.iter().filter(|e| e.kind == EntryKind::Pane).count(), 2);
    assert!(entries.iter().any(|e| e.kind == EntryKind::Session));
}

#[test]
fn only_a_bar_of_several_tabs_takes_the_mouse() {
    assert_eq!(tab_under(22, 22, 2, Some(1), 0), Some((1, 0)));
    assert_eq!(tab_under(21, 22, 2, Some(1), 0), None);
    assert_eq!(tab_under(22, 22, 1, Some(0), 0), None);
    assert_eq!(tab_under(22, 22, 2, None, 0), None);
}
