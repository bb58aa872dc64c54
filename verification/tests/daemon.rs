//! Clients of the daemon and the steps of its loop.

use ezpn::layout::Layout;
use ezpn::pane::{Pane, PaneLaunch};
use ezpn::project::RestartPolicy;
use ezpn::protocol::{encode_resize, AttachMode, C_ATTACH, C_DETACH, C_EVENT, C_KILL, C_PING, C_RESIZE};
use ezpn::render::BorderStyle;
use ezpn::server::connection::{
    accept_client, client_message, effective_size, first_message, without_clients, ClientInfo,
    ClientMsg, FirstMessage, Intake, NextRead,
};
use ezpn::server::daemon::{
    ask_clipboard, cwd_changed, expire_flash, expire_prefix, newly_exited, newly_spawned,
    next_confirm, on_signals, on_tab_over, reload_message, restart_step, restartable, restarted, tab_is_over,
    tab_plan, tick, track_focus, wait_ms, RestartStep, TabEnd, TabPlan, FLASH_MS,
    MAX_RESTART_RETRIES, PREFIX_MS,
};
use ezpn::server::render_glue::{compose_frame, mode_label, FramePart};
use ezpn::server::state::{InputMode, TabAction, Ui};
use ezpn::settings::{FlashKind, ReloadOutcome, Settings};
use ezpn::signals::{Signal, SignalState};
use std::collections::{HashMap, HashSet};

fn ui(cols: usize) -> Ui {
    Ui::new(Layout::from_grid(1, cols), 0, Settings::new(BorderStyle::Rounded))
}

fn panes(n: usize) -> HashMap<usize, Pane> {
    (0..n).map(|id| (id, Pane::new(PaneLaunch::Shell, None, Vec::new()))).collect()
}

fn client(id: u64, mode: AttachMode, tw: u16, th: u16) -> ClientInfo {
    ClientInfo { id, mode, tw, th }
}

#[test]
fn the_size_fits_every_client() {
    let clients = vec![
        client(1, AttachMode::Shared, 100, 30),
        client(2, AttachMode::Shared, 80, 50),
    ];
    assert_eq!(effective_size(&clients), (80, 30));
}

#[test]
fn watching_clients_limit_the_size_too() {
    let clients = vec![
        client(1, AttachMode::Shared, 100, 30),
        client(2, AttachMode::Readonly, 20, 10),
    ];
    assert_eq!(effective_size(&clients), (20, 10));
}

#[test]
fn a_client_of_the_largest_width_counts() {
    assert_eq!(effective_size(&vec![client(1, AttachMode::Shared, 65_535, 10)]), (65_535, 10));
    assert_eq!(effective_size(&Vec::new()), (80, 24));
}

#[test]
fn a_stealing_client_is_alone() {
    let mut u = ui(1);
    let mut size = (80, 24);
    let mut clients = vec![client(1, AttachMode::Shared, 100, 30)];
    let mut effects = Vec::new();
    let new = client(2, AttachMode::Steal, 90, 40);
    accept_client(&mut u, &mut size, &mut clients, new, true, &mut effects);
    assert_eq!(clients, vec![new]);
    assert_eq!(size, (90, 40));
    let third = client(3, AttachMode::Shared, 70, 50);
    accept_client(&mut u, &mut size, &mut clients, third, true, &mut effects);
    assert_eq!(clients.len(), 2);
    assert_eq!(size, (70, 40));
    assert_eq!(without_clients(&clients, &vec![2]), vec![third]);
}

#[test]
fn first_messages_are_told_apart() {
    assert_eq!(first_message(C_PING, &[]), FirstMessage::Ping);
    assert_eq!(first_message(C_KILL, &[]), FirstMessage::Kill);
    assert_eq!(first_message(C_ATTACH, b"{}"), FirstMessage::Attach);
    assert_eq!(first_message(C_RESIZE, &encode_resize(80, 24)), FirstMessage::AttachOld(80, 24));
    assert_eq!(first_message(0x7f, &[]), FirstMessage::Ignore);
}

#[test]
fn messages_of_clients_are_taken_in() {
    assert_eq!(client_message(C_EVENT, b"x"), Some(ClientMsg::Event));
    assert_eq!(client_message(C_RESIZE, &encode_resize(9, 8)), Some(ClientMsg::Resize(9, 8)));
    assert_eq!(client_message(C_RESIZE, &[1]), None);
    assert_eq!(client_message(C_DETACH, &[]), Some(ClientMsg::Detach));
    assert_eq!(client_message(C_KILL, &[]), Some(ClientMsg::Kill));
    let mut intake = Intake::new();
    let mut c = client(5, AttachMode::Shared, 80, 24);
    assert_eq!(intake.take(&mut c, ClientMsg::Event), NextRead::Handle);
    intake.take(&mut c, ClientMsg::Resize(60, 20));
    assert_eq!((c.tw, c.th, intake.size_changed), (60, 20, true));
    intake.take(&mut c, ClientMsg::Detach);
    assert_eq!(intake.detach, vec![5]);
    intake.take(&mut c, ClientMsg::Kill);
    assert!(intake.kill);
    assert!(intake.last_client_left(1, 0));
    assert!(!intake.last_client_left(2, 1));
}

#[test]
fn signals_become_work() {
    let mut s = SignalState::default();
    let idle = on_signals(s, false);
    assert!(!idle.shut_down && !idle.dump && !idle.reload);
    s.note(Signal::User1);
    s.note(Signal::Hangup);
    let work = on_signals(s, false);
    assert!(!work.shut_down && work.dump && work.reload);
    s.note(Signal::Terminate);
    assert!(on_signals(s, false).shut_down);
    assert!(on_signals(SignalState::default(), true).reload);
}

#[test]
fn a_reload_is_told_of() {
    let (text, kind) =
        reload_message(&ReloadOutcome::Reloaded { non_reloadable_changed: vec!["shell", "scrollback"] });
    assert_eq!(text, "config reloaded (restart for: shell, scrollback)");
    assert_eq!(kind, FlashKind::Info);
    let (text, kind) = reload_message(&ReloadOutcome::Error("bad".to_string()));
    assert_eq!((text.as_str(), kind), ("config error: bad", FlashKind::Error));
}

#[test]
fn waits_and_timeouts() {
    assert!(wait_ms(0, true) > wait_ms(1, false));
    assert!(wait_ms(1, false) > wait_ms(1, true));
    let mut last = 0;
    assert!(!tick(&mut last, 999));
    assert!(tick(&mut last, 1_000));
    assert_eq!(last, 1_000);
    let mut u = ui(1);
    u.set_mode(InputMode::Prefix { entered_at: 10 });
    expire_prefix(&mut u, 10 + PREFIX_MS - 1);
    assert!(matches!(u.mode, InputMode::Prefix { .. }));
    expire_prefix(&mut u, 10 + PREFIX_MS + 1);
    assert!(matches!(u.mode, InputMode::Normal));
    u.flash("hi".to_string(), 10);
    expire_flash(&mut u, 10 + FLASH_MS - 1);
    assert!(u.flash_message.is_some());
    expire_flash(&mut u, 10 + FLASH_MS + 1);
    assert!(u.flash_message.is_none());
}

#[test]
fn panes_are_told_of_once() {
    let mut seen = HashSet::new();
    assert_eq!(newly_spawned(&vec![2, 1], &mut seen), vec![2, 1]);
    assert_eq!(newly_spawned(&vec![1, 3], &mut seen), vec![3]);
    let mut ps = panes(2);
    let mut told = HashSet::new();
    assert_eq!(newly_exited(&vec![0, 1], &ps, &mut told), Vec::<usize>::new());
    ps.get_mut(&1).unwrap().read_output(&Vec::new(), false, Some(2), 80, 0);
    assert_eq!(newly_exited(&vec![0, 1], &ps, &mut told), vec![1]);
    assert_eq!(newly_exited(&vec![0, 1], &ps, &mut told), Vec::<usize>::new());
    assert!(cwd_changed(Some("/a"), "/b"));
    assert!(!cwd_changed(Some("/a"), "/a"));
}

#[test]
fn the_last_focus_is_kept() {
    let mut u = ui(2);
    let ps = panes(2);
    let mut prev = 0;
    let mut effects = Vec::new();
    assert!(!track_focus(&mut u, &mut prev, &ps, &mut effects));
    u.set_active(1);
    assert!(track_focus(&mut u, &mut prev, &ps, &mut effects));
    assert_eq!((u.last_active, prev), (0, 1));
}

#[test]
fn a_clipboard_request_becomes_a_question() {
    let mut ps = panes(2);
    assert_eq!(next_confirm(&vec![0, 1], &ps), None);
    ps.get_mut(&1).unwrap().take_chunk(b"\x1b]52;c;aGVsbG8=\x07", 80, 0);
    assert_eq!(next_confirm(&vec![0, 1], &ps), Some(1));
    let payloads = ps.get_mut(&1).unwrap().take_osc52_pending_confirm();
    let mut u = ui(2);
    ask_clipboard(&mut u, 1, payloads);
    assert_eq!(u.osc52_confirm.as_ref().unwrap().pane_id, 1);
}

#[test]
fn restarts_slow_down_and_end() {
    assert_eq!(restart_step(None, 0), RestartStep::Restart);
    let mut entry = restarted(None, 0);
    assert_eq!(entry, (0, 1));
    let mut now = 0;
    while restart_step(Some(entry), now) != RestartStep::GiveUp {
        if restart_step(Some(entry), now) == RestartStep::Restart {
            entry = restarted(Some(entry), now);
        }
        now += 500;
        assert!(now < 10_000_000);
    }
    assert_eq!(entry.1, MAX_RESTART_RETRIES);
}

#[test]
fn a_tab_is_over_when_no_pane_comes_back() {
    let mut ps = panes(2);
    let ids = vec![0, 1];
    let tried = HashMap::new();
    assert!(!tab_is_over(&ids, &ps, &HashMap::new(), &tried));
    ps.get_mut(&0).unwrap().kill();
    ps.get_mut(&1).unwrap().kill();
    assert!(tab_is_over(&ids, &ps, &HashMap::new(), &tried));
    let mut policies = HashMap::new();
    policies.insert(1, RestartPolicy::Always);
    assert!(!tab_is_over(&ids, &ps, &policies, &tried));
    assert_eq!(restartable(&ids, &ps, &policies), vec![1]);
    policies.insert(0, RestartPolicy::Never);
    assert_eq!(restartable(&ids, &ps, &policies), vec![1]);
    assert_eq!(on_tab_over(false, 1), TabEnd::GoOn);
    assert_eq!(on_tab_over(true, 2), TabEnd::CloseTab);
    assert_eq!(on_tab_over(true, 1), TabEnd::EndSession);
}

#[test]
fn tabs_follow_one_another_in_a_circle() {
    assert_eq!(tab_plan(&TabAction::NextTab, 2, 3), TabPlan::SwitchTo(0));
    assert_eq!(tab_plan(&TabAction::PrevTab, 0, 3), TabPlan::SwitchTo(2));
    assert_eq!(tab_plan(&TabAction::NewTab, 0, 1), TabPlan::Create);
    assert_eq!(tab_plan(&TabAction::Nothing, 0, 1), TabPlan::Nothing);
    assert_eq!(tab_plan(&TabAction::KillSession, 0, 1), TabPlan::EndSession);
    assert_eq!(tab_plan(&TabAction::GoToTab(9), 0, 3), TabPlan::Nothing);
}

#[test]
fn a_frame_ends_with_a_hidden_cursor() {
    let mut u = ui(2);
    let ps = panes(2);
    let order = vec![0, 1];
    let frame = compose_frame(&u, &ps, &order, "", 0, 1);
    assert!(frame.iter().any(|p| matches!(p, FramePart::Panes)));
    assert!(matches!(frame.last(), Some(FramePart::HideCursor)));
    u.set_zoomed(Some(1));
    let frame = compose_frame(&u, &ps, &order, "", 0, 1);
    assert!(frame.iter().any(|p| matches!(p, FramePart::Zoomed { pane: 1, .. })));
    u.set_mode(InputMode::HelpOverlay);
    let frame = compose_frame(&u, &ps, &order, "", 0, 1);
    assert!(frame.iter().any(|p| matches!(p, FramePart::Help)));
    assert_eq!(mode_label(&InputMode::Normal, false, ""), "");
}
