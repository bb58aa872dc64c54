//! Commands that change the layout, from the command palette and from keys.

use vstd::prelude::*;
use vstd::string::*;

use crate::keymap;
use crate::keymap::Dir;
use crate::layout;
use crate::layout::{Direction, Layout, NavDir};
use crate::ratio;
use crate::ratio::Ratio;
use crate::render;
use crate::server::state;
use crate::server::state::{ask, Effect, Env, TabAction, TabActionView, Ui, UiView, Work};
use crate::settings;
use crate::text;

verus! {

/// A command of the command palette.
#[derive(Clone, Debug, PartialEq, Eq)]
pub enum Command {
    SplitHorizontal,
    SplitVertical,
    KillPane,
    KillWindow,
    NewWindow { name: Option<String> },
    RenameWindow { name: String },
    SelectPane { dir: Dir },
    ResizePane { dir: Dir, amount: u16 },
    SwapPane { up: bool },
    SelectLayout { name: String },
    SetOption { key: String, value: String },
    DisplayMessage { text: String },
}

#[verifier::ext_equal]
pub enum CommandView {
    SplitHorizontal,
    SplitVertical,
    KillPane,
    KillWindow,
    NewWindow { name: Option<Seq<char>> },
    RenameWindow { name: Seq<char> },
    SelectPane { dir: Dir },
    ResizePane { dir: Dir, amount: u16 },
    SwapPane { up: bool },
    SelectLayout { name: Seq<char> },
    SetOption { key: Seq<char>, value: Seq<char> },
    DisplayMessage { text: Seq<char> },
}

impl View for Command {
    type V = CommandView;

    open spec fn view(&self) -> CommandView {
        match *self {
            Command::SplitHorizontal => CommandView::SplitHorizontal,
            Command::SplitVertical => CommandView::SplitVertical,
            Command::KillPane => CommandView::KillPane,
            Command::KillWindow => CommandView::KillWindow,
            Command::NewWindow { name } => CommandView::NewWindow {
                name: keymap::text_view(name),
            },
            Command::RenameWindow { name } => CommandView::RenameWindow { name: name@ },
            Command::SelectPane { dir } => CommandView::SelectPane { dir },
            Command::ResizePane { dir, amount } => CommandView::ResizePane { dir, amount },
            Command::SwapPane { up } => CommandView::SwapPane { up },
            Command::SelectLayout { name } => CommandView::SelectLayout { name: name@ },
            Command::SetOption { key, value } => CommandView::SetOption {
                key: key@,
                value: value@,
            },
            Command::DisplayMessage { text } => CommandView::DisplayMessage { text: text@ },
        }
    }
}

/// Why a command line is no command.
#[derive(Clone, Debug, PartialEq, Eq)]
pub enum CommandError {
    /// There is none: the prompt is closed without complaint.
    Empty,
    /// The message for the user.
    Bad(String),
}

#[verifier::ext_equal]
pub enum CommandErrorView {
    Empty,
    Bad(Seq<char>),
}

/// A parsed command line, with its texts as sequences.
pub open spec fn parsed_view(r: Result<Command, CommandError>) -> Result<
    CommandView,
    CommandErrorView,
> {
    match r {
        Ok(c) => Ok(c@),
        Err(CommandError::Empty) => Err(CommandErrorView::Empty),
        Err(CommandError::Bad(s)) => Err(CommandErrorView::Bad(s@)),
    }
}

/// What a command comes to: perhaps a message, or an error.
pub type Outcome = Result<Option<Seq<char>>, Seq<char>>;

/// Tells whether a result is the outcome that was specified.
pub open spec fn comes_to(r: Result<Option<String>, String>, want: Outcome) -> bool {
    match r {
        Ok(Some(s)) => want == Ok::<Option<Seq<char>>, Seq<char>>(Some(s@)),
        Ok(None) => want == Ok::<Option<Seq<char>>, Seq<char>>(None),
        Err(e) => want == Err::<Option<Seq<char>>, Seq<char>>(e@),
    }
}

pub open spec fn nav_of(d: Dir) -> NavDir {
    match d {
        Dir::Up => NavDir::Up,
        Dir::Down => NavDir::Down,
        Dir::Left => NavDir::Left,
        Dir::Right => NavDir::Right,
    }
}

pub fn dir_to_nav(d: Dir) -> (r: NavDir)
    ensures
        r == nav_of(d),
{
    match d {
        Dir::Up => NavDir::Up,
        Dir::Down => NavDir::Down,
        Dir::Left => NavDir::Left,
        Dir::Right => NavDir::Right,
    }
}

/// The value of an on/off option.
pub open spec fn bool_of(s: Seq<char>) -> Option<bool> {
    let t = text::lowered(text::trim(s));
    if t == "on"@ || t == "true"@ || t == "1"@ || t == "yes"@ {
        Some(true)
    } else if t == "off"@ || t == "false"@ || t == "0"@ || t == "no"@ {
        Some(false)
    } else {
        None
    }
}

/// Reads an on/off option.
pub fn parse_bool_opt(s: &str) -> (r: Option<bool>)
    ensures
        r == bool_of(s@),
{
    let low = text::lower_text(text::trim_text(s));
    let t = low.as_str();
    if text::same_text(t, "on") || text::same_text(t, "true") || text::same_text(t, "1")
        || text::same_text(t, "yes") {
        Some(true)
    } else if text::same_text(t, "off") || text::same_text(t, "false") || text::same_text(t, "0")
        || text::same_text(t, "no") {
        Some(false)
    } else {
        None
    }
}

// ─── Changes of the layout ─────────────────────────────────

/// The state after the focus moved in a direction, if there is a pane.
pub open spec fn focus_moved(v: UiView, nav: NavDir, env: Env) -> UiView {
    let inner = render::inner_rect(v.settings.show_status_bar, env.tw, env.th);
    match layout::nearest_pane(v.layout.root, v.active, nav, inner) {
        Some(n) => UiView { active: n, ..v },
        None => v,
    }
}

/// Tells whether there is a pane in a direction.
pub open spec fn can_move(v: UiView, nav: NavDir, env: Env) -> bool {
    let inner = render::inner_rect(v.settings.show_status_bar, env.tw, env.th);
    layout::nearest_pane(v.layout.root, v.active, nav, inner) is Some
}

/// Moves the focus and tells whether it moved.
pub fn move_focus(ui: &mut Ui, nav: NavDir, env: &Env) -> (r: bool)
    requires
        old(ui).wf(),
    ensures
        final(ui).wf(),
        final(ui)@ == focus_moved(old(ui)@, nav, *env),
        r == can_move(old(ui)@, nav, *env),
{
    let inner = render::make_inner(env.tw, env.th, ui.settings.show_status_bar);
    match ui.layout.navigate(ui.active, nav, &inner) {
        Some(n) => {
            ui.active = n;
            true
        },
        None => false,
    }
}

/// The layout after the active pane was resized, if a separator can move.
pub open spec fn resized(v: UiView, nav: NavDir, delta: Ratio) -> (UiView, Seq<Work>) {
    match layout::resize_path(v.layout.root, v.active, nav) {
        Some(path) => {
            let l = Layout {
                root: layout::with_nudge(v.layout.root, path, delta, !layout::nav_back(nav)),
                ..v.layout
            };
            (state::marked(UiView { layout: l, ..v }), seq![state::plain(Effect::ResizeAll)])
        },
        None => (v, seq![]),
    }
}

/// Resizes the active pane.
pub fn resize_active(ui: &mut Ui, nav: NavDir, delta: Ratio, effects: &mut Vec<Effect>)
    requires
        old(ui).wf(),
        delta.wf(),
    ensures
        final(ui).wf(),
        final(ui)@ == resized(old(ui)@, nav, delta).0,
        state::work(final(effects)@) == state::work(old(effects)@) + resized(old(ui)@, nav, delta).1,
{
    if ui.layout.resize_pane(ui.active, nav, delta) {
        ask(effects, Effect::ResizeAll);
        ui.mark_layout();
        assert(state::work(effects@) =~= state::work(old(effects)@) + seq![state::plain(Effect::ResizeAll)]);
    } else {
        assert(state::work(effects@) =~= state::work(old(effects)@) + seq![]);
    }
}

/// The layout after the active pane changed places with its neighbour in tree
/// order. Where it has none, nothing changes.
pub open spec fn swapped(v: UiView, up: bool) -> UiView {
    let all = layout::ids(v.layout.root);
    let other = if up {
        layout::cycle_prev(all, v.active)
    } else {
        layout::cycle_next(all, v.active)
    };
    if other == v.active {
        v
    } else {
        state::marked(
            UiView {
                layout: Layout {
                    root: layout::swapped(v.layout.root, v.active, other),
                    ..v.layout
                },
                ..v
            },
        )
    }
}

pub fn swap_active(ui: &mut Ui, up: bool)
    requires
        old(ui).wf(),
    ensures
        final(ui).wf(),
        final(ui)@ == swapped(old(ui)@, up),
{
    let other: usize = if up {
        ui.layout.prev_pane(ui.active)
    } else {
        ui.layout.next_pane(ui.active)
    };
    if other != ui.active {
        ui.layout.swap_panes(ui.active, other);
        ui.mark_layout();
    }
}

/// The layout with all panes of equal size.
pub open spec fn evened(v: UiView) -> UiView {
    state::marked(
        UiView {
            layout: Layout { root: layout::equalized(v.layout.root), ..v.layout },
            ..v
        },
    )
}

/// Makes all panes equally large.
pub fn even_out(ui: &mut Ui, effects: &mut Vec<Effect>)
    requires
        old(ui).wf(),
    ensures
        final(ui).wf(),
        final(ui)@ == evened(old(ui)@),
        state::work(final(effects)@) == state::work(old(effects)@).push(state::plain(Effect::ResizeAll)),
{
    ui.layout.equalize();
    ask(effects, Effect::ResizeAll);
    ui.mark_layout();
}

/// The work of splitting a pane. What is drawn anew is only known afterwards.
pub open spec fn split_work(target: usize, dir: Direction) -> Seq<Work> {
    seq![state::plain(Effect::Split { target, dir }), state::plain(Effect::MarkAll)]
}

/// Splits a pane.
pub fn split_pane(ui: &mut Ui, target: usize, dir: Direction, effects: &mut Vec<Effect>)
    requires
        old(ui).wf(),
    ensures
        final(ui).wf(),
        final(ui)@ == state::with_border_dirty(old(ui)@),
        state::work(final(effects)@) == state::work(old(effects)@) + split_work(target, dir),
{
    ask(effects, Effect::Split { target, dir });
    ask(effects, Effect::MarkAll);
    ui.set_border_dirty();
    assert(state::work(effects@) =~= state::work(old(effects)@) + split_work(target, dir));
}

/// The work of closing a pane.
pub open spec fn close_work(target: usize) -> Seq<Work> {
    seq![
        state::plain(Effect::ClosePane { target }),
        state::plain(Effect::ResizeAll),
        state::plain(Effect::MarkAll),
    ]
}

/// Closes a pane.
pub fn close_target(ui: &mut Ui, target: usize, effects: &mut Vec<Effect>)
    requires
        old(ui).wf(),
    ensures
        final(ui).wf(),
        final(ui)@ == state::with_border_dirty(old(ui)@),
        state::work(final(effects)@) == state::work(old(effects)@) + close_work(target),
{
    ask(effects, Effect::ClosePane { target });
    ask(effects, Effect::ResizeAll);
    ask(effects, Effect::MarkAll);
    ui.set_border_dirty();
    assert(state::work(effects@) =~= state::work(old(effects)@) + close_work(target));
}

/// The state after a switch of the chrome was set: the panes get their new
/// sizes.
pub open spec fn chrome_set(v: UiView, status: bool, on: bool) -> UiView {
    state::marked(
        UiView {
            settings: if status {
                settings::Settings { show_status_bar: on, ..v.settings }
            } else {
                settings::Settings { show_tab_bar: on, ..v.settings }
            },
            ..v
        },
    )
}

/// Sets a switch of the chrome: the status bar or the tab bar.
pub fn set_chrome(ui: &mut Ui, status: bool, on: bool, effects: &mut Vec<Effect>)
    requires
        old(ui).wf(),
    ensures
        final(ui).wf(),
        final(ui)@ == chrome_set(old(ui)@, status, on),
        state::work(final(effects)@) == state::work(old(effects)@).push(state::plain(Effect::ResizeAll)),
{
    if status {
        ui.settings.show_status_bar = on;
    } else {
        ui.settings.show_tab_bar = on;
    }
    ask(effects, Effect::ResizeAll);
    ui.mark_layout();
}

// ─── Commands ──────────────────────────────────────────────

/// A step: the state after it, the work it asks for, and what it comes to.
pub type Step = (UiView, Seq<Work>, Outcome);

pub open spec fn quietly(v: UiView, w: Seq<Work>) -> Step {
    (state::redrawn(v), w, Ok(None))
}

pub open spec fn expected_on_off(key: Seq<char>, value: Seq<char>) -> Outcome {
    Err("set-option "@ + key + ": expected on/off, got `"@ + value + "`"@)
}

/// `set-option KEY VALUE`.
pub open spec fn option_step(v: UiView, key: Seq<char>, value: Seq<char>) -> Step {
    if key == "status"@ || key == "status-bar"@ || key == "show-status-bar"@ {
        match bool_of(value) {
            Some(on) => quietly(chrome_set(v, true, on), seq![state::plain(Effect::ResizeAll)]),
            None => (v, seq![], expected_on_off(key, value)),
        }
    } else if key == "tab-bar"@ || key == "show-tab-bar"@ {
        match bool_of(value) {
            Some(on) => quietly(chrome_set(v, false, on), seq![state::plain(Effect::ResizeAll)]),
            None => (v, seq![], expected_on_off(key, value)),
        }
    } else if key == "broadcast"@ {
        match bool_of(value) {
            Some(on) => quietly(UiView { broadcast: on, ..v }, seq![]),
            None => (v, seq![], expected_on_off(key, value)),
        }
    } else {
        (v, seq![], Err("set-option: unknown key `"@ + key + "`"@))
    }
}

/// The message for the name of a new window, which is not applied at once.
pub open spec fn new_window_note(name: Option<Seq<char>>) -> Option<Seq<char>> {
    match name {
        Some(n) => if n.len() > 0 {
            Some("new-window: name `"@ + n + "` (rename pending)"@)
        } else {
            None
        },
        None => None,
    }
}

/// One command. Choosing a layout only asks for its panes; the state changes
/// when they have started.
pub open spec fn command_step(v: UiView, c: CommandView, env: Env) -> Step {
    match c {
        CommandView::SplitHorizontal => quietly(
            state::with_border_dirty(v),
            split_work(v.active, Direction::Horizontal),
        ),
        CommandView::SplitVertical => quietly(
            state::with_border_dirty(v),
            split_work(v.active, Direction::Vertical),
        ),
        CommandView::KillPane => quietly(state::with_border_dirty(v), close_work(v.active)),
        CommandView::KillWindow => quietly(
            UiView { tab_action: TabActionView::CloseTab, ..v },
            seq![],
        ),
        CommandView::NewWindow { name } => (
            state::redrawn(UiView { tab_action: TabActionView::NewTab, ..v }),
            seq![],
            Ok(new_window_note(name)),
        ),
        CommandView::RenameWindow { name } => quietly(
            UiView { tab_action: TabActionView::Rename(name), ..v },
            seq![],
        ),
        CommandView::SelectPane { dir } => quietly(focus_moved(v, nav_of(dir), env), seq![]),
        CommandView::ResizePane { dir, amount } => {
            let (w, asked) = resized(v, nav_of(dir), ratio::steps(amount));
            quietly(w, asked)
        },
        CommandView::SwapPane { up } => quietly(swapped(v, up), seq![]),
        CommandView::SelectLayout { name } => match layout::spec_layout(name) {
            Ok(l) => (v, seq![state::plain(Effect::SpawnLayout(l))], Ok(None)),
            Err(e) => (v, seq![], Err("select-layout: "@ + e)),
        },
        CommandView::SetOption { key, value } => option_step(v, key, value),
        CommandView::DisplayMessage { text } => (state::redrawn(v), seq![], Ok(Some(text))),
    }
}

/// A command line: an empty one closes the prompt, a bad one gives its message.
pub open spec fn line_step(
    v: UiView,
    parsed: Result<CommandView, CommandErrorView>,
    env: Env,
) -> Step {
    match parsed {
        Err(CommandErrorView::Empty) => quietly(v, seq![]),
        Err(CommandErrorView::Bad(e)) => (state::redrawn(v), seq![], Err(e)),
        Ok(c) => command_step(v, c, env),
    }
}

fn bad_on_off(key: &str, value: &str) -> (r: Result<Option<String>, String>)
    ensures
        comes_to(r, expected_on_off(key@, value@)),
{
    let mut s = "set-option ".to_owned();
    s.append(key);
    s.append(": expected on/off, got `");
    s.append(value);
    s.append("`");
    Err(s)
}

fn set_option(ui: &mut Ui, key: &str, value: &str, effects: &mut Vec<Effect>) -> (r: Result<
    Option<String>,
    String,
>)
    requires
        old(ui).wf(),
    ensures
        final(ui).wf(),
        ({
            let (v, w, o) = option_step(old(ui)@, key@, value@);
            final(ui)@ == v && state::work(final(effects)@) == state::work(old(effects)@) + w && comes_to(r, o)
        }),
{
    let ghost before = state::work(effects@);
    assert(before + seq![] =~= before);
    let status = text::same_text(key, "status") || text::same_text(key, "status-bar")
        || text::same_text(key, "show-status-bar");
    let tabs = text::same_text(key, "tab-bar") || text::same_text(key, "show-tab-bar");
    if status || tabs {
        match parse_bool_opt(value) {
            Some(on) => {
                set_chrome(ui, status, on, effects);
                assert(state::work(effects@) =~= before + seq![state::plain(Effect::ResizeAll)]);
            },
            None => {
                return bad_on_off(key, value);
            },
        }
    } else if text::same_text(key, "broadcast") {
        match parse_bool_opt(value) {
            Some(on) => {
                ui.set_broadcast(on);
            },
            None => {
                return bad_on_off(key, value);
            },
        }
    } else {
        let mut s = "set-option: unknown key `".to_owned();
        s.append(key);
        s.append("`");
        return Err(s);
    }
    ui.redraw();
    Ok(None)
}

/// Executes a command.
pub fn run_command(ui: &mut Ui, command: Command, env: &Env, effects: &mut Vec<Effect>) -> (r:
    Result<Option<String>, String>)
    requires
        old(ui).wf(),
    ensures
        final(ui).wf(),
        ({
            let (v, w, o) = command_step(old(ui)@, command@, *env);
            final(ui)@ == v && state::work(final(effects)@) == state::work(old(effects)@) + w && comes_to(r, o)
        }),
{
    let ghost before = state::work(effects@);
    assert(before + seq![] =~= before);
    let mut flash: Option<String> = None;
    match command {
        Command::SplitHorizontal => {
            let target: usize = ui.active;
            split_pane(ui, target, Direction::Horizontal, effects);
        },
        Command::SplitVertical => {
            let target: usize = ui.active;
            split_pane(ui, target, Direction::Vertical, effects);
        },
        Command::KillPane => {
            let target: usize = ui.active;
            close_target(ui, target, effects);
        },
        Command::KillWindow => {
            ui.set_tab_action(TabAction::CloseTab);
        },
        Command::NewWindow { name } => {
            ui.set_tab_action(TabAction::NewTab);
            match name {
                Some(n) => {
                    if !n.as_str().is_empty() {
                        let mut s = "new-window: name `".to_owned();
                        s.append(n.as_str());
                        s.append("` (rename pending)");
                        flash = Some(s);
                    }
                },
                None => {},
            }
        },
        Command::RenameWindow { name } => {
            ui.set_tab_action(TabAction::Rename(name));
        },
        Command::SelectPane { dir } => {
            let _ = move_focus(ui, dir_to_nav(dir), env);
        },
        Command::ResizePane { dir, amount } => {
            let delta = Ratio::resize_step(amount);
            resize_active(ui, dir_to_nav(dir), delta, effects);
        },
        Command::SwapPane { up } => {
            swap_active(ui, up);
        },
        Command::SelectLayout { name } => {
            match Layout::from_spec(name.as_str()) {
                Ok(l) => {
                    ask(effects, Effect::SpawnLayout(l));
                    assert(state::work(effects@) =~= before + seq![state::plain(Effect::SpawnLayout(l))]);
                    return Ok(None);
                },
                Err(e) => {
                    let mut s = "select-layout: ".to_owned();
                    s.append(e.as_str());
                    return Err(s);
                },
            }
        },
        Command::SetOption { key, value } => {
            return set_option(ui, key.as_str(), value.as_str(), effects);
        },
        Command::DisplayMessage { text } => {
            flash = Some(text);
        },
    }
    ui.redraw();
    Ok(flash)
}

/// Executes a command line of the command palette.
pub fn execute_command(
    ui: &mut Ui,
    parsed: Result<Command, CommandError>,
    env: &Env,
    effects: &mut Vec<Effect>,
) -> (r: Result<Option<String>, String>)
    requires
        old(ui).wf(),
    ensures
        final(ui).wf(),
        ({
            let (v, w, o) = line_step(old(ui)@, parsed_view(parsed), *env);
            final(ui)@ == v && state::work(final(effects)@) == state::work(old(effects)@) + w && comes_to(r, o)
        }),
{
    assert(state::work(effects@) + seq![] =~= state::work(effects@));
    match parsed {
        Err(CommandError::Empty) => {
            ui.redraw();
            Ok(None)
        },
        Err(CommandError::Bad(e)) => {
            ui.redraw();
            Err(e)
        },
        Ok(c) => run_command(ui, c, env, effects),
    }
}

/// The state after the panes of a chosen layout have started: the first one
/// has the focus.
pub open spec fn layout_chosen(v: UiView, l: Layout) -> UiView {
    state::marked(UiView { layout: l, active: layout::ids(l.root)[0], ..v })
}

/// Switches to a layout whose panes have started.
pub fn layout_spawned(ui: &mut Ui, l: Layout)
    requires
        old(ui).wf(),
        l.wf(),
    ensures
        final(ui).wf(),
        final(ui)@ == layout_chosen(old(ui)@, l),
{
    let all = l.pane_ids();
    ui.active = all[0];
    ui.layout = l;
    ui.mark_layout();
}

/// Tells the user that the panes of a chosen layout did not start.
pub fn layout_failed(ui: &mut Ui, error: &str, now: u64)
    requires
        old(ui).wf(),
    ensures
        final(ui).wf(),
        final(ui)@ == (UiView {
            flash_message: Some(("select-layout: spawn failed: "@ + error@, now)),
            ..old(ui)@
        }),
{
    let mut s = "select-layout: spawn failed: ".to_owned();
    s.append(error);
    ui.flash(s, now);
}

// ─── Actions of keys ───────────────────────────────────────

/// The command that does what an action does, where there is one.
pub open spec fn command_of(a: keymap::ActionView) -> Option<CommandView> {
    match a {
        keymap::ActionView::NewWindow { name } => Some(CommandView::NewWindow { name }),
        keymap::ActionView::SelectLayout { name } => Some(CommandView::SelectLayout { name }),
        keymap::ActionView::DisplayMessage { text } => Some(CommandView::DisplayMessage { text }),
        keymap::ActionView::SetOption { key, value } => Some(
            CommandView::SetOption { key, value },
        ),
        keymap::ActionView::Plain(p) => match p {
            keymap::Action::SplitWindowH => Some(CommandView::SplitHorizontal),
            keymap::Action::SplitWindowV => Some(CommandView::SplitVertical),
            keymap::Action::KillPane => Some(CommandView::KillPane),
            keymap::Action::KillWindow => Some(CommandView::KillWindow),
            keymap::Action::SelectPane { dir } => Some(CommandView::SelectPane { dir }),
            keymap::Action::ResizePane { dir, amount } => Some(
                CommandView::ResizePane { dir, amount },
            ),
            keymap::Action::SwapPane { up } => Some(CommandView::SwapPane { up }),
            _ => None,
        },
        _ => None,
    }
}

/// One action that a key is bound to. Those that change the input mode or the
/// tabs are not handled here and change nothing.
pub open spec fn action_step(v: UiView, a: keymap::ActionView, env: Env) -> Step {
    match command_of(a) {
        Some(c) => command_step(v, c, env),
        None => match a {
            keymap::ActionView::SetBuffer { name, value } => (
                v,
                seq![Work::SetBuffer { name, value }],
                Ok(None),
            ),
            keymap::ActionView::PasteBuffer { name } => (
                v,
                seq![Work::PasteBuffer { name }],
                Ok(None),
            ),
            keymap::ActionView::Plain(p) => match p {
                keymap::Action::Equalize => quietly(evened(v), seq![state::plain(Effect::ResizeAll)]),
                keymap::Action::ReloadConfig => (state::reload_asked(v), seq![], Ok(None)),
                keymap::Action::ToggleSettings => quietly(
                    UiView { settings: settings::toggled(v.settings), ..v },
                    seq![],
                ),
                keymap::Action::ToggleBroadcast => quietly(
                    UiView { broadcast: !v.broadcast, ..v },
                    seq![],
                ),
                keymap::Action::ListBuffers => (v, seq![state::plain(Effect::ListBuffers)], Ok(None)),
                _ => (v, seq![], Ok(None)),
            },
            _ => (v, seq![], Ok(None)),
        },
    }
}

fn copy_text(s: &Option<String>) -> (r: Option<String>)
    ensures
        keymap::text_view(r) == keymap::text_view(*s),
{
    match s {
        Some(t) => Some(t.clone()),
        None => None,
    }
}

fn as_command(a: &keymap::Action) -> (r: Option<Command>)
    ensures
        match r {
            Some(c) => command_of(a@) == Some(c@),
            None => command_of(a@) is None,
        },
{
    match a {
        keymap::Action::NewWindow { name } => Some(Command::NewWindow { name: copy_text(name) }),
        keymap::Action::SelectLayout { name } => Some(Command::SelectLayout { name: name.clone() }),
        keymap::Action::DisplayMessage { text } => Some(
            Command::DisplayMessage { text: text.clone() },
        ),
        keymap::Action::SetOption { key, value } => Some(
            Command::SetOption { key: key.clone(), value: value.clone() },
        ),
        keymap::Action::SplitWindowH => Some(Command::SplitHorizontal),
        keymap::Action::SplitWindowV => Some(Command::SplitVertical),
        keymap::Action::KillPane => Some(Command::KillPane),
        keymap::Action::KillWindow => Some(Command::KillWindow),
        keymap::Action::SelectPane { dir } => Some(Command::SelectPane { dir: *dir }),
        keymap::Action::ResizePane { dir, amount } => Some(
            Command::ResizePane { dir: *dir, amount: *amount },
        ),
        keymap::Action::SwapPane { up } => Some(Command::SwapPane { up: *up }),
        _ => None,
    }
}

/// Executes an action that a key is bound to.
pub fn execute_action(
    ui: &mut Ui,
    action: &keymap::Action,
    env: &Env,
    effects: &mut Vec<Effect>,
) -> (r: Result<Option<String>, String>)
    requires
        old(ui).wf(),
    ensures
        final(ui).wf(),
        ({
            let (v, w, o) = action_step(old(ui)@, action@, *env);
            final(ui)@ == v && state::work(final(effects)@) == state::work(old(effects)@) + w && comes_to(r, o)
        }),
{
    let ghost before = state::work(effects@);
    assert(before + seq![] =~= before);
    match as_command(action) {
        Some(c) => {
            return run_command(ui, c, env, effects);
        },
        None => {},
    }
    match action {
        keymap::Action::SetBuffer { name, value } => {
            ask(effects, Effect::SetBuffer { name: name.clone(), value: value.clone() });
            assert(state::work(effects@) =~= before + seq![
                Work::SetBuffer { name: name@, value: value@ },
            ]);
        },
        keymap::Action::PasteBuffer { name } => {
            ask(effects, Effect::PasteBuffer { name: copy_text(name) });
            assert(state::work(effects@) =~= before + seq![
                Work::PasteBuffer { name: keymap::text_view(*name) },
            ]);
        },
        keymap::Action::Equalize => {
            even_out(ui, effects);
            ui.redraw();
            assert(state::work(effects@) =~= before + seq![state::plain(Effect::ResizeAll)]);
        },
        keymap::Action::ReloadConfig => {
            ui.ask_reload();
        },
        keymap::Action::ToggleSettings => {
            ui.settings.toggle();
            ui.redraw();
        },
        keymap::Action::ToggleBroadcast => {
            let on = !ui.broadcast;
            ui.set_broadcast(on);
            ui.redraw();
        },
        keymap::Action::ListBuffers => {
            ask(effects, Effect::ListBuffers);
            assert(state::work(effects@) =~= before + seq![state::plain(Effect::ListBuffers)]);
        },
        _ => {},
    }
    Ok(None)
}

} // verus!
