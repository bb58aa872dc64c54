//! Keyboard input: what each key does in each input mode.

use std::collections::HashMap;

use vstd::prelude::*;
use vstd::string::*;

use crate::bytes;
use crate::codec;
use crate::keymap;
use crate::keymap::{KeyChord, Keymap, KeymapTable};
use crate::keys::{KeyCode, KeyEvent, KeyEventKind, KeyModifiers};
use crate::layout;
use crate::layout::{Direction, NavDir};
use crate::pane::intercept;
use crate::pane::Pane;
use crate::protocol::push_bytes;
use crate::ratio;
use crate::server::actions;
use crate::server::actions::Outcome;
use crate::server::state;
use crate::server::state::{
    ask, ConfirmView, CopyModeState, CopyScroll, Effect, Env, InputMode, ModeView,
    Osc52ConfirmState, PaletteView, TabAction, TabActionView, Ui, UiView, UpdateView, Work,
};
use crate::settings;
use crate::settings::SettingsAction;
use crate::text;

verus! {

broadcast use vstd::std_specs::hash::group_hash_axioms;

/// The state after a key and the work that it asks for.
pub type KeyStep = (UiView, Seq<Work>);

/// Nothing but the state changes.
pub open spec fn only(v: UiView) -> KeyStep {
    (v, seq![])
}

// ─── Clipboard prompt ──────────────────────────────────────

/// The prompt is answered.
pub open spec fn settled(v: UiView) -> UiView {
    UiView {
        osc52_confirm: None,
        update: UpdateView { full_redraw: true, status_dirty: true, ..v.update },
        ..v
    }
}

/// While the prompt is open it takes every key: `y` lets the pane write the
/// clipboard, `n` does not, Esc leaves the question for later.
pub open spec fn confirm_step(v: UiView, c: ConfirmView, code: KeyCode, panes: Map<usize, Pane>) -> KeyStep {
    let known = panes.contains_key(c.pane_id);
    if code == KeyCode::Char('y') || code == KeyCode::Char('Y') {
        (
            settled(v),
            if known {
                seq![Work::AllowClipboard { pane: c.pane_id, forward: c.queued_payloads }]
            } else {
                seq![]
            },
        )
    } else if code == KeyCode::Char('n') || code == KeyCode::Char('N') {
        (
            settled(v),
            if known {
                seq![state::plain(Effect::DenyClipboard { pane: c.pane_id })]
            } else {
                seq![]
            },
        )
    } else if code == KeyCode::Esc {
        (
            settled(v),
            if known {
                seq![Work::RequeueClipboard { pane: c.pane_id, payloads: c.queued_payloads }]
            } else {
                seq![]
            },
        )
    } else {
        only(v)
    }
}

fn take_confirm(ui: &mut Ui) -> (r: Option<Osc52ConfirmState>)
    ensures
        crate::server::state::confirm_view(r) == old(ui)@.osc52_confirm,
        final(ui)@ == settled(old(ui)@),
{
    let mut taken: Option<Osc52ConfirmState> = None;
    std::mem::swap(&mut taken, &mut ui.osc52_confirm);
    ui.update.full_redraw = true;
    ui.update.status_dirty = true;
    taken
}

fn answer_confirm(
    ui: &mut Ui,
    code: KeyCode,
    panes: &HashMap<usize, Pane>,
    effects: &mut Vec<Effect>,
)
    requires
        old(ui).osc52_confirm is Some,
    ensures
        ({
            let (v, w) = confirm_step(old(ui)@, old(ui)@.osc52_confirm->Some_0, code, panes@);
            final(ui)@ == v && state::work(final(effects)@) == state::work(old(effects)@) + w
        }),
{
    let ghost before = state::work(effects@);
    assert(before + seq![] =~= before);
    let yes = code == KeyCode::Char('y') || code == KeyCode::Char('Y');
    let no = code == KeyCode::Char('n') || code == KeyCode::Char('N');
    if !yes && !no && code != KeyCode::Esc {
        return;
    }
    match take_confirm(ui) {
        Some(state) => {
            if panes.contains_key(&state.pane_id) {
                let ghost c = state@;
                if yes {
                    ask(
                        effects,
                        Effect::AllowClipboard {
                            pane: state.pane_id,
                            forward: state.queued_payloads,
                        },
                    );
                    assert(state::work(effects@) =~= before + seq![
                        Work::AllowClipboard { pane: c.pane_id, forward: c.queued_payloads },
                    ]);
                } else if no {
                    ask(effects, Effect::DenyClipboard { pane: state.pane_id });
                    assert(state::work(effects@) =~= before + seq![
                        state::plain(Effect::DenyClipboard { pane: c.pane_id }),
                    ]);
                } else {
                    ask(
                        effects,
                        Effect::RequeueClipboard {
                            pane: state.pane_id,
                            payloads: state.queued_payloads,
                        },
                    );
                    assert(state::work(effects@) =~= before + seq![
                        Work::RequeueClipboard { pane: c.pane_id, payloads: c.queued_payloads },
                    ]);
                }
            }
        },
        None => {},
    }
}

// ─── Keys bound by the user ────────────────────────────────

/// The table of bindings that is looked at in a mode.
pub open spec fn table_for(v: UiView) -> Option<KeymapTable> {
    match v.mode {
        ModeView::Prefix { .. } => Some(KeymapTable::Prefix),
        ModeView::CopyMode(_) => Some(KeymapTable::CopyMode),
        ModeView::Normal => if v.settings.visible {
            None
        } else {
            Some(KeymapTable::Normal)
        },
        _ => None,
    }
}

/// Copy mode begins on the last row of the pane.
pub open spec fn copy_start(env: Env) -> CopyModeState {
    CopyModeState {
        cursor_row: if env.screen.0 > 0 {
            (env.screen.0 - 1) as u16
        } else {
            0
        },
        pane_rows: env.screen.0,
        pane_cols: env.screen.1,
    }
}

/// The prompt for a new name begins with a mark that the current name is to be
/// put in its place.
pub open spec fn rename_start() -> ModeView {
    ModeView::RenameTab { buffer: seq!['\0'] }
}

/// The command palette is opened.
pub open spec fn palette_opened(v: UiView) -> UiView {
    state::in_mode(state::palette_reset(v, true), ModeView::CommandPalette { buffer: seq![] })
}

/// The transient message that an outcome leaves.
pub open spec fn told(v: UiView, o: Outcome, now: u64) -> UiView {
    match o {
        Ok(Some(text)) => UiView { flash_message: Some((text, now)), ..v },
        Ok(None) => v,
        Err(text) => UiView { flash_message: Some((text, now)), ..v },
    }
}

/// An action that changes neither mode nor tab. A key after the prefix leads
/// back to normal mode.
pub open spec fn acted(v: UiView, t: KeymapTable, a: keymap::ActionView, env: Env) -> KeyStep {
    let (w, asked, o) = actions::action_step(v, a, env);
    let w = told(w, o, env.now);
    (
        if t == KeymapTable::Prefix {
            state::in_mode(w, ModeView::Normal)
        } else {
            w
        },
        asked,
    )
}

/// A key that is bound to an action.
pub open spec fn bound_step(
    v: UiView,
    t: KeymapTable,
    a: keymap::ActionView,
    panes: Map<usize, Pane>,
    env: Env,
) -> KeyStep {
    if a == keymap::ActionView::Plain(keymap::Action::CommandPrompt) {
        (state::redrawn(palette_opened(v)), seq![state::plain(Effect::BuildPalette)])
    } else if a == keymap::ActionView::Plain(keymap::Action::CopyMode) {
        only(
            if panes.contains_key(v.active) {
                state::redrawn(state::in_mode(v, ModeView::CopyMode(copy_start(env))))
            } else {
                v
            },
        )
    } else if a == keymap::ActionView::Plain(keymap::Action::DetachSession) {
        only(state::in_mode(UiView { detach_requested: true, ..v }, ModeView::Normal))
    } else if a == keymap::ActionView::Plain(keymap::Action::KillSession) {
        only(state::redrawn(state::in_mode(v, ModeView::QuitConfirm)))
    } else if a == keymap::ActionView::Plain(keymap::Action::RenameWindow) {
        only(state::in_mode(v, rename_start()))
    } else if a == keymap::ActionView::Plain(keymap::Action::NextWindow) {
        only(state::in_mode(UiView { tab_action: TabActionView::NextTab, ..v }, ModeView::Normal))
    } else if a == keymap::ActionView::Plain(keymap::Action::PreviousWindow) {
        only(state::in_mode(UiView { tab_action: TabActionView::PrevTab, ..v }, ModeView::Normal))
    } else if let keymap::ActionView::Plain(keymap::Action::SelectWindow { index }) = a {
        only(
            state::in_mode(UiView { tab_action: TabActionView::GoToTab(index), ..v }, ModeView::Normal),
        )
    } else {
        acted(v, t, a, env)
    }
}

pub(crate) fn rename_mode() -> (r: InputMode)
    ensures
        r@ == rename_start(),
{
    let mut buffer = String::new();
    buffer.push('\0');
    assert(buffer@ =~= seq!['\0']);
    InputMode::RenameTab { buffer }
}

fn copy_mode(env: &Env) -> (r: InputMode)
    ensures
        r@ == ModeView::CopyMode(copy_start(*env)),
{
    InputMode::CopyMode(
        CopyModeState {
            cursor_row: if env.screen.0 > 0 {
                env.screen.0 - 1
            } else {
                0
            },
            pane_rows: env.screen.0,
            pane_cols: env.screen.1,
        },
    )
}

fn open_palette(ui: &mut Ui)
    ensures
        final(ui)@ == palette_opened(old(ui)@),
{
    ui.reset_palette(true);
    let buffer = String::new();
    assert(buffer@ =~= seq![]);
    ui.set_mode(InputMode::CommandPalette { buffer });
}

fn tell(ui: &mut Ui, r: Result<Option<String>, String>, now: u64, Ghost(o): Ghost<Outcome>)
    requires
        actions::comes_to(r, o),
    ensures
        final(ui)@ == told(old(ui)@, o, now),
{
    match r {
        Ok(Some(text)) => ui.flash(text, now),
        Ok(None) => {},
        Err(text) => ui.flash(text, now),
    }
}

fn act(
    ui: &mut Ui,
    t: KeymapTable,
    action: &keymap::Action,
    env: &Env,
    effects: &mut Vec<Effect>,
)
    requires
        old(ui).wf(),
    ensures
        final(ui).wf(),
        ({
            let (v, w) = acted(old(ui)@, t, action@, *env);
            final(ui)@ == v && state::work(final(effects)@) == state::work(old(effects)@) + w
        }),
{
    let ghost o = actions::action_step(ui@, action@, *env).2;
    let r = actions::execute_action(ui, action, env, effects);
    tell(ui, r, env.now, Ghost(o));
    if t == KeymapTable::Prefix {
        ui.set_mode(InputMode::Normal);
    }
}

#[verifier::spinoff_prover]
fn dispatch_bound(
    ui: &mut Ui,
    t: KeymapTable,
    action: &keymap::Action,
    panes: &HashMap<usize, Pane>,
    env: &Env,
    effects: &mut Vec<Effect>,
)
    requires
        old(ui).wf(),
    ensures
        final(ui).wf(),
        ({
            let (v, w) = bound_step(old(ui)@, t, action@, panes@, *env);
            final(ui)@ == v && state::work(final(effects)@) == state::work(old(effects)@) + w
        }),
{
    let ghost before = state::work(effects@);
    assert(before + seq![] =~= before);
    match action {
        keymap::Action::CommandPrompt => {
            ask(effects, Effect::BuildPalette);
            open_palette(ui);
            ui.redraw();
            assert(state::work(effects@) =~= before + seq![state::plain(Effect::BuildPalette)]);
        },
        keymap::Action::CopyMode => {
            if panes.contains_key(&ui.active) {
                ui.set_mode(copy_mode(env));
                ui.redraw();
            }
        },
        keymap::Action::DetachSession => {
            ui.ask_detach();
            ui.set_mode(InputMode::Normal);
        },
        keymap::Action::KillSession => {
            ui.set_mode(InputMode::QuitConfirm);
            ui.redraw();
        },
        keymap::Action::RenameWindow => {
            ui.set_mode(rename_mode());
        },
        keymap::Action::NextWindow => {
            ui.set_tab_action(TabAction::NextTab);
            ui.set_mode(InputMode::Normal);
        },
        keymap::Action::PreviousWindow => {
            ui.set_tab_action(TabAction::PrevTab);
            ui.set_mode(InputMode::Normal);
        },
        keymap::Action::SelectWindow { index } => {
            ui.set_tab_action(TabAction::GoToTab(*index));
            ui.set_mode(InputMode::Normal);
        },
        _ => {
            act(ui, t, action, env, effects);
        },
    }
}

// ─── Prompts and small modes ───────────────────────────────

/// The key says yes.
pub open spec fn is_yes(code: KeyCode) -> bool {
    code == KeyCode::Char('y') || code == KeyCode::Enter
}

fn says_yes(code: KeyCode) -> (r: bool)
    ensures
        r == is_yes(code),
{
    code == KeyCode::Char('y') || code == KeyCode::Enter
}

/// Back to normal mode, with everything drawn.
pub open spec fn left_mode(v: UiView) -> UiView {
    state::redrawn(state::in_mode(v, ModeView::Normal))
}

fn leave_mode(ui: &mut Ui)
    ensures
        final(ui)@ == left_mode(old(ui)@),
{
    ui.set_mode(InputMode::Normal);
    ui.redraw();
}

/// The question whether to end the session.
pub open spec fn quit_step(v: UiView, code: KeyCode) -> UiView {
    if is_yes(code) {
        UiView { tab_action: TabActionView::KillSession, ..v }
    } else {
        left_mode(v)
    }
}

/// The question whether to close the tab.
pub open spec fn close_tab_step(v: UiView, code: KeyCode) -> UiView {
    if is_yes(code) {
        state::in_mode(UiView { tab_action: TabActionView::CloseTab, ..v }, ModeView::Normal)
    } else {
        left_mode(v)
    }
}

/// The question whether to close the active pane.
pub open spec fn close_pane_step(v: UiView, code: KeyCode) -> KeyStep {
    if is_yes(code) {
        (state::in_mode(state::with_border_dirty(v), ModeView::Normal), actions::close_work(v.active))
    } else {
        only(left_mode(v))
    }
}

/// The number that a digit stands for: the first nine from `1`, and `0` is the
/// tenth.
pub open spec fn digit_index(c: char) -> Option<usize> {
    if c == '0' {
        Some(9)
    } else if '1' <= c <= '9' {
        Some((c as int - '1' as int) as usize)
    } else {
        None
    }
}

fn index_of_digit(c: char) -> (r: Option<usize>)
    ensures
        r == digit_index(c),
{
    if c == '0' {
        Some(9)
    } else if '1' <= c && c <= '9' {
        Some((c as u32 - '1' as u32) as usize)
    } else {
        None
    }
}

/// A digit gives the pane of that number the focus.
pub open spec fn pane_select_step(v: UiView, code: KeyCode, panes: Map<usize, Pane>) -> UiView {
    let all = layout::ids(v.layout.root);
    let picked = match code {
        KeyCode::Char(c) => match digit_index(c) {
            Some(i) => if i < all.len() && panes.contains_key(all[i as int]) {
                UiView { active: all[i as int], ..v }
            } else {
                v
            },
            None => v,
        },
        _ => v,
    };
    left_mode(picked)
}

fn select_pane(ui: &mut Ui, code: KeyCode, panes: &HashMap<usize, Pane>)
    requires
        old(ui).wf(),
    ensures
        final(ui)@ == pane_select_step(old(ui)@, code, panes@),
{
    match code {
        KeyCode::Char(c) => {
            match index_of_digit(c) {
                Some(i) => {
                    let all = ui.layout.pane_ids();
                    if i < all.len() {
                        let target: usize = all[i];
                        if panes.contains_key(&target) {
                            ui.set_active(target);
                        }
                    }
                },
                None => {},
            }
        },
        _ => {},
    }
    leave_mode(ui);
}

/// A text without its last character.
pub open spec fn popped(s: Seq<char>) -> Seq<char> {
    if s.len() > 0 {
        s.drop_last()
    } else {
        s
    }
}

/// The prompt for the name of the tab.
pub open spec fn rename_step(v: UiView, buffer: Seq<char>, key: KeyEvent) -> UiView {
    match key.code {
        KeyCode::Char(c) => if key.modifiers.control {
            v
        } else {
            state::redrawn(state::in_mode(v, ModeView::RenameTab { buffer: buffer.push(c) }))
        },
        KeyCode::Backspace => state::redrawn(
            state::in_mode(v, ModeView::RenameTab { buffer: popped(buffer) }),
        ),
        KeyCode::Enter => left_mode(
            if buffer.len() > 0 {
                UiView { tab_action: TabActionView::Rename(buffer), ..v }
            } else {
                v
            },
        ),
        KeyCode::Esc => left_mode(v),
        _ => v,
    }
}

/// Takes the text of a prompt out of its mode.
fn take_buffer(ui: &mut Ui) -> (r: String)
    ensures
        match old(ui)@.mode {
            ModeView::RenameTab { buffer } => r@ == buffer,
            ModeView::CommandPalette { buffer } => r@ == buffer,
            _ => true,
        },
        final(ui)@ == state::in_mode(old(ui)@, ModeView::Normal),
{
    let mut mode = InputMode::Normal;
    std::mem::swap(&mut mode, &mut ui.mode);
    match mode {
        InputMode::RenameTab { buffer } => buffer,
        InputMode::CommandPalette { buffer } => buffer,
        _ => String::new(),
    }
}

fn rename_key(ui: &mut Ui, key: KeyEvent)
    requires
        old(ui).mode is RenameTab,
    ensures
        final(ui)@ == rename_step(old(ui)@, old(ui)@.mode->RenameTab_buffer, key),
{
    match key.code {
        KeyCode::Char(c) => {
            if !key.modifiers.control {
                let mut buffer = take_buffer(ui);
                buffer.push(c);
                ui.set_mode(InputMode::RenameTab { buffer });
                ui.redraw();
            }
        },
        KeyCode::Backspace => {
            let mut buffer = take_buffer(ui);
            let _ = buffer.pop();
            ui.set_mode(InputMode::RenameTab { buffer });
            ui.redraw();
        },
        KeyCode::Enter => {
            let buffer = take_buffer(ui);
            if !buffer.as_str().is_empty() {
                ui.set_tab_action(TabAction::Rename(buffer));
            }
            ui.redraw();
        },
        KeyCode::Esc => leave_mode(ui),
        _ => {},
    }
}

// ─── Command palette ───────────────────────────────────────

/// The palette with another query.
pub open spec fn with_query(v: UiView, buffer: Seq<char>, query: Seq<char>) -> UiView {
    state::redrawn(
        state::in_mode(
            UiView { palette: PaletteView { query, selected: 0, ..v.palette }, ..v },
            ModeView::CommandPalette { buffer },
        ),
    )
}

/// The palette with another candidate selected.
pub open spec fn with_selected(v: UiView, selected: usize) -> UiView {
    state::redrawn(UiView { palette: PaletteView { selected, ..v.palette }, ..v })
}

/// The work that a command line asks for. One that is not blank is remembered.
pub open spec fn line_work(line: Seq<char>) -> Seq<Work> {
    if text::trim(line).len() > 0 {
        seq![Work::PushHistory(line), Work::RunCommand(line)]
    } else {
        seq![Work::RunCommand(line)]
    }
}

/// A key in the command palette.
pub open spec fn palette_step(v: UiView, buffer: Seq<char>, key: KeyEvent) -> KeyStep {
    match key.code {
        KeyCode::Char(c) => if key.modifiers.control {
            only(v)
        } else {
            only(with_query(v, buffer.push(c), v.palette.query.push(c)))
        },
        KeyCode::Backspace => only(with_query(v, popped(buffer), popped(v.palette.query))),
        KeyCode::Up => only(
            with_selected(
                v,
                if v.palette.selected > 0 {
                    (v.palette.selected - 1) as usize
                } else {
                    0
                },
            ),
        ),
        KeyCode::Down => only(
            with_selected(
                v,
                if v.palette.selected < usize::MAX {
                    (v.palette.selected + 1) as usize
                } else {
                    usize::MAX
                },
            ),
        ),
        KeyCode::Tab => if v.palette.indexed {
            (
                v,
                seq![
                    Work::CompletePalette {
                        query: v.palette.query,
                        selected: v.palette.selected,
                    },
                ],
            )
        } else {
            only(v)
        },
        KeyCode::Enter => (state::palette_reset(state::in_mode(v, ModeView::Normal), false), line_work(buffer)),
        KeyCode::Esc => only(state::redrawn(state::palette_reset(state::in_mode(v, ModeView::Normal), false))),
        _ => only(v),
    }
}

fn set_query(ui: &mut Ui, buffer: String, query: String)
    ensures
        final(ui)@ == with_query(old(ui)@, buffer@, query@),
{
    ui.palette.query = query;
    ui.palette.selected = 0;
    ui.set_mode(InputMode::CommandPalette { buffer });
    ui.redraw();
}

fn set_selected(ui: &mut Ui, selected: usize)
    ensures
        final(ui)@ == with_selected(old(ui)@, selected),
{
    ui.palette.selected = selected;
    ui.redraw();
}

fn run_line(line: String, effects: &mut Vec<Effect>)
    ensures
        state::work(final(effects)@) == state::work(old(effects)@) + line_work(line@),
{
    let ghost before = state::work(effects@);
    if text::trim_text(line.as_str()).is_empty() {
        ask(effects, Effect::RunCommand(line));
    } else {
        ask(effects, Effect::PushHistory(line.clone()));
        ask(effects, Effect::RunCommand(line));
    }
    assert(state::work(effects@) =~= before + line_work(line@));
}

fn palette_key(ui: &mut Ui, key: KeyEvent, effects: &mut Vec<Effect>)
    requires
        old(ui).mode is CommandPalette,
    ensures
        ({
            let (v, w) = palette_step(old(ui)@, old(ui)@.mode->CommandPalette_buffer, key);
            final(ui)@ == v && state::work(final(effects)@) == state::work(old(effects)@) + w
        }),
{
    let ghost before = state::work(effects@);
    assert(before + seq![] =~= before);
    match key.code {
        KeyCode::Char(c) => {
            if !key.modifiers.control {
                let mut buffer = take_buffer(ui);
                buffer.push(c);
                let mut query = ui.palette.query.clone();
                query.push(c);
                set_query(ui, buffer, query);
            }
        },
        KeyCode::Backspace => {
            let mut buffer = take_buffer(ui);
            let _ = buffer.pop();
            let mut query = ui.palette.query.clone();
            let _ = query.pop();
            set_query(ui, buffer, query);
        },
        KeyCode::Up => {
            let n: usize = ui.palette.selected;
            set_selected(ui, if n > 0 { n - 1 } else { 0 });
        },
        KeyCode::Down => {
            let n: usize = ui.palette.selected;
            set_selected(ui, if n < usize::MAX { n + 1 } else { usize::MAX });
        },
        KeyCode::Tab => {
            if ui.palette.indexed {
                ask(
                    effects,
                    Effect::CompletePalette {
                        query: ui.palette.query.clone(),
                        selected: ui.palette.selected,
                    },
                );
                assert(state::work(effects@) =~= before + seq![
                    Work::CompletePalette {
                        query: ui@.palette.query,
                        selected: ui@.palette.selected,
                    },
                ]);
            }
        },
        KeyCode::Enter => {
            let buffer = take_buffer(ui);
            ui.reset_palette(false);
            run_line(buffer, effects);
        },
        KeyCode::Esc => {
            let _ = take_buffer(ui);
            ui.reset_palette(false);
            ui.redraw();
        },
        _ => {},
    }
}

/// Puts the selected candidate in the place of the query.
pub fn complete_palette(ui: &mut Ui, payload: &str)
    ensures
        final(ui)@ == (if old(ui)@.mode is CommandPalette {
            with_query(old(ui)@, payload@, payload@)
        } else {
            old(ui)@
        }),
{
    match ui.mode {
        InputMode::CommandPalette { .. } => {
            set_query(ui, payload.to_owned(), payload.to_owned());
        },
        _ => {},
    }
}

// ─── Resize mode ───────────────────────────────────────────

/// The direction in which a key of resize mode pushes.
pub open spec fn resize_dir(code: KeyCode) -> Option<NavDir> {
    if code == KeyCode::Left || code == KeyCode::Char('h') {
        Some(NavDir::Left)
    } else if code == KeyCode::Right || code == KeyCode::Char('l') {
        Some(NavDir::Right)
    } else if code == KeyCode::Up || code == KeyCode::Char('k') {
        Some(NavDir::Up)
    } else if code == KeyCode::Down || code == KeyCode::Char('j') {
        Some(NavDir::Down)
    } else {
        None
    }
}

fn dir_of_resize(code: KeyCode) -> (r: Option<NavDir>)
    ensures
        r == resize_dir(code),
{
    if code == KeyCode::Left || code == KeyCode::Char('h') {
        Some(NavDir::Left)
    } else if code == KeyCode::Right || code == KeyCode::Char('l') {
        Some(NavDir::Right)
    } else if code == KeyCode::Up || code == KeyCode::Char('k') {
        Some(NavDir::Up)
    } else if code == KeyCode::Down || code == KeyCode::Char('j') {
        Some(NavDir::Down)
    } else {
        None
    }
}

/// A key in resize mode.
pub open spec fn resize_step(v: UiView, code: KeyCode) -> KeyStep {
    match resize_dir(code) {
        Some(nav) => actions::resized(v, nav, ratio::step()),
        None => if code == KeyCode::Char('q') || code == KeyCode::Esc {
            only(left_mode(v))
        } else {
            only(v)
        },
    }
}

fn resize_key(ui: &mut Ui, code: KeyCode, effects: &mut Vec<Effect>)
    requires
        old(ui).wf(),
    ensures
        final(ui).wf(),
        ({
            let (v, w) = resize_step(old(ui)@, code);
            final(ui)@ == v && state::work(final(effects)@) == state::work(old(effects)@) + w
        }),
{
    assert(state::work(effects@) + seq![] =~= state::work(effects@));
    match dir_of_resize(code) {
        Some(nav) => {
            let delta = ratio::step();
            actions::resize_active(ui, nav, delta, effects);
        },
        None => {
            if code == KeyCode::Char('q') || code == KeyCode::Esc {
                leave_mode(ui);
            }
        },
    }
}

// ─── Copy mode ─────────────────────────────────────────────

/// How a key scrolls the pane before copy mode handles it.
pub open spec fn scroll_for(s: CopyModeState, key: KeyEvent) -> CopyScroll {
    let ctrl = key.modifiers.control;
    let last = if s.pane_rows > 0 {
        s.pane_rows - 1
    } else {
        0
    };
    let code = key.code;
    if (code == KeyCode::Char('k') || code == KeyCode::Up) && s.cursor_row == 0 {
        CopyScroll::Up(1)
    } else if (code == KeyCode::Char('j') || code == KeyCode::Down) && s.cursor_row >= last {
        CopyScroll::Down(1)
    } else if code == KeyCode::Char('g') && !ctrl {
        CopyScroll::Top
    } else if code == KeyCode::Char('G') {
        CopyScroll::Bottom
    } else if code == KeyCode::Char('u') && ctrl {
        CopyScroll::Up(s.pane_rows / 2)
    } else if code == KeyCode::Char('d') && ctrl {
        CopyScroll::Down(s.pane_rows / 2)
    } else if code == KeyCode::PageUp {
        CopyScroll::Up(s.pane_rows)
    } else if code == KeyCode::PageDown {
        CopyScroll::Down(s.pane_rows)
    } else {
        CopyScroll::Stay
    }
}

/// How a key scrolls the pane in copy mode.
pub fn copy_scroll(s: &CopyModeState, key: KeyEvent) -> (r: CopyScroll)
    ensures
        r == scroll_for(*s, key),
{
    let ctrl = key.modifiers.control;
    let last: u16 = if s.pane_rows > 0 {
        s.pane_rows - 1
    } else {
        0
    };
    let code = key.code;
    if (code == KeyCode::Char('k') || code == KeyCode::Up) && s.cursor_row == 0 {
        CopyScroll::Up(1)
    } else if (code == KeyCode::Char('j') || code == KeyCode::Down) && s.cursor_row >= last {
        CopyScroll::Down(1)
    } else if code == KeyCode::Char('g') && !ctrl {
        CopyScroll::Top
    } else if code == KeyCode::Char('G') {
        CopyScroll::Bottom
    } else if code == KeyCode::Char('u') && ctrl {
        CopyScroll::Up(s.pane_rows / 2)
    } else if code == KeyCode::Char('d') && ctrl {
        CopyScroll::Down(s.pane_rows / 2)
    } else if code == KeyCode::PageUp {
        CopyScroll::Up(s.pane_rows)
    } else if code == KeyCode::PageDown {
        CopyScroll::Down(s.pane_rows)
    } else {
        CopyScroll::Stay
    }
}

/// A key in copy mode goes to the active pane, if there is one.
pub open spec fn copy_step(v: UiView, s: CopyModeState, key: KeyEvent, panes: Map<usize, Pane>) -> KeyStep {
    if panes.contains_key(v.active) {
        (
            state::pane_marked(v, v.active),
            seq![
                state::plain(Effect::CopyKey { pane: v.active, key, scroll: scroll_for(s, key) }),
            ],
        )
    } else {
        only(v)
    }
}

fn copy_key(
    ui: &mut Ui,
    s: CopyModeState,
    key: KeyEvent,
    panes: &HashMap<usize, Pane>,
    effects: &mut Vec<Effect>,
)
    ensures
        ({
            let (v, w) = copy_step(old(ui)@, s, key, panes@);
            final(ui)@ == v && state::work(final(effects)@) == state::work(old(effects)@) + w
        }),
{
    let ghost before = state::work(effects@);
    assert(before + seq![] =~= before);
    let active: usize = ui.active;
    if panes.contains_key(&active) {
        let scroll = copy_scroll(&s, key);
        ask(effects, Effect::CopyKey { pane: active, key, scroll });
        ui.mark_pane(active);
        assert(state::work(effects@) =~= before + seq![
            state::plain(Effect::CopyKey { pane: active, key, scroll }),
        ]);
    }
}

/// What copy mode made of a key.
#[derive(Debug)]
pub enum CopyOutcome {
    /// Copy mode goes on from a new place.
    Moved(CopyModeState),
    Exit,
    /// A text was copied. `clipboard` tells whether the system's clipboard took
    /// it.
    CopyAndExit { text: String, clipboard: bool },
}

/// The clipboard sequence that holds a text, given what the text encodes to.
pub open spec fn clipboard_sequence(encoded: Seq<char>) -> Seq<char> {
    "\x1b]52;c;"@ + encoded + "\x07"@
}

/// The state after copy mode handled a key.
pub open spec fn copy_done(v: UiView, o: CopyOutcome) -> UiView {
    match o {
        CopyOutcome::Moved(s) => state::in_mode(v, ModeView::CopyMode(s)),
        _ => state::in_mode(v, ModeView::Normal),
    }
}

/// Takes over what copy mode made of a key.
pub fn copy_finished(ui: &mut Ui, outcome: &CopyOutcome)
    ensures
        final(ui)@ == copy_done(old(ui)@, *outcome),
{
    match outcome {
        CopyOutcome::Moved(s) => ui.set_mode(InputMode::CopyMode(*s)),
        CopyOutcome::Exit => ui.set_mode(InputMode::Normal),
        CopyOutcome::CopyAndExit { .. } => ui.set_mode(InputMode::Normal),
    }
}

/// The clipboard sequence of a text, as bytes.
pub open spec fn copied_bytes(text: Seq<char>) -> Seq<u8> {
    vstd::utf8::encode_utf8(
        clipboard_sequence(codec::base64_of(vstd::utf8::encode_utf8(text))),
    )
}

/// The sequence that asks the user's terminal to take a text to its clipboard.
pub fn copy_sequence(text: &str) -> (r: Vec<u8>)
    ensures
        r@ == copied_bytes(text@),
{
    let mut s = "\x1b]52;c;".to_owned();
    let encoded = codec::base64_encode(text.as_bytes());
    s.append(encoded.as_str());
    s.append("\x07");
    let mut out: Vec<u8> = Vec::new();
    push_bytes(&mut out, s.as_str().as_bytes());
    assert(out@ =~= vstd::utf8::encode_utf8(s@));
    out
}

/// The sequence that a pane is to send when copy mode ends: that of the copied
/// text where the system's clipboard did not take it.
pub fn copy_fallback(outcome: &CopyOutcome) -> (r: Option<Vec<u8>>)
    ensures
        codec::bytes_view(r) == (match *outcome {
            CopyOutcome::CopyAndExit { text, clipboard } => if clipboard {
                None
            } else {
                Some(copied_bytes(text@))
            },
            _ => None,
        }),
{
    match outcome {
        CopyOutcome::CopyAndExit { text, clipboard } => {
            if *clipboard {
                None
            } else {
                Some(copy_sequence(text.as_str()))
            }
        },
        _ => None,
    }
}

/// The pane that copy mode was in, after a key: while copy mode goes on it
/// stays as it is; when copy mode ends it shows its newest lines again, and
/// the sequence of a text that the system's clipboard did not take waits for
/// the clients.
pub open spec fn pane_copied(before: Pane, after: Pane, o: CopyOutcome) -> bool {
    match o {
        CopyOutcome::Moved(_) => after == before,
        CopyOutcome::Exit => after == (Pane { scroll_offset: 0, ..before }),
        CopyOutcome::CopyAndExit { text, clipboard } => {
            &&& after == (Pane { scroll_offset: 0, ctx: after.ctx, ..before })
            &&& after.ctx@ == (intercept::CtxView {
                osc52_pending: if clipboard {
                    before.ctx@.osc52_pending
                } else {
                    before.ctx@.osc52_pending.push(copied_bytes(text@))
                },
                ..before.ctx@
            })
        },
    }
}

/// Takes over, for the pane, what copy mode made of a key.
pub fn copy_left(pane: &mut Pane, outcome: &CopyOutcome)
    ensures
        pane_copied(*old(pane), *final(pane), *outcome),
{
    match outcome {
        CopyOutcome::Moved(_) => {},
        CopyOutcome::Exit => pane.snap_to_bottom(),
        CopyOutcome::CopyAndExit { .. } => {
            match copy_fallback(outcome) {
                Some(sequence) => {
                    proof {
                        bytes::lemma_lists_push(pane.ctx.osc52_pending@, sequence);
                    }
                    pane.ctx.osc52_pending.push(sequence);
                },
                None => {},
            }
            pane.snap_to_bottom();
        },
    }
}

// ─── Prefix mode ───────────────────────────────────────────

/// The direction of an arrow key.
pub open spec fn arrow(code: KeyCode) -> Option<NavDir> {
    match code {
        KeyCode::Left => Some(NavDir::Left),
        KeyCode::Right => Some(NavDir::Right),
        KeyCode::Up => Some(NavDir::Up),
        KeyCode::Down => Some(NavDir::Down),
        _ => None,
    }
}

fn arrow_dir(code: KeyCode) -> (r: Option<NavDir>)
    ensures
        r == arrow(code),
{
    match code {
        KeyCode::Left => Some(NavDir::Left),
        KeyCode::Right => Some(NavDir::Right),
        KeyCode::Up => Some(NavDir::Up),
        KeyCode::Down => Some(NavDir::Down),
        _ => None,
    }
}

/// The mode that a character after the prefix leads to.
pub open spec fn mode_after(c: char, v: UiView, panes: Map<usize, Pane>, env: Env) -> ModeView {
    if c == 'x' {
        ModeView::CloseConfirm
    } else if c == '[' && panes.contains_key(v.active) {
        ModeView::CopyMode(copy_start(env))
    } else if c == 'R' {
        ModeView::ResizeMode
    } else if c == 'q' {
        ModeView::PaneSelect
    } else if c == '?' {
        ModeView::HelpOverlay
    } else if c == '&' {
        ModeView::CloseTabConfirm
    } else if c == ',' {
        rename_start()
    } else if c == ':' {
        ModeView::CommandPalette { buffer: seq![] }
    } else {
        ModeView::Normal
    }
}

fn mode_of(c: char, ui: &Ui, panes: &HashMap<usize, Pane>, env: &Env) -> (r: InputMode)
    ensures
        r@ == mode_after(c, ui@, panes@, *env),
{
    if c == 'x' {
        InputMode::CloseConfirm
    } else if c == '[' && panes.contains_key(&ui.active) {
        copy_mode(env)
    } else if c == 'R' {
        InputMode::ResizeMode
    } else if c == 'q' {
        InputMode::PaneSelect
    } else if c == '?' {
        InputMode::HelpOverlay
    } else if c == '&' {
        InputMode::CloseTabConfirm
    } else if c == ',' {
        rename_mode()
    } else if c == ':' {
        let buffer = String::new();
        assert(buffer@ =~= seq![]);
        InputMode::CommandPalette { buffer }
    } else {
        InputMode::Normal
    }
}

/// The tab action of a character after the prefix.
pub open spec fn tab_action_of(c: char) -> Option<TabActionView> {
    if c == 'c' {
        Some(TabActionView::NewTab)
    } else if c == 'n' {
        Some(TabActionView::NextTab)
    } else if c == 'p' {
        Some(TabActionView::PrevTab)
    } else {
        match digit_index(c) {
            Some(i) => Some(TabActionView::GoToTab(i)),
            None => None,
        }
    }
}

fn tab_action_for(c: char) -> (r: Option<TabAction>)
    ensures
        match r {
            Some(a) => tab_action_of(c) == Some(a@),
            None => tab_action_of(c) is None,
        },
{
    if c == 'c' {
        Some(TabAction::NewTab)
    } else if c == 'n' {
        Some(TabAction::NextTab)
    } else if c == 'p' {
        Some(TabAction::PrevTab)
    } else {
        match index_of_digit(c) {
            Some(i) => Some(TabAction::GoToTab(i)),
            None => None,
        }
    }
}

/// Zoom is switched: off where a pane is zoomed, else on for the active pane.
pub open spec fn zoom_switched(v: UiView) -> KeyStep {
    if v.zoomed_pane is Some {
        (
            state::marked(UiView { zoomed_pane: None, ..v }),
            seq![state::plain(Effect::ResizeAll)],
        )
    } else {
        (
            UiView { zoomed_pane: Some(v.active), ..v },
            seq![state::plain(Effect::ResizeZoomed(v.active))],
        )
    }
}

fn switch_zoom(ui: &mut Ui, effects: &mut Vec<Effect>)
    ensures
        ({
            let (v, w) = zoom_switched(old(ui)@);
            final(ui)@ == v && state::work(final(effects)@) == state::work(old(effects)@) + w
        }),
{
    let ghost before = state::work(effects@);
    if ui.zoomed_pane.is_some() {
        ui.set_zoomed(None);
        ask(effects, Effect::ResizeAll);
        ui.mark_layout();
        assert(state::work(effects@) =~= before + seq![state::plain(Effect::ResizeAll)]);
    } else {
        let active: usize = ui.active;
        ui.set_zoomed(Some(active));
        ask(effects, Effect::ResizeZoomed(active));
        assert(state::work(effects@) =~= before + seq![
            state::plain(Effect::ResizeZoomed(active)),
        ]);
    }
}

/// What a character after the prefix changes besides the mode.
pub open spec fn prefix_char(v: UiView, c: char, panes: Map<usize, Pane>, env: Env) -> KeyStep {
    if c == '%' {
        (
            state::with_border_dirty(v),
            actions::split_work(v.active, Direction::Horizontal),
        )
    } else if c == '"' {
        (state::with_border_dirty(v), actions::split_work(v.active, Direction::Vertical))
    } else if c == 'o' {
        only(UiView { active: layout::cycle_next(layout::ids(v.layout.root), v.active), ..v })
    } else if c == 'E' || c == ' ' {
        (actions::evened(v), seq![state::plain(Effect::ResizeAll)])
    } else if c == 'd' {
        only(UiView { detach_requested: true, ..v })
    } else if c == 'r' {
        only(state::reload_asked(v))
    } else if c == 's' {
        (
            actions::chrome_set(v, true, !v.settings.show_status_bar),
            seq![state::plain(Effect::ResizeAll)],
        )
    } else if c == 'z' {
        zoom_switched(v)
    } else if c == '{' {
        only(actions::swapped(v, true))
    } else if c == '}' {
        only(actions::swapped(v, false))
    } else if c == 'B' {
        only(UiView { broadcast: !v.broadcast, ..v })
    } else if c == ';' {
        only(
            if panes.contains_key(v.last_active) {
                UiView { active: v.last_active, ..v }
            } else {
                v
            },
        )
    } else if c == ':' {
        (state::palette_reset(v, true), seq![state::plain(Effect::BuildPalette)])
    } else {
        only(
            match tab_action_of(c) {
                Some(a) => UiView { tab_action: a, ..v },
                None => v,
            },
        )
    }
}

/// A key after the prefix. Everything is drawn anew, and the mode is normal
/// afterwards where the key leads to no other.
pub open spec fn prefix_step(v: UiView, code: KeyCode, panes: Map<usize, Pane>, env: Env) -> KeyStep {
    let v = state::redrawn(v);
    match code {
        KeyCode::Char(c) => {
            let (w, asked) = prefix_char(v, c, panes, env);
            (state::in_mode(w, mode_after(c, v, panes, env)), asked)
        },
        _ => only(
            state::in_mode(
                match arrow(code) {
                    Some(nav) => actions::focus_moved(v, nav, env),
                    None => v,
                },
                ModeView::Normal,
            ),
        ),
    }
}

#[verifier::spinoff_prover]
fn prefix_char_key(
    ui: &mut Ui,
    c: char,
    panes: &HashMap<usize, Pane>,
    env: &Env,
    effects: &mut Vec<Effect>,
)
    requires
        old(ui).wf(),
    ensures
        final(ui).wf(),
        ({
            let (v, w) = prefix_char(old(ui)@, c, panes@, *env);
            final(ui)@ == v && state::work(final(effects)@) == state::work(old(effects)@) + w
        }),
{
    let ghost before = state::work(effects@);
    assert(before + seq![] =~= before);
    let active: usize = ui.active;
    if c == '%' {
        actions::split_pane(ui, active, Direction::Horizontal, effects);
    } else if c == '"' {
        actions::split_pane(ui, active, Direction::Vertical, effects);
    } else if c == 'o' {
        let next: usize = ui.layout.next_pane(active);
        ui.set_active(next);
    } else if c == 'E' || c == ' ' {
        actions::even_out(ui, effects);
        assert(state::work(effects@) =~= before + seq![state::plain(Effect::ResizeAll)]);
    } else if c == 'd' {
        ui.ask_detach();
    } else if c == 'r' {
        ui.ask_reload();
    } else if c == 's' {
        let on = !ui.settings.show_status_bar;
        actions::set_chrome(ui, true, on, effects);
        assert(state::work(effects@) =~= before + seq![state::plain(Effect::ResizeAll)]);
    } else if c == 'z' {
        switch_zoom(ui, effects);
    } else if c == '{' {
        actions::swap_active(ui, true);
    } else if c == '}' {
        actions::swap_active(ui, false);
    } else if c == 'B' {
        let on = !ui.broadcast;
        ui.set_broadcast(on);
    } else if c == ';' {
        let last: usize = ui.last_active;
        if panes.contains_key(&last) {
            ui.set_active(last);
        }
    } else if c == ':' {
        ask(effects, Effect::BuildPalette);
        ui.reset_palette(true);
        assert(state::work(effects@) =~= before + seq![state::plain(Effect::BuildPalette)]);
    } else {
        match tab_action_for(c) {
            Some(a) => ui.set_tab_action(a),
            None => {},
        }
    }
}

fn prefix_key(
    ui: &mut Ui,
    code: KeyCode,
    panes: &HashMap<usize, Pane>,
    env: &Env,
    effects: &mut Vec<Effect>,
)
    requires
        old(ui).wf(),
    ensures
        final(ui).wf(),
        ({
            let (v, w) = prefix_step(old(ui)@, code, panes@, *env);
            final(ui)@ == v && state::work(final(effects)@) == state::work(old(effects)@) + w
        }),
{
    assert(state::work(effects@) + seq![] =~= state::work(effects@));
    ui.redraw();
    match code {
        KeyCode::Char(c) => {
            let mode = mode_of(c, ui, panes, env);
            prefix_char_key(ui, c, panes, env, effects);
            ui.set_mode(mode);
        },
        _ => {
            match arrow_dir(code) {
                Some(nav) => {
                    let _ = actions::move_focus(ui, nav, env);
                },
                None => {},
            }
            ui.set_mode(InputMode::Normal);
        },
    }
}

// ─── Normal mode ───────────────────────────────────────────

/// What a change of the settings asks for: new sizes where a bar came or went.
pub open spec fn settings_changed(
    v: UiView,
    s: settings::Settings,
    action: SettingsAction,
) -> KeyStep {
    let w = UiView {
        settings: s,
        broadcast: if action == SettingsAction::BroadcastToggle {
            !v.broadcast
        } else {
            v.broadcast
        },
        ..v
    };
    if s.show_status_bar != v.settings.show_status_bar || s.show_tab_bar
        != v.settings.show_tab_bar {
        (state::marked(w), seq![state::plain(Effect::ResizeAll)])
    } else {
        only(w)
    }
}

/// Carries out what a change of the settings asks for. The bars were shown as
/// `status` and `tabs` before it.
pub fn apply_settings(
    ui: &mut Ui,
    action: SettingsAction,
    status: bool,
    tabs: bool,
    effects: &mut Vec<Effect>,
)
    ensures
        ({
            let before = UiView {
                settings: settings::Settings {
                    show_status_bar: status,
                    show_tab_bar: tabs,
                    ..old(ui)@.settings
                },
                ..old(ui)@
            };
            let (v, w) = settings_changed(before, old(ui)@.settings, action);
            final(ui)@ == v && state::work(final(effects)@) == state::work(old(effects)@) + w
        }),
{
    let ghost before = state::work(effects@);
    assert(before + seq![] =~= before);
    if action == SettingsAction::BroadcastToggle {
        let on = !ui.broadcast;
        ui.set_broadcast(on);
    }
    if ui.settings.show_status_bar != status || ui.settings.show_tab_bar != tabs {
        ask(effects, Effect::ResizeAll);
        ui.mark_layout();
        assert(state::work(effects@) =~= before + seq![state::plain(Effect::ResizeAll)]);
    }
}

/// A key while the settings panel is open.
pub open spec fn settings_step(v: UiView, code: KeyCode) -> KeyStep {
    let (s, action) = settings::key_handled(v.settings, code);
    let (w, asked) = settings_changed(v, s, action);
    (state::redrawn(w), asked)
}

fn settings_key(ui: &mut Ui, key: KeyEvent, effects: &mut Vec<Effect>)
    requires
        old(ui).wf(),
    ensures
        final(ui).wf(),
        ({
            let (v, w) = settings_step(old(ui)@, key.code);
            final(ui)@ == v && state::work(final(effects)@) == state::work(old(effects)@) + w
        }),
{
    let status = ui.settings.show_status_bar;
    let tabs = ui.settings.show_tab_bar;
    let action = ui.settings.handle_key(key);
    apply_settings(ui, action, status, tabs, effects);
    ui.redraw();
}

/// A pane whose program runs.
pub open spec fn runs(panes: Map<usize, Pane>, id: usize) -> bool {
    panes.contains_key(id) && panes[id].alive
}

pub(crate) fn pane_runs(panes: &HashMap<usize, Pane>, id: usize) -> (r: bool)
    ensures
        r == runs(panes@, id),
{
    match panes.get(&id) {
        Some(p) => p.is_alive(),
        None => false,
    }
}

/// A key that goes to the programs: to all that run where keys are broadcast,
/// else to that of the active pane if it runs.
pub open spec fn typed(v: UiView, key: KeyEvent, panes: Map<usize, Pane>) -> Seq<Work> {
    if v.broadcast {
        seq![state::plain(Effect::BroadcastKey(key))]
    } else if runs(panes, v.active) {
        seq![state::plain(Effect::WriteKey { pane: v.active, key })]
    } else {
        seq![]
    }
}

fn send_key(ui: &Ui, key: KeyEvent, panes: &HashMap<usize, Pane>, effects: &mut Vec<Effect>)
    ensures
        state::work(final(effects)@) == state::work(old(effects)@) + typed(ui@, key, panes@),
{
    let ghost before = state::work(effects@);
    if ui.broadcast {
        ask(effects, Effect::BroadcastKey(key));
    } else if pane_runs(panes, ui.active) {
        ask(effects, Effect::WriteKey { pane: ui.active, key });
    }
    assert(state::work(effects@) =~= before + typed(ui@, key, panes@));
}

/// A key with Alt: an arrow moves the focus, any other goes to the programs.
pub open spec fn alt_step(v: UiView, key: KeyEvent, panes: Map<usize, Pane>, env: Env) -> KeyStep {
    match arrow(key.code) {
        Some(nav) => only(
            if actions::can_move(v, nav, env) {
                state::redrawn(actions::focus_moved(v, nav, env))
            } else {
                v
            },
        ),
        None => (v, typed(v, key, panes)),
    }
}

fn alt_key(
    ui: &mut Ui,
    key: KeyEvent,
    panes: &HashMap<usize, Pane>,
    env: &Env,
    effects: &mut Vec<Effect>,
)
    requires
        old(ui).wf(),
    ensures
        final(ui).wf(),
        ({
            let (v, w) = alt_step(old(ui)@, key, panes@, *env);
            final(ui)@ == v && state::work(final(effects)@) == state::work(old(effects)@) + w
        }),
{
    assert(state::work(effects@) + seq![] =~= state::work(effects@));
    match arrow_dir(key.code) {
        Some(nav) => {
            if actions::move_focus(ui, nav, env) {
                ui.redraw();
            }
        },
        None => send_key(ui, key, panes, effects),
    }
}

/// A key in normal mode. The prefix key, the settings panel and the question
/// whether to quit come first; while the panel is open it takes every other
/// key. What is no command goes to the programs; Enter on a pane whose program
/// has ended starts it again.
pub open spec fn normal_step(v: UiView, key: KeyEvent, panes: Map<usize, Pane>, env: Env) -> KeyStep {
    let ctrl = key.modifiers.control;
    let code = key.code;
    if code == KeyCode::Char(env.prefix_key) && ctrl {
        only(state::redrawn(state::in_mode(v, ModeView::Prefix { entered_at: env.now })))
    } else if (code == KeyCode::Char('g') && ctrl) || code == KeyCode::F(1) {
        only(state::redrawn(UiView { settings: settings::toggled(v.settings), ..v }))
    } else if ctrl && (code == KeyCode::Char('\\') || code == KeyCode::Char('q') || code
        == KeyCode::Char('w')) {
        only(state::redrawn(state::in_mode(v, ModeView::QuitConfirm)))
    } else if v.settings.visible {
        settings_step(v, code)
    } else if code == KeyCode::Char('d') && ctrl {
        (
            state::with_border_dirty(v),
            actions::split_work(v.active, Direction::Horizontal),
        )
    } else if code == KeyCode::Char('e') && ctrl {
        (state::with_border_dirty(v), actions::split_work(v.active, Direction::Vertical))
    } else if ctrl && (code == KeyCode::Char(']') || code == KeyCode::Char('n')) {
        only(
            state::redrawn(
                UiView {
                    active: layout::cycle_next(layout::ids(v.layout.root), v.active),
                    ..v
                },
            ),
        )
    } else if code == KeyCode::F(2) {
        (actions::evened(v), seq![state::plain(Effect::ResizeAll)])
    } else if key.modifiers.alt {
        alt_step(v, key, panes, env)
    } else if code == KeyCode::Enter && panes.contains_key(v.active) && !panes[v.active].alive {
        (
            state::pane_marked(v, v.active),
            seq![state::plain(Effect::Respawn { pane: v.active })],
        )
    } else {
        (v, typed(v, key, panes))
    }
}

fn toggle_settings(ui: &mut Ui)
    requires
        old(ui).wf(),
    ensures
        final(ui).wf(),
        final(ui)@ == state::redrawn(
            UiView { settings: settings::toggled(old(ui)@.settings), ..old(ui)@ },
        ),
{
    ui.settings.toggle();
    ui.redraw();
}

#[verifier::spinoff_prover]
fn normal_key(
    ui: &mut Ui,
    key: KeyEvent,
    panes: &HashMap<usize, Pane>,
    env: &Env,
    effects: &mut Vec<Effect>,
)
    requires
        old(ui).wf(),
    ensures
        final(ui).wf(),
        ({
            let (v, w) = normal_step(old(ui)@, key, panes@, *env);
            final(ui)@ == v && state::work(final(effects)@) == state::work(old(effects)@) + w
        }),
{
    let ghost before = state::work(effects@);
    assert(before + seq![] =~= before);
    let ctrl = key.modifiers.control;
    let code = key.code;
    let active: usize = ui.active;
    if code == KeyCode::Char(env.prefix_key) && ctrl {
        ui.set_mode(InputMode::Prefix { entered_at: env.now });
        ui.redraw();
    } else if (code == KeyCode::Char('g') && ctrl) || code == KeyCode::F(1) {
        toggle_settings(ui);
    } else if ctrl && (code == KeyCode::Char('\\') || code == KeyCode::Char('q') || code
        == KeyCode::Char('w')) {
        ui.set_mode(InputMode::QuitConfirm);
        ui.redraw();
    } else if ui.settings.visible {
        settings_key(ui, key, effects);
    } else if code == KeyCode::Char('d') && ctrl {
        actions::split_pane(ui, active, Direction::Horizontal, effects);
    } else if code == KeyCode::Char('e') && ctrl {
        actions::split_pane(ui, active, Direction::Vertical, effects);
    } else if ctrl && (code == KeyCode::Char(']') || code == KeyCode::Char('n')) {
        let next: usize = ui.layout.next_pane(active);
        ui.set_active(next);
        ui.redraw();
    } else if code == KeyCode::F(2) {
        actions::even_out(ui, effects);
        assert(state::work(effects@) =~= before + seq![state::plain(Effect::ResizeAll)]);
    } else if key.modifiers.alt {
        alt_key(ui, key, panes, env, effects);
    } else if code == KeyCode::Enter && panes.contains_key(&active) && !pane_runs(panes, active) {
        ask(effects, Effect::Respawn { pane: active });
        ui.mark_pane(active);
        assert(state::work(effects@) =~= before + seq![
            state::plain(Effect::Respawn { pane: active }),
        ]);
    } else {
        send_key(ui, key, panes, effects);
    }
}

// ─── Keys ──────────────────────────────────────────────────

/// The action that the user bound to a key in the present mode.
pub open spec fn binding(v: UiView, key: KeyEvent, keymap: keymap::KeymapView) -> Option<
    (KeymapTable, keymap::ActionView),
> {
    match table_for(v) {
        Some(t) => {
            let chord = keymap::chord_of_event(key);
            if keymap.table(t).contains_key(chord) {
                Some((t, keymap.table(t)[chord]))
            } else {
                None
            }
        },
        None => None,
    }
}

/// A key that the user did not bind.
pub open spec fn builtin_step(v: UiView, key: KeyEvent, panes: Map<usize, Pane>, env: Env) -> KeyStep {
    match v.mode {
        ModeView::QuitConfirm => only(quit_step(v, key.code)),
        ModeView::CloseTabConfirm => only(close_tab_step(v, key.code)),
        ModeView::CloseConfirm => close_pane_step(v, key.code),
        ModeView::HelpOverlay => only(left_mode(v)),
        ModeView::PaneSelect => only(pane_select_step(v, key.code, panes)),
        ModeView::RenameTab { buffer } => only(rename_step(v, buffer, key)),
        ModeView::CommandPalette { buffer } => palette_step(v, buffer, key),
        ModeView::ResizeMode => resize_step(v, key.code),
        ModeView::CopyMode(s) => copy_step(v, s, key, panes),
        ModeView::Prefix { .. } => prefix_step(v, key.code, panes, env),
        ModeView::Normal => normal_step(v, key, panes, env),
    }
}

/// What a key does: an open clipboard prompt takes it; else what the user
/// bound it to; else what it means in the present mode.
pub open spec fn key_step(
    v: UiView,
    key: KeyEvent,
    keymap: keymap::KeymapView,
    panes: Map<usize, Pane>,
    env: Env,
) -> KeyStep {
    match v.osc52_confirm {
        Some(c) => confirm_step(v, c, key.code, panes),
        None => match binding(v, key, keymap) {
            Some((t, a)) => bound_step(v, t, a, panes, env),
            None => builtin_step(v, key, panes, env),
        },
    }
}

fn table_of_mode(ui: &Ui) -> (r: Option<KeymapTable>)
    ensures
        r == table_for(ui@),
{
    match &ui.mode {
        InputMode::Prefix { .. } => Some(KeymapTable::Prefix),
        InputMode::CopyMode(_) => Some(KeymapTable::CopyMode),
        InputMode::Normal => if ui.settings.visible {
            None
        } else {
            Some(KeymapTable::Normal)
        },
        _ => None,
    }
}

/// The mode without its text.
#[derive(Clone, Copy, Debug, PartialEq, Eq, Structural)]
enum ModeKind {
    Normal,
    Prefix,
    Copy(CopyModeState),
    QuitConfirm,
    CloseConfirm,
    CloseTabConfirm,
    Resize,
    PaneSelect,
    Help,
    Rename,
    Palette,
}

spec fn kind_of(m: ModeView) -> ModeKind {
    match m {
        ModeView::Normal => ModeKind::Normal,
        ModeView::Prefix { .. } => ModeKind::Prefix,
        ModeView::CopyMode(s) => ModeKind::Copy(s),
        ModeView::QuitConfirm => ModeKind::QuitConfirm,
        ModeView::CloseConfirm => ModeKind::CloseConfirm,
        ModeView::CloseTabConfirm => ModeKind::CloseTabConfirm,
        ModeView::ResizeMode => ModeKind::Resize,
        ModeView::PaneSelect => ModeKind::PaneSelect,
        ModeView::HelpOverlay => ModeKind::Help,
        ModeView::RenameTab { .. } => ModeKind::Rename,
        ModeView::CommandPalette { .. } => ModeKind::Palette,
    }
}

fn mode_kind(m: &InputMode) -> (r: ModeKind)
    ensures
        r == kind_of(m@),
{
    match m {
        InputMode::Normal => ModeKind::Normal,
        InputMode::Prefix { .. } => ModeKind::Prefix,
        InputMode::CopyMode(s) => ModeKind::Copy(*s),
        InputMode::QuitConfirm => ModeKind::QuitConfirm,
        InputMode::CloseConfirm => ModeKind::CloseConfirm,
        InputMode::CloseTabConfirm => ModeKind::CloseTabConfirm,
        InputMode::ResizeMode => ModeKind::Resize,
        InputMode::PaneSelect => ModeKind::PaneSelect,
        InputMode::HelpOverlay => ModeKind::Help,
        InputMode::RenameTab { .. } => ModeKind::Rename,
        InputMode::CommandPalette { .. } => ModeKind::Palette,
    }
}

fn answer_quit(ui: &mut Ui, code: KeyCode)
    ensures
        final(ui)@ == quit_step(old(ui)@, code),
{
    if says_yes(code) {
        ui.set_tab_action(TabAction::KillSession);
    } else {
        leave_mode(ui);
    }
}

fn answer_close_tab(ui: &mut Ui, code: KeyCode)
    ensures
        final(ui)@ == close_tab_step(old(ui)@, code),
{
    if says_yes(code) {
        ui.set_tab_action(TabAction::CloseTab);
        ui.set_mode(InputMode::Normal);
    } else {
        leave_mode(ui);
    }
}

fn answer_close_pane(ui: &mut Ui, code: KeyCode, effects: &mut Vec<Effect>)
    requires
        old(ui).wf(),
    ensures
        final(ui).wf(),
        ({
            let (v, w) = close_pane_step(old(ui)@, code);
            final(ui)@ == v && state::work(final(effects)@) == state::work(old(effects)@) + w
        }),
{
    assert(state::work(effects@) + seq![] =~= state::work(effects@));
    if says_yes(code) {
        let target: usize = ui.active;
        actions::close_target(ui, target, effects);
        ui.set_mode(InputMode::Normal);
    } else {
        leave_mode(ui);
    }
}

#[verifier::spinoff_prover]
fn builtin_key(
    ui: &mut Ui,
    key: KeyEvent,
    panes: &HashMap<usize, Pane>,
    env: &Env,
    effects: &mut Vec<Effect>,
)
    requires
        old(ui).wf(),
    ensures
        final(ui).wf(),
        ({
            let (v, w) = builtin_step(old(ui)@, key, panes@, *env);
            final(ui)@ == v && state::work(final(effects)@) == state::work(old(effects)@) + w
        }),
{
    assert(state::work(effects@) + seq![] =~= state::work(effects@));
    match mode_kind(&ui.mode) {
        ModeKind::QuitConfirm => answer_quit(ui, key.code),
        ModeKind::CloseTabConfirm => answer_close_tab(ui, key.code),
        ModeKind::CloseConfirm => answer_close_pane(ui, key.code, effects),
        ModeKind::Help => leave_mode(ui),
        ModeKind::PaneSelect => select_pane(ui, key.code, panes),
        ModeKind::Rename => rename_key(ui, key),
        ModeKind::Palette => palette_key(ui, key, effects),
        ModeKind::Resize => resize_key(ui, key.code, effects),
        ModeKind::Copy(s) => copy_key(ui, s, key, panes, effects),
        ModeKind::Prefix => prefix_key(ui, key.code, panes, env, effects),
        ModeKind::Normal => normal_key(ui, key, panes, env, effects),
    }
}

/// Handles a key that was pressed.
pub fn process_key(
    ui: &mut Ui,
    key: KeyEvent,
    keymap: &Keymap,
    panes: &HashMap<usize, Pane>,
    env: &Env,
    effects: &mut Vec<Effect>,
)
    requires
        old(ui).wf(),
        keymap.wf(),
    ensures
        final(ui).wf(),
        ({
            let (v, w) = key_step(old(ui)@, key, keymap@, panes@, *env);
            final(ui)@ == v && state::work(final(effects)@) == state::work(old(effects)@) + w
        }),
{
    if ui.osc52_confirm.is_some() {
        answer_confirm(ui, key.code, panes, effects);
        return;
    }
    match table_of_mode(ui) {
        Some(t) => {
            let chord = KeyChord::from_event(key);
            match keymap.lookup(t, &chord) {
                Some(action) => {
                    dispatch_bound(ui, t, action, panes, env, effects);
                    return;
                },
                None => {},
            }
        },
        None => {},
    }
    builtin_key(ui, key, panes, env, effects);
}

// ─── Laws ──────────────────────────────────────────────────

/// While the clipboard prompt is open no key reaches anything else: bindings
/// do not matter, and mode, focus and layout stay.
pub proof fn prompt_takes_every_key(
    v: UiView,
    key: KeyEvent,
    one: keymap::KeymapView,
    other: keymap::KeymapView,
    panes: Map<usize, Pane>,
    env: Env,
)
    requires
        v.osc52_confirm is Some,
    ensures
        key_step(v, key, one, panes, env) == key_step(v, key, other, panes, env),
        ({
            let (w, _) = key_step(v, key, one, panes, env);
            w.mode == v.mode && w.active == v.active && w.layout == v.layout && w.settings
                == v.settings
        }),
{
}

/// A binding of the user comes before what the key means by itself.
pub proof fn bindings_come_first(
    v: UiView,
    key: KeyEvent,
    t: KeymapTable,
    a: keymap::ActionView,
    keymap: keymap::KeymapView,
    panes: Map<usize, Pane>,
    env: Env,
)
    requires
        v.osc52_confirm is None,
        table_for(v) == Some(t),
    ensures
        key_step(
            v,
            key,
            keymap.with(t, keymap.table(t).insert(keymap::chord_of_event(key), a)),
            panes,
            env,
        ) == bound_step(v, t, a, panes, env),
{
    let chord = keymap::chord_of_event(key);
    let b = keymap.table(t).insert(chord, a);
    assert(keymap.with(t, b).table(t) == b);
}

/// The prefix holds for one key. The exception is a key bound to copy mode
/// while the active pane is gone, which does nothing.
pub proof fn prefix_holds_for_one_key(
    v: UiView,
    key: KeyEvent,
    keymap: keymap::KeymapView,
    panes: Map<usize, Pane>,
    env: Env,
)
    requires
        v.osc52_confirm is None,
        v.mode is Prefix,
        binding(v, key, keymap) == Some(
            (KeymapTable::Prefix, keymap::ActionView::Plain(keymap::Action::CopyMode)),
        ) ==> panes.contains_key(v.active),
    ensures
        key_step(v, key, keymap, panes, env).0.mode !is Prefix,
{
}

/// Escape leads from every prompt and overlay back to normal mode and asks for
/// no work.
pub proof fn escape_leads_back(
    v: UiView,
    modifiers: KeyModifiers,
    keymap: keymap::KeymapView,
    panes: Map<usize, Pane>,
    env: Env,
)
    requires
        v.osc52_confirm is None,
        v.mode is QuitConfirm || v.mode is CloseConfirm || v.mode is CloseTabConfirm || v.mode
            is ResizeMode || v.mode is PaneSelect || v.mode is HelpOverlay || v.mode is RenameTab
            || v.mode is CommandPalette,
    ensures
        ({
            let key = KeyEvent { code: KeyCode::Esc, modifiers, kind: KeyEventKind::Press };
            let (w, asked) = key_step(v, key, keymap, panes, env);
            w.mode == ModeView::Normal && asked == Seq::<Work>::empty() && w.active == v.active
                && w.layout == v.layout
        }),
{
    assert(seq![] =~= Seq::<Work>::empty());
}

} // verus!
