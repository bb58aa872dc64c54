//! Mouse input: clicks, drags and the wheel.

use std::collections::{HashMap, HashSet};

use vstd::prelude::*;

use crate::keys::{MouseButton, MouseEvent, MouseEventKind};
use crate::layout;
use crate::layout::{Direction, Layout, Rect};
use crate::pane::Pane;
use crate::render;
use crate::render::{BorderCache, TitleAction};
use crate::server::actions;
use crate::server::input_modes;
use crate::server::input_modes::KeyStep;
use crate::server::state;
use crate::server::state::{
    ask, DragState, Effect, Env, TabAction, TabActionView, TextSelection, Ui, UiView, Work,
};
use crate::settings;
use crate::settings::SettingsAction;
use crate::terminal_state::MouseProtocol;

verus! {

broadcast use vstd::std_specs::hash::group_hash_axioms;

/// Two clicks on one cell within this time (milliseconds) are a double click.
pub const DOUBLE_CLICK_MS: u64 = 400;

/// How many lines a turn of the wheel scrolls.
pub const WHEEL_LINES: usize = 3;

/// A click on a cell comes soon enough after one on the same cell.
pub open spec fn is_double(last: Option<(u64, u16, u16)>, now: u64, x: u16, y: u16) -> bool {
    match last {
        Some((t, lx, ly)) => now - t < DOUBLE_CLICK_MS && lx == x && ly == y,
        None => false,
    }
}

fn double_click(last: &Option<(u64, u16, u16)>, now: u64, x: u16, y: u16) -> (r: bool)
    ensures
        r == is_double(*last, now, x, y),
{
    match last {
        Some((t, lx, ly)) => (now <= *t || now - *t < DOUBLE_CLICK_MS) && *lx == x && *ly == y,
        None => false,
    }
}

/// A cell relative to the corner of a pane.
pub open spec fn inside(x: u16, start: u16) -> u16 {
    layout::minus(x as int, start as int) as u16
}

fn offset(x: u16, start: u16) -> (r: u16)
    ensures
        r == inside(x, start),
{
    if x > start {
        x - start
    } else {
        0
    }
}

/// A cell relative to the corner of a pane, and within the pane.
pub open spec fn within(x: u16, start: u16, len: u16) -> u16 {
    layout::min(inside(x, start) as int, layout::minus(len as int, 1)) as u16
}

fn offset_within(x: u16, start: u16, len: u16) -> (r: u16)
    ensures
        r == within(x, start, len),
{
    let at: u16 = offset(x, start);
    let last: u16 = if len > 1 {
        len - 1
    } else {
        0
    };
    if at <= last {
        at
    } else {
        last
    }
}

/// Tells whether the program of a pane asked for the mouse. `grabs` holds the
/// panes of which the terminal emulator knows it.
pub open spec fn grabbed(panes: Map<usize, Pane>, grabs: Set<usize>, id: usize) -> bool {
    panes.contains_key(id) && (panes[id].ctx.state.mouse_mode.protocol != MouseProtocol::Off
        || grabs.contains(id))
}

fn is_grabbed(panes: &HashMap<usize, Pane>, grabs: &HashSet<usize>, id: usize) -> (r: bool)
    ensures
        r == grabbed(panes@, grabs@, id),
{
    let emulator = grabs.contains(&id);
    match panes.get(&id) {
        Some(p) => p.wants_mouse(emulator),
        None => false,
    }
}

/// The work of telling a pane about the left button, where its place is known.
pub open spec fn told_button(rects: Map<usize, Rect>, id: usize, m: MouseEvent, release: bool) -> Seq<Work> {
    if rects.contains_key(id) {
        seq![
            state::plain(
                Effect::SendMouse {
                    pane: id,
                    button: 0,
                    col: inside(m.column, rects[id].x),
                    row: inside(m.row, rects[id].y),
                    release,
                },
            ),
        ]
    } else {
        seq![]
    }
}

fn tell_button(
    rects: &HashMap<usize, Rect>,
    id: usize,
    m: MouseEvent,
    release: bool,
    effects: &mut Vec<Effect>,
)
    ensures
        state::work(final(effects)@) == state::work(old(effects)@) + told_button(
            rects@,
            id,
            m,
            release,
        ),
{
    match rects.get(&id) {
        Some(r) => {
            ask(
                effects,
                Effect::SendMouse {
                    pane: id,
                    button: 0,
                    col: offset(m.column, r.x),
                    row: offset(m.row, r.y),
                    release,
                },
            );
        },
        None => {},
    }
    assert(state::work(effects@) =~= state::work(old(effects)@) + told_button(
        rects@,
        id,
        m,
        release,
    ));
}

// ─── The left button goes down ─────────────────────────────

pub open spec fn clicked(v: UiView, m: MouseEvent, env: Env) -> UiView {
    UiView { last_click: Some((env.now, m.column, m.row)), ..v }
}

/// A click on the tab bar goes to the tab; a double click asks for its name.
/// `tab` is the tab under the mouse and `current` the one that is shown.
pub open spec fn tab_click(v: UiView, m: MouseEvent, tab: usize, current: usize, env: Env) -> UiView {
    let w = clicked(v, m, env);
    if is_double(v.last_click, env.now, m.column, m.row) {
        state::redrawn(
            state::in_mode(
                if tab != current {
                    UiView { tab_action: TabActionView::GoToTab(tab), ..w }
                } else {
                    w
                },
                input_modes::rename_start(),
            ),
        )
    } else {
        UiView { tab_action: TabActionView::GoToTab(tab), ..w }
    }
}

fn click_tab(ui: &mut Ui, m: MouseEvent, tab: usize, current: usize, env: &Env)
    ensures
        final(ui)@ == tab_click(old(ui)@, m, tab, current, *env),
{
    let double = double_click(&ui.last_click, env.now, m.column, m.row);
    ui.last_click = Some((env.now, m.column, m.row));
    if !double || tab != current {
        ui.set_tab_action(TabAction::GoToTab(tab));
    }
    if double {
        ui.set_mode(input_modes::rename_mode());
        ui.redraw();
    }
}

/// A click while the settings panel is open.
pub open spec fn settings_click(v: UiView, m: MouseEvent, env: Env) -> KeyStep {
    let (s, action) = settings::click_handled(v.settings, m.column, m.row, env.tw, env.th);
    let (w, asked) = input_modes::settings_changed(v, s, action);
    (
        if action != SettingsAction::Nothing || s.border_style != v.settings.border_style {
            state::redrawn(w)
        } else {
            w
        },
        asked,
    )
}

fn click_settings(ui: &mut Ui, m: MouseEvent, env: &Env, effects: &mut Vec<Effect>)
    requires
        old(ui).wf(),
    ensures
        final(ui).wf(),
        ({
            let (v, w) = settings_click(old(ui)@, m, *env);
            final(ui)@ == v && state::work(final(effects)@) == state::work(old(effects)@) + w
        }),
{
    let border = ui.settings.border_style;
    let status = ui.settings.show_status_bar;
    let tabs = ui.settings.show_tab_bar;
    let action = ui.settings.handle_click(m.column, m.row, env.tw, env.th);
    let redraw = action != SettingsAction::Nothing || ui.settings.border_style != border;
    input_modes::apply_settings(ui, action, status, tabs, effects);
    if redraw {
        ui.redraw();
    }
}

/// The work of a button in a title. The button with the horizontal line puts
/// the new pane below.
pub open spec fn title_work(a: TitleAction) -> Seq<Work> {
    match a {
        TitleAction::Close(id) => actions::close_work(id),
        TitleAction::SplitH(id) => actions::split_work(id, Direction::Vertical),
        TitleAction::SplitV(id) => actions::split_work(id, Direction::Horizontal),
    }
}

/// The state after a click on a pane: a double click switches the zoom, a
/// single one gives it the focus.
pub open spec fn pane_focused(v: UiView, id: usize, double: bool, panes: Map<usize, Pane>) -> KeyStep {
    if double && panes.contains_key(id) {
        let (zoomed_pane, asked) = if v.zoomed_pane is Some {
            (None::<usize>, seq![state::plain(Effect::ResizeAll)])
        } else {
            (Some(id), seq![state::plain(Effect::ResizeZoomed(id))])
        };
        (state::marked(UiView { zoomed_pane, active: id, ..v }), asked)
    } else if id != v.active && panes.contains_key(id) {
        input_modes::only(state::redrawn(UiView { active: id, ..v }))
    } else {
        input_modes::only(v)
    }
}

/// A selection may begin at the mouse. An earlier one is gone.
pub open spec fn anchored(v: UiView, id: usize, rects: Map<usize, Rect>, m: MouseEvent) -> UiView {
    if rects.contains_key(id) {
        let r = rects[id];
        let w = UiView {
            selection_anchor: Some((id, inside(m.column, r.x), inside(m.row, r.y))),
            ..v
        };
        if v.text_selection is Some {
            state::pane_marked(UiView { text_selection: None, ..w }, id)
        } else {
            w
        }
    } else {
        v
    }
}

/// A click on a pane. A single click goes on to a program that asked for the
/// mouse; on any other pane it may begin a selection.
pub open spec fn pane_click(
    v: UiView,
    id: usize,
    m: MouseEvent,
    panes: Map<usize, Pane>,
    grabs: Set<usize>,
    rects: Map<usize, Rect>,
    env: Env,
) -> KeyStep {
    let double = is_double(v.last_click, env.now, m.column, m.row);
    let (w, asked) = pane_focused(clicked(v, m, env), id, double, panes);
    if double || !panes.contains_key(id) {
        (w, asked)
    } else if grabbed(panes, grabs, id) {
        (w, asked + told_button(rects, id, m, false))
    } else if id == w.active {
        (anchored(w, id, rects, m), asked)
    } else {
        (w, asked)
    }
}

fn focus_pane(
    ui: &mut Ui,
    id: usize,
    double: bool,
    panes: &HashMap<usize, Pane>,
    effects: &mut Vec<Effect>,
)
    ensures
        ({
            let (v, w) = pane_focused(old(ui)@, id, double, panes@);
            final(ui)@ == v && state::work(final(effects)@) == state::work(old(effects)@) + w
        }),
{
    let ghost before = state::work(effects@);
    assert(before + seq![] =~= before);
    if double && panes.contains_key(&id) {
        if ui.zoomed_pane.is_some() {
            ui.set_zoomed(None);
            ask(effects, Effect::ResizeAll);
            assert(state::work(effects@) =~= before + seq![state::plain(Effect::ResizeAll)]);
        } else {
            ui.set_zoomed(Some(id));
            ask(effects, Effect::ResizeZoomed(id));
            assert(state::work(effects@) =~= before + seq![
                state::plain(Effect::ResizeZoomed(id)),
            ]);
        }
        ui.set_active(id);
        ui.mark_layout();
    } else if id != ui.active && panes.contains_key(&id) {
        ui.set_active(id);
        ui.redraw();
    }
}

fn anchor(ui: &mut Ui, id: usize, rects: &HashMap<usize, Rect>, m: MouseEvent)
    ensures
        final(ui)@ == anchored(old(ui)@, id, rects@, m),
{
    match rects.get(&id) {
        Some(r) => {
            ui.selection_anchor = Some((id, offset(m.column, r.x), offset(m.row, r.y)));
            if ui.text_selection.is_some() {
                ui.text_selection = None;
                ui.mark_pane(id);
            }
        },
        None => {},
    }
}

proof fn lemma_chain(a: Seq<Work>, b: Seq<Work>, c: Seq<Work>)
    ensures
        a + b + c == a + (b + c),
{
    assert(a + b + c =~= a + (b + c));
}

fn click_pane(
    ui: &mut Ui,
    id: usize,
    m: MouseEvent,
    panes: &HashMap<usize, Pane>,
    grabs: &HashSet<usize>,
    rects: &HashMap<usize, Rect>,
    env: &Env,
    effects: &mut Vec<Effect>,
)
    ensures
        ({
            let (v, w) = pane_click(old(ui)@, id, m, panes@, grabs@, rects@, *env);
            final(ui)@ == v && state::work(final(effects)@) == state::work(old(effects)@) + w
        }),
{
    let double = double_click(&ui.last_click, env.now, m.column, m.row);
    ui.last_click = Some((env.now, m.column, m.row));
    let ghost asked = pane_focused(ui@, id, double, panes@).1;
    focus_pane(ui, id, double, panes, effects);
    if !double && panes.contains_key(&id) {
        if is_grabbed(panes, grabs, id) {
            tell_button(rects, id, m, false, effects);
            proof {
                lemma_chain(
                    state::work(old(effects)@),
                    asked,
                    told_button(rects@, id, m, false),
                );
            }
        } else if id == ui.active {
            anchor(ui, id, rects, m);
        }
    }
}

/// The left button goes down: on a tab, in the settings panel, on a button of
/// a title, on a separator or in a pane.
pub open spec fn left_down(
    v: UiView,
    m: MouseEvent,
    panes: Map<usize, Pane>,
    grabs: Set<usize>,
    rects: Map<usize, Rect>,
    inner: Rect,
    tab: Option<(usize, usize)>,
    env: Env,
) -> KeyStep {
    match tab {
        Some((hit, current)) => input_modes::only(tab_click(v, m, hit, current, env)),
        None => if v.settings.visible {
            settings_click(v, m, env)
        } else {
            match render::title_button(v.layout.root, m.column, m.row, inner) {
                Some(a) => (state::with_border_dirty(v), title_work(a)),
                None => match layout::sep_at(v.layout.root, m.column, m.row, inner, seq![]) {
                    Some(hit) => input_modes::only(
                        state::redrawn(UiView { drag: Some(hit), ..v }),
                    ),
                    None => match layout::pane_at(v.layout.root, m.column, m.row, inner) {
                        Some(id) => pane_click(v, id, m, panes, grabs, rects, env),
                        None => input_modes::only(v),
                    },
                },
            }
        },
    }
}

fn press_title(ui: &mut Ui, a: TitleAction, effects: &mut Vec<Effect>)
    requires
        old(ui).wf(),
    ensures
        final(ui).wf(),
        final(ui)@ == state::with_border_dirty(old(ui)@),
        state::work(final(effects)@) == state::work(old(effects)@) + title_work(a),
{
    match a {
        TitleAction::Close(id) => actions::close_target(ui, id, effects),
        TitleAction::SplitH(id) => actions::split_pane(ui, id, Direction::Vertical, effects),
        TitleAction::SplitV(id) => actions::split_pane(ui, id, Direction::Horizontal, effects),
    }
}

fn press_left(
    ui: &mut Ui,
    m: MouseEvent,
    panes: &HashMap<usize, Pane>,
    grabs: &HashSet<usize>,
    cache: &BorderCache,
    tab: Option<(usize, usize)>,
    env: &Env,
    effects: &mut Vec<Effect>,
)
    requires
        old(ui).wf(),
        cache.inner.fits(),
    ensures
        final(ui).wf(),
        ({
            let (v, w) = left_down(
                old(ui)@,
                m,
                panes@,
                grabs@,
                cache.pane_rects@,
                cache.inner,
                tab,
                *env,
            );
            final(ui)@ == v && state::work(final(effects)@) == state::work(old(effects)@) + w
        }),
{
    assert(state::work(effects@) + seq![] =~= state::work(effects@));
    match tab {
        Some((hit, current)) => {
            click_tab(ui, m, hit, current, env);
            return;
        },
        None => {},
    }
    if ui.settings.visible {
        click_settings(ui, m, env, effects);
        return;
    }
    match render::title_button_hit(m.column, m.row, &ui.layout, &cache.inner) {
        Some(a) => {
            press_title(ui, a, effects);
            return;
        },
        None => {},
    }
    match ui.layout.find_separator_at(m.column, m.row, &cache.inner) {
        Some(hit) => {
            ui.drag = Some(DragState::from_hit(hit));
            ui.redraw();
            return;
        },
        None => {},
    }
    match ui.layout.find_at(m.column, m.row, &cache.inner) {
        Some(id) => click_pane(ui, id, m, panes, grabs, &cache.pane_rects, env, effects),
        None => {},
    }
}

// ─── Dragging and the end of it ────────────────────────────

/// The mouse moves with the left button down: the separator follows, or the
/// selection grows.
pub open spec fn left_drag(v: UiView, m: MouseEvent, rects: Map<usize, Rect>) -> KeyStep {
    match v.drag {
        Some((path, direction, area)) => {
            let r = state::drag_ratio(direction, area, m.column, m.row);
            let l = Layout { root: layout::with_ratio(v.layout.root, path, r), ..v.layout };
            (
                state::marked(UiView { layout: l, ..v }),
                seq![state::plain(Effect::ResizeAll)],
            )
        },
        None => match v.selection_anchor {
            Some((id, col, row)) => input_modes::only(
                if rects.contains_key(id) {
                    let r = rects[id];
                    state::pane_marked(
                        UiView {
                            text_selection: Some(
                                TextSelection {
                                    pane_id: id,
                                    start_row: row,
                                    start_col: col,
                                    end_row: within(m.row, r.y, r.h),
                                    end_col: within(m.column, r.x, r.w),
                                },
                            ),
                            ..v
                        },
                        id,
                    )
                } else {
                    v
                },
            ),
            None => input_modes::only(v),
        },
    }
}

fn drag_left(ui: &mut Ui, m: MouseEvent, rects: &HashMap<usize, Rect>, effects: &mut Vec<Effect>)
    requires
        old(ui).wf(),
    ensures
        final(ui).wf(),
        ({
            let (v, w) = left_drag(old(ui)@, m, rects@);
            final(ui)@ == v && state::work(final(effects)@) == state::work(old(effects)@) + w
        }),
{
    let ghost before = state::work(effects@);
    assert(before + seq![] =~= before);
    match &ui.drag {
        Some(d) => {
            let r = d.calc_ratio(m.column, m.row);
            ui.layout.set_ratio_at_path(d.path(), r);
            ask(effects, Effect::ResizeAll);
            ui.mark_layout();
            assert(state::work(effects@) =~= before + seq![state::plain(Effect::ResizeAll)]);
        },
        None => {
            match ui.selection_anchor {
                Some((id, col, row)) => {
                    match rects.get(&id) {
                        Some(r) => {
                            ui.text_selection = Some(
                                TextSelection {
                                    pane_id: id,
                                    start_row: row,
                                    start_col: col,
                                    end_row: offset_within(m.row, r.y, r.h),
                                    end_col: offset_within(m.column, r.x, r.w),
                                },
                            );
                            ui.mark_pane(id);
                        },
                        None => {},
                    }
                },
                None => {},
            }
        },
    }
}

/// The left button goes up: a drag ends, a selection is copied, or the program
/// of the active pane is told.
pub open spec fn left_up(
    v: UiView,
    m: MouseEvent,
    panes: Map<usize, Pane>,
    grabs: Set<usize>,
    rects: Map<usize, Rect>,
) -> KeyStep {
    if v.drag is Some {
        (
            state::marked(UiView { drag: None, ..v }),
            seq![state::plain(Effect::ResizeAll)],
        )
    } else {
        match v.text_selection {
            Some(sel) => (
                state::pane_marked(
                    UiView { text_selection: None, selection_anchor: None, ..v },
                    sel.pane_id,
                ),
                if panes.contains_key(sel.pane_id) {
                    seq![state::plain(Effect::CopySelection(sel))]
                } else {
                    seq![]
                },
            ),
            None => (
                UiView { selection_anchor: None, ..v },
                if grabbed(panes, grabs, v.active) {
                    told_button(rects, v.active, m, true)
                } else {
                    seq![]
                },
            ),
        }
    }
}

fn release_left(
    ui: &mut Ui,
    m: MouseEvent,
    panes: &HashMap<usize, Pane>,
    grabs: &HashSet<usize>,
    rects: &HashMap<usize, Rect>,
    effects: &mut Vec<Effect>,
)
    requires
        old(ui).wf(),
    ensures
        final(ui).wf(),
        ({
            let (v, w) = left_up(old(ui)@, m, panes@, grabs@, rects@);
            final(ui)@ == v && state::work(final(effects)@) == state::work(old(effects)@) + w
        }),
{
    let ghost before = state::work(effects@);
    assert(before + seq![] =~= before);
    if ui.drag.is_some() {
        ui.drag = None;
        ask(effects, Effect::ResizeAll);
        ui.mark_layout();
        assert(state::work(effects@) =~= before + seq![state::plain(Effect::ResizeAll)]);
        return;
    }
    match ui.text_selection {
        Some(sel) => {
            if panes.contains_key(&sel.pane_id) {
                ask(effects, Effect::CopySelection(sel));
                assert(state::work(effects@) =~= before + seq![
                    state::plain(Effect::CopySelection(sel)),
                ]);
            }
            ui.text_selection = None;
            ui.selection_anchor = None;
            ui.mark_pane(sel.pane_id);
        },
        None => {
            ui.selection_anchor = None;
            let active: usize = ui.active;
            if is_grabbed(panes, grabs, active) {
                tell_button(rects, active, m, true, effects);
            }
        },
    }
}

/// What is put on the clipboard when a selection ends: nothing where it holds
/// no text, else the sequence with the text.
pub fn selection_sequence(text: &str) -> (r: Option<Vec<u8>>)
    ensures
        crate::codec::bytes_view(r) == (if text@.len() == 0 {
            None
        } else {
            Some(input_modes::copied_bytes(text@))
        }),
{
    if text.is_empty() {
        None
    } else {
        Some(input_modes::copy_sequence(text))
    }
}

// ─── The wheel ─────────────────────────────────────────────

/// A turn of the wheel goes to the pane under the mouse, or to the active one:
/// to its program if that asked for the mouse, else the pane scrolls.
pub open spec fn wheel(
    v: UiView,
    m: MouseEvent,
    up: bool,
    panes: Map<usize, Pane>,
    grabs: Set<usize>,
    rects: Map<usize, Rect>,
    inner: Rect,
) -> KeyStep {
    let target = match layout::pane_at(v.layout.root, m.column, m.row, inner) {
        Some(id) => id,
        None => v.active,
    };
    if !input_modes::runs(panes, target) {
        input_modes::only(v)
    } else if grabbed(panes, grabs, target) {
        if rects.contains_key(target) {
            let one = state::plain(
                Effect::SendScroll {
                    pane: target,
                    up,
                    col: inside(m.column, rects[target].x),
                    row: inside(m.row, rects[target].y),
                },
            );
            (v, seq![one, one, one])
        } else {
            input_modes::only(v)
        }
    } else {
        (
            state::pane_marked(v, target),
            seq![
                if up {
                    state::plain(Effect::ScrollUp { pane: target, lines: WHEEL_LINES })
                } else {
                    state::plain(Effect::ScrollDown { pane: target, lines: WHEEL_LINES })
                },
            ],
        )
    }
}

fn turn_wheel(
    ui: &mut Ui,
    m: MouseEvent,
    up: bool,
    panes: &HashMap<usize, Pane>,
    grabs: &HashSet<usize>,
    cache: &BorderCache,
    effects: &mut Vec<Effect>,
)
    requires
        old(ui).wf(),
        cache.inner.fits(),
    ensures
        final(ui).wf(),
        ({
            let (v, w) = wheel(
                old(ui)@,
                m,
                up,
                panes@,
                grabs@,
                cache.pane_rects@,
                cache.inner,
            );
            final(ui)@ == v && state::work(final(effects)@) == state::work(old(effects)@) + w
        }),
{
    let ghost before = state::work(effects@);
    assert(before + seq![] =~= before);
    let target: usize = match ui.layout.find_at(m.column, m.row, &cache.inner) {
        Some(id) => id,
        None => ui.active,
    };
    if !input_modes::pane_runs(panes, target) {
        return;
    }
    if is_grabbed(panes, grabs, target) {
        match cache.pane_rects.get(&target) {
            Some(r) => {
                let col: u16 = offset(m.column, r.x);
                let row: u16 = offset(m.row, r.y);
                ask(effects, Effect::SendScroll { pane: target, up, col, row });
                ask(effects, Effect::SendScroll { pane: target, up, col, row });
                ask(effects, Effect::SendScroll { pane: target, up, col, row });
                proof {
                    let one = state::plain(Effect::SendScroll { pane: target, up, col, row });
                    assert(state::work(effects@) =~= before + seq![one, one, one]);
                }
            },
            None => {},
        }
    } else {
        if up {
            ask(effects, Effect::ScrollUp { pane: target, lines: WHEEL_LINES });
            assert(state::work(effects@) =~= before + seq![
                state::plain(Effect::ScrollUp { pane: target, lines: WHEEL_LINES }),
            ]);
        } else {
            ask(effects, Effect::ScrollDown { pane: target, lines: WHEEL_LINES });
            assert(state::work(effects@) =~= before + seq![
                state::plain(Effect::ScrollDown { pane: target, lines: WHEEL_LINES }),
            ]);
        }
        ui.mark_pane(target);
    }
}

// ─── All of it ─────────────────────────────────────────────

/// The tab under the mouse and the tab that is shown, for [`process_mouse`]:
/// only a bar of more than one tab takes the mouse, and only in its own row.
/// `hit` is the tab at the mouse's column.
pub fn tab_under(
    row: u16,
    bar_row: u16,
    tabs: usize,
    hit: Option<usize>,
    current: usize,
) -> (r: Option<(usize, usize)>)
    ensures
        r == match hit {
            Some(tab) => if tabs > 1 && row == bar_row {
                Some((tab, current))
            } else {
                None
            },
            None => None,
        },
{
    match hit {
        Some(tab) => if tabs > 1 && row == bar_row {
            Some((tab, current))
        } else {
            None
        },
        None => None,
    }
}

/// What a mouse event does.
pub open spec fn mouse_step(
    v: UiView,
    m: MouseEvent,
    panes: Map<usize, Pane>,
    grabs: Set<usize>,
    rects: Map<usize, Rect>,
    inner: Rect,
    tab: Option<(usize, usize)>,
    env: Env,
) -> KeyStep {
    match m.kind {
        MouseEventKind::Down(MouseButton::Left) => left_down(
            v,
            m,
            panes,
            grabs,
            rects,
            inner,
            tab,
            env,
        ),
        MouseEventKind::Drag(MouseButton::Left) => left_drag(v, m, rects),
        MouseEventKind::Up(MouseButton::Left) => left_up(v, m, panes, grabs, rects),
        MouseEventKind::ScrollUp => wheel(v, m, true, panes, grabs, rects, inner),
        MouseEventKind::ScrollDown => wheel(v, m, false, panes, grabs, rects, inner),
        _ => input_modes::only(v),
    }
}

/// Handles a mouse event. `grabs` holds the panes of which the terminal emulator
/// knows that their program asked for the mouse; `tab` is the tab under the
/// mouse and the one that is shown, where the mouse is on the tab bar.
pub fn process_mouse(
    ui: &mut Ui,
    m: MouseEvent,
    panes: &HashMap<usize, Pane>,
    grabs: &HashSet<usize>,
    cache: &BorderCache,
    tab: Option<(usize, usize)>,
    env: &Env,
    effects: &mut Vec<Effect>,
)
    requires
        old(ui).wf(),
        cache.inner.fits(),
    ensures
        final(ui).wf(),
        ({
            let (v, w) = mouse_step(
                old(ui)@,
                m,
                panes@,
                grabs@,
                cache.pane_rects@,
                cache.inner,
                tab,
                *env,
            );
            final(ui)@ == v && state::work(final(effects)@) == state::work(old(effects)@) + w
        }),
{
    assert(state::work(effects@) + seq![] =~= state::work(effects@));
    match m.kind {
        MouseEventKind::Down(MouseButton::Left) => press_left(
            ui,
            m,
            panes,
            grabs,
            cache,
            tab,
            env,
            effects,
        ),
        MouseEventKind::Drag(MouseButton::Left) => drag_left(ui, m, &cache.pane_rects, effects),
        MouseEventKind::Up(MouseButton::Left) => release_left(
            ui,
            m,
            panes,
            grabs,
            &cache.pane_rects,
            effects,
        ),
        MouseEventKind::ScrollUp => turn_wheel(ui, m, true, panes, grabs, cache, effects),
        MouseEventKind::ScrollDown => turn_wheel(ui, m, false, panes, grabs, cache, effects),
        _ => {},
    }
}

} // verus!
