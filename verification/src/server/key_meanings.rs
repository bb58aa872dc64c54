//! What the keys of each input mode mean.

use vstd::prelude::*;

use crate::keymap;
use crate::keymap::{Action, ActionView, Dir, KeymapTable};
use crate::keys::{KeyCode, KeyEvent, KeyEventKind, KeyModifiers};
use crate::layout;
use crate::layout::geometry;
use crate::layout::{Direction, NavDir};
use crate::pane::Pane;
use crate::ratio;
use crate::ratio::Ratio;
use crate::render;
use crate::server::actions;
use crate::server::actions::CommandView;
use crate::server::input_modes;
use crate::server::state;
use crate::server::state::{CopyModeState, CopyScroll, Effect, Env, ModeView, TabActionView, UiView, Work};

verus! {

/// A press of a key.
pub open spec fn press(code: KeyCode, modifiers: KeyModifiers) -> KeyEvent {
    KeyEvent { code, modifiers, kind: KeyEventKind::Press }
}

/// The key is not bound by the user, and no prompt takes it.
pub open spec fn is_free(v: UiView, key: KeyEvent, keymap: keymap::KeymapView) -> bool {
    v.osc52_confirm is None && input_modes::binding(v, key, keymap) is None
}

/// The place of a pane on the screen.
pub open spec fn places(v: UiView, env: Env) -> Map<usize, layout::Rect> {
    layout::rect_map(
        v.layout.root,
        render::inner_rect(v.settings.show_status_bar, env.tw, env.th),
    )
}

/// The focus went to a pane in direction `nav`, or stayed where no pane lies
/// that way.
pub open spec fn focus_went(v: UiView, w: UiView, nav: NavDir, env: Env) -> bool {
    let rects = places(v, env);
    &&& w.layout == v.layout
    &&& if w.active == v.active {
        forall|m: usize|
            #![trigger rects[m]]
            layout::ids(v.layout.root).contains(m) && m != v.active ==> !geometry::lies_that_way(
                rects[v.active],
                rects[m],
                nav,
            )
    } else {
        layout::ids(v.layout.root).contains(w.active) && geometry::lies_that_way(
            rects[v.active],
            rects[w.active],
            nav,
        )
    }
}

proof fn lemma_focus(v: UiView, w: UiView, nav: NavDir, env: Env)
    requires
        layout::ids(v.layout.root).contains(v.active),
        w.layout == v.layout,
        w.active == actions::focus_moved(v, nav, env).active,
    ensures
        focus_went(v, w, nav, env),
{
    let inner = render::inner_rect(v.settings.show_status_bar, env.tw, env.th);
    assert(inner.fits());
    geometry::navigation_leads_that_way(v.layout.root, v.active, nav, inner);
}

/// After the prefix, `c` opens a tab, `n` goes to the next and `p` to the
/// previous one, and a digit goes to the tab of that number, `0` to the tenth.
pub proof fn prefix_keys_choose_tabs(
    v: UiView,
    m: KeyModifiers,
    keymap: keymap::KeymapView,
    panes: Map<usize, Pane>,
    env: Env,
)
    requires
        v.mode is Prefix,
    ensures
        is_free(v, press(KeyCode::Char('c'), m), keymap) ==> ({
            let (w, asked) = input_modes::key_step(v, press(KeyCode::Char('c'), m), keymap, panes, env);
            w.tab_action == TabActionView::NewTab && w.mode == ModeView::Normal && asked.len() == 0
        }),
        is_free(v, press(KeyCode::Char('n'), m), keymap) ==> ({
            let (w, asked) = input_modes::key_step(v, press(KeyCode::Char('n'), m), keymap, panes, env);
            w.tab_action == TabActionView::NextTab && w.mode == ModeView::Normal && asked.len() == 0
        }),
        is_free(v, press(KeyCode::Char('p'), m), keymap) ==> ({
            let (w, asked) = input_modes::key_step(v, press(KeyCode::Char('p'), m), keymap, panes, env);
            w.tab_action == TabActionView::PrevTab && w.mode == ModeView::Normal && asked.len() == 0
        }),
        forall|d: char|
            #![trigger press(KeyCode::Char(d), m)]
            '1' <= d <= '9' && is_free(v, press(KeyCode::Char(d), m), keymap) ==> ({
                let (w, asked) = input_modes::key_step(v, press(KeyCode::Char(d), m), keymap, panes, env);
                w.tab_action == TabActionView::GoToTab((d as int - '1' as int) as usize) && w.mode
                    == ModeView::Normal && asked.len() == 0
            }),
        is_free(v, press(KeyCode::Char('0'), m), keymap) ==> ({
            let (w, asked) = input_modes::key_step(v, press(KeyCode::Char('0'), m), keymap, panes, env);
            w.tab_action == TabActionView::GoToTab(9) && w.mode == ModeView::Normal && asked.len()
                == 0
        }),
{
}

/// After the prefix, `%` splits the active pane into two columns and `"` into
/// two rows.
pub proof fn prefix_keys_split(
    v: UiView,
    m: KeyModifiers,
    keymap: keymap::KeymapView,
    panes: Map<usize, Pane>,
    env: Env,
)
    requires
        v.mode is Prefix,
    ensures
        is_free(v, press(KeyCode::Char('%'), m), keymap) ==> ({
            let (w, asked) = input_modes::key_step(v, press(KeyCode::Char('%'), m), keymap, panes, env);
            asked.len() == 2 && asked[0] == state::plain(
                Effect::Split { target: v.active, dir: Direction::Horizontal },
            ) && w.mode == ModeView::Normal
        }),
        is_free(v, press(KeyCode::Char('"'), m), keymap) ==> ({
            let (w, asked) = input_modes::key_step(v, press(KeyCode::Char('"'), m), keymap, panes, env);
            asked.len() == 2 && asked[0] == state::plain(
                Effect::Split { target: v.active, dir: Direction::Vertical },
            ) && w.mode == ModeView::Normal
        }),
{
}

/// After the prefix these keys lead to a mode and change nothing else: `x` asks
/// whether to close the pane and `&` whether to close the tab, `R` resizes, `q`
/// picks a pane, `?` shows the help, `,` renames the tab, `:` opens the command
/// palette and `[` copy mode.
pub proof fn prefix_keys_lead_to_modes(
    v: UiView,
    m: KeyModifiers,
    keymap: keymap::KeymapView,
    panes: Map<usize, Pane>,
    env: Env,
)
    requires
        v.mode is Prefix,
    ensures
        forall|c: char|
            #![trigger press(KeyCode::Char(c), m)]
            is_free(v, press(KeyCode::Char(c), m), keymap) && (c == 'x' || c == '&' || c == 'R' || c
                == 'q' || c == '?' || c == ',' || c == ':' || c == '[') ==> ({
                let (w, asked) = input_modes::key_step(v, press(KeyCode::Char(c), m), keymap, panes, env);
                &&& c == 'x' ==> w.mode == ModeView::CloseConfirm && asked.len() == 0
                &&& c == '&' ==> w.mode == ModeView::CloseTabConfirm && asked.len() == 0
                &&& c == 'R' ==> w.mode == ModeView::ResizeMode && asked.len() == 0
                &&& c == 'q' ==> w.mode == ModeView::PaneSelect && asked.len() == 0
                &&& c == '?' ==> w.mode == ModeView::HelpOverlay && asked.len() == 0
                &&& c == ',' ==> w.mode is RenameTab && asked.len() == 0
                &&& c == ':' ==> w.mode == (ModeView::CommandPalette { buffer: seq![] }) && asked
                    == seq![state::plain(Effect::BuildPalette)] && w.palette.query.len() == 0
                &&& c == '[' && panes.contains_key(v.active) ==> w.mode is CopyMode && asked.len()
                    == 0
                &&& c == '[' && !panes.contains_key(v.active) ==> w.mode == ModeView::Normal
                &&& w.active == v.active && w.layout == v.layout && w.tab_action == v.tab_action
                &&& w.settings == v.settings && w.broadcast == v.broadcast && w.zoomed_pane
                    == v.zoomed_pane && w.detach_requested == v.detach_requested
            }),
{
}

/// After the prefix these keys switch: `d` asks to leave the session, `s` shows
/// or hides the status bar, `B` begins or ends typing into all panes, `z` zooms
/// the active pane or ends the zoom, and `r` asks to read the configuration
/// again.
pub proof fn prefix_keys_switch(
    v: UiView,
    m: KeyModifiers,
    keymap: keymap::KeymapView,
    panes: Map<usize, Pane>,
    env: Env,
)
    requires
        v.mode is Prefix,
    ensures
        forall|c: char|
            #![trigger press(KeyCode::Char(c), m)]
            is_free(v, press(KeyCode::Char(c), m), keymap) && (c == 'd' || c == 's' || c == 'B' || c
                == 'z' || c == 'r') ==> ({
                let (w, asked) = input_modes::key_step(v, press(KeyCode::Char(c), m), keymap, panes, env);
                &&& w.mode == ModeView::Normal
                &&& w.detach_requested == (c == 'd' || v.detach_requested)
                &&& w.settings.show_status_bar == (v.settings.show_status_bar != (c == 's'))
                &&& w.settings.show_tab_bar == v.settings.show_tab_bar
                &&& w.broadcast == (v.broadcast != (c == 'B'))
                &&& w.settings.reload_request == (c == 'r' || v.settings.reload_request)
                &&& c == 'z' && v.zoomed_pane is Some ==> w.zoomed_pane is None && asked == seq![
                    state::plain(Effect::ResizeAll),
                ]
                &&& c == 'z' && v.zoomed_pane is None ==> w.zoomed_pane == Some(v.active) && asked
                    == seq![state::plain(Effect::ResizeZoomed(v.active))]
                &&& c != 'z' ==> w.zoomed_pane == v.zoomed_pane
                &&& w.active == v.active && w.layout == v.layout && w.tab_action == v.tab_action
            }),
{
}

/// After the prefix, `o` goes to the next pane and `;` back to the pane that had
/// the focus before, and an arrow to the pane that lies that way.
pub proof fn prefix_keys_move_the_focus(
    v: UiView,
    m: KeyModifiers,
    keymap: keymap::KeymapView,
    panes: Map<usize, Pane>,
    env: Env,
)
    requires
        v.mode is Prefix,
        layout::ids(v.layout.root).no_duplicates(),
        layout::ids(v.layout.root).contains(v.active),
    ensures
        is_free(v, press(KeyCode::Char('o'), m), keymap) ==> ({
            let w = input_modes::key_step(v, press(KeyCode::Char('o'), m), keymap, panes, env).0;
            let all = layout::ids(v.layout.root);
            w.active == all[(all.index_of(v.active) + 1) % (all.len() as int)] && w.layout
                == v.layout
        }),
        is_free(v, press(KeyCode::Char(';'), m), keymap) ==> ({
            let w = input_modes::key_step(v, press(KeyCode::Char(';'), m), keymap, panes, env).0;
            w.active == (if panes.contains_key(v.last_active) {
                v.last_active
            } else {
                v.active
            }) && w.layout == v.layout
        }),
        is_free(v, press(KeyCode::Left, m), keymap) ==> focus_went(
            v,
            input_modes::key_step(v, press(KeyCode::Left, m), keymap, panes, env).0,
            NavDir::Left,
            env,
        ),
        is_free(v, press(KeyCode::Right, m), keymap) ==> focus_went(
            v,
            input_modes::key_step(v, press(KeyCode::Right, m), keymap, panes, env).0,
            NavDir::Right,
            env,
        ),
        is_free(v, press(KeyCode::Up, m), keymap) ==> focus_went(
            v,
            input_modes::key_step(v, press(KeyCode::Up, m), keymap, panes, env).0,
            NavDir::Up,
            env,
        ),
        is_free(v, press(KeyCode::Down, m), keymap) ==> focus_went(
            v,
            input_modes::key_step(v, press(KeyCode::Down, m), keymap, panes, env).0,
            NavDir::Down,
            env,
        ),
{
    let all = layout::ids(v.layout.root);
    all.index_of_first_ensures(v.active);
    if is_free(v, press(KeyCode::Left, m), keymap) {
        let w = input_modes::key_step(v, press(KeyCode::Left, m), keymap, panes, env).0;
        lemma_focus(v, w, NavDir::Left, env);
    }
    if is_free(v, press(KeyCode::Right, m), keymap) {
        let w = input_modes::key_step(v, press(KeyCode::Right, m), keymap, panes, env).0;
        lemma_focus(v, w, NavDir::Right, env);
    }
    if is_free(v, press(KeyCode::Up, m), keymap) {
        let w = input_modes::key_step(v, press(KeyCode::Up, m), keymap, panes, env).0;
        lemma_focus(v, w, NavDir::Up, env);
    }
    if is_free(v, press(KeyCode::Down, m), keymap) {
        let w = input_modes::key_step(v, press(KeyCode::Down, m), keymap, panes, env).0;
        lemma_focus(v, w, NavDir::Down, env);
    }
}

/// After the prefix, `{` changes the places of the active pane and the one
/// before it, `}` those of the active pane and the one after it. `E` and the
/// space bar keep every pane in its place in the order.
pub proof fn prefix_keys_rearrange(
    v: UiView,
    m: KeyModifiers,
    keymap: keymap::KeymapView,
    panes: Map<usize, Pane>,
    env: Env,
)
    requires
        v.mode is Prefix,
        layout::ids(v.layout.root).no_duplicates(),
        layout::ids(v.layout.root).contains(v.active),
    ensures
        ({
            let all = layout::ids(v.layout.root);
            let n = all.len() as int;
            let i = all.index_of(v.active);
            let before = if i == 0 {
                all[n - 1]
            } else {
                all[i - 1]
            };
            let next = all[(i + 1) % n];
            let left = input_modes::key_step(v, press(KeyCode::Char('{'), m), keymap, panes, env).0;
            let right = input_modes::key_step(v, press(KeyCode::Char('}'), m), keymap, panes, env).0;
            &&& is_free(v, press(KeyCode::Char('{'), m), keymap) ==> places(left, env)[v.active]
                == places(v, env)[before] && places(left, env)[before] == places(v, env)[v.active]
                && left.active == v.active
            &&& is_free(v, press(KeyCode::Char('}'), m), keymap) ==> places(right, env)[v.active]
                == places(v, env)[next] && places(right, env)[next] == places(v, env)[v.active]
                && right.active == v.active
        }),
        is_free(v, press(KeyCode::Char('E'), m), keymap) ==> ({
            let (w, asked) = input_modes::key_step(v, press(KeyCode::Char('E'), m), keymap, panes, env);
            layout::ids(w.layout.root) == layout::ids(v.layout.root) && w.active == v.active && asked
                == seq![state::plain(Effect::ResizeAll)]
        }),
        is_free(v, press(KeyCode::Char(' '), m), keymap) ==> ({
            let (w, asked) = input_modes::key_step(v, press(KeyCode::Char(' '), m), keymap, panes, env);
            layout::ids(w.layout.root) == layout::ids(v.layout.root) && w.active == v.active && asked
                == seq![state::plain(Effect::ResizeAll)]
        }),
{
    let all = layout::ids(v.layout.root);
    let inner = render::inner_rect(v.settings.show_status_bar, env.tw, env.th);
    assert(inner.fits());
    all.index_of_first_ensures(v.active);
    layout::cycle_there_and_back(all, v.active);
    geometry::swapping_exchanges_places(
        v.layout.root,
        v.active,
        layout::cycle_prev(all, v.active),
        inner,
    );
    geometry::swapping_exchanges_places(
        v.layout.root,
        v.active,
        layout::cycle_next(all, v.active),
        inner,
    );
    layout::equalize_keeps_panes(v.layout.root);
}

// ─── Normal mode ───────────────────────────────────────────

/// In normal mode Ctrl with the prefix letter waits for the next key. Otherwise
/// Ctrl with `g`, and `F1`, open or close the settings, and Ctrl with `q`, `w` or
/// a backslash asks whether to quit.
pub proof fn normal_keys_come_first(
    v: UiView,
    m: KeyModifiers,
    keymap: keymap::KeymapView,
    panes: Map<usize, Pane>,
    env: Env,
)
    requires
        v.mode == ModeView::Normal,
        m.control,
    ensures
        is_free(v, press(KeyCode::Char(env.prefix_key), m), keymap) ==> ({
            let (w, asked) = input_modes::key_step(v, press(KeyCode::Char(env.prefix_key), m), keymap, panes, env);
            w.mode == (ModeView::Prefix { entered_at: env.now }) && asked.len() == 0 && w.active
                == v.active
        }),
        is_free(v, press(KeyCode::F(1), m), keymap) ==> ({
            let (w, asked) = input_modes::key_step(v, press(KeyCode::F(1), m), keymap, panes, env);
            w.settings.visible == !v.settings.visible && asked.len() == 0 && w.mode == v.mode
        }),
        forall|c: char|
            #![trigger press(KeyCode::Char(c), m)]
            c != env.prefix_key && is_free(v, press(KeyCode::Char(c), m), keymap) ==> ({
                let (w, asked) = input_modes::key_step(v, press(KeyCode::Char(c), m), keymap, panes, env);
                &&& c == 'g' ==> w.settings.visible == !v.settings.visible && asked.len() == 0
                    && w.mode == v.mode
                &&& c == 'q' || c == 'w' || c == '\\' ==> w.mode == ModeView::QuitConfirm
                    && asked.len() == 0
            }),
{
}

/// In normal mode, while the settings are closed, Ctrl with `d` splits the
/// active pane into two columns and with `e` into two rows; Ctrl with `n` or `]`
/// goes to the next pane.
pub proof fn normal_keys_split_and_cycle(
    v: UiView,
    m: KeyModifiers,
    keymap: keymap::KeymapView,
    panes: Map<usize, Pane>,
    env: Env,
)
    requires
        v.mode == ModeView::Normal,
        !v.settings.visible,
        m.control,
        layout::ids(v.layout.root).no_duplicates(),
        layout::ids(v.layout.root).contains(v.active),
    ensures
        forall|c: char|
            #![trigger press(KeyCode::Char(c), m)]
            c != env.prefix_key && is_free(v, press(KeyCode::Char(c), m), keymap) ==> ({
                let (w, asked) = input_modes::key_step(v, press(KeyCode::Char(c), m), keymap, panes, env);
                let all = layout::ids(v.layout.root);
                &&& c == 'd' ==> asked.len() == 2 && asked[0] == state::plain(
                    Effect::Split { target: v.active, dir: Direction::Horizontal },
                )
                &&& c == 'e' ==> asked.len() == 2 && asked[0] == state::plain(
                    Effect::Split { target: v.active, dir: Direction::Vertical },
                )
                &&& c == 'n' || c == ']' ==> w.active == all[(all.index_of(v.active) + 1) % (
                all.len() as int)] && w.layout == v.layout && asked.len() == 0
            }),
{
    layout::ids(v.layout.root).index_of_first_ensures(v.active);
}

/// In normal mode, while the settings are closed, Alt with an arrow moves the
/// focus that way.
pub proof fn alt_arrows_move_the_focus(
    v: UiView,
    m: KeyModifiers,
    keymap: keymap::KeymapView,
    panes: Map<usize, Pane>,
    env: Env,
)
    requires
        v.mode == ModeView::Normal,
        !v.settings.visible,
        m.alt,
        layout::ids(v.layout.root).contains(v.active),
    ensures
        is_free(v, press(KeyCode::Left, m), keymap) ==> focus_went(
            v,
            input_modes::key_step(v, press(KeyCode::Left, m), keymap, panes, env).0,
            NavDir::Left,
            env,
        ),
        is_free(v, press(KeyCode::Right, m), keymap) ==> focus_went(
            v,
            input_modes::key_step(v, press(KeyCode::Right, m), keymap, panes, env).0,
            NavDir::Right,
            env,
        ),
        is_free(v, press(KeyCode::Up, m), keymap) ==> focus_went(
            v,
            input_modes::key_step(v, press(KeyCode::Up, m), keymap, panes, env).0,
            NavDir::Up,
            env,
        ),
        is_free(v, press(KeyCode::Down, m), keymap) ==> focus_went(
            v,
            input_modes::key_step(v, press(KeyCode::Down, m), keymap, panes, env).0,
            NavDir::Down,
            env,
        ),
{
    if is_free(v, press(KeyCode::Left, m), keymap) {
        let w = input_modes::key_step(v, press(KeyCode::Left, m), keymap, panes, env).0;
        lemma_focus(v, w, NavDir::Left, env);
    }
    if is_free(v, press(KeyCode::Right, m), keymap) {
        let w = input_modes::key_step(v, press(KeyCode::Right, m), keymap, panes, env).0;
        lemma_focus(v, w, NavDir::Right, env);
    }
    if is_free(v, press(KeyCode::Up, m), keymap) {
        let w = input_modes::key_step(v, press(KeyCode::Up, m), keymap, panes, env).0;
        lemma_focus(v, w, NavDir::Up, env);
    }
    if is_free(v, press(KeyCode::Down, m), keymap) {
        let w = input_modes::key_step(v, press(KeyCode::Down, m), keymap, panes, env).0;
        lemma_focus(v, w, NavDir::Down, env);
    }
}

/// In normal mode, while the settings are closed, a key that is no command goes
/// to the program of the active pane, or to all programs while keys are
/// broadcast. Enter starts a program that has ended again.
pub proof fn other_keys_are_typed(
    v: UiView,
    code: KeyCode,
    m: KeyModifiers,
    keymap: keymap::KeymapView,
    panes: Map<usize, Pane>,
    env: Env,
)
    requires
        v.mode == ModeView::Normal,
        !v.settings.visible,
        !m.control,
        !m.alt,
        code !is F,
        is_free(v, press(code, m), keymap),
    ensures
        ({
            let (w, asked) = input_modes::key_step(v, press(code, m), keymap, panes, env);
            let known = panes.contains_key(v.active);
            let ended = known && !panes[v.active].alive;
            &&& code == KeyCode::Enter && ended ==> asked == seq![
                state::plain(Effect::Respawn { pane: v.active }),
            ]
            &&& !(code == KeyCode::Enter && ended) ==> w == v && asked == (if v.broadcast {
                seq![state::plain(Effect::BroadcastKey(press(code, m)))]
            } else if known && !ended {
                seq![state::plain(Effect::WriteKey { pane: v.active, key: press(code, m) })]
            } else {
                seq![]
            })
        }),
{
}

// ─── Prompts ───────────────────────────────────────────────

/// `y` and Enter answer yes: the session ends, the tab or the active pane is
/// closed. Any other key leads back.
pub proof fn questions_are_answered(
    v: UiView,
    code: KeyCode,
    m: KeyModifiers,
    keymap: keymap::KeymapView,
    panes: Map<usize, Pane>,
    env: Env,
)
    requires
        v.osc52_confirm is None,
        v.mode == ModeView::QuitConfirm || v.mode == ModeView::CloseTabConfirm || v.mode
            == ModeView::CloseConfirm,
    ensures
        ({
            let (w, asked) = input_modes::key_step(v, press(code, m), keymap, panes, env);
            let yes = code == KeyCode::Char('y') || code == KeyCode::Enter;
            &&& yes && v.mode == ModeView::QuitConfirm ==> w.tab_action
                == TabActionView::KillSession && asked.len() == 0
            &&& yes && v.mode == ModeView::CloseTabConfirm ==> w.tab_action
                == TabActionView::CloseTab && asked.len() == 0 && w.mode == ModeView::Normal
            &&& yes && v.mode == ModeView::CloseConfirm ==> w.tab_action == v.tab_action && asked
                == seq![
                state::plain(Effect::ClosePane { target: v.active }),
                state::plain(Effect::ResizeAll),
                state::plain(Effect::MarkAll),
            ] && w.mode == ModeView::Normal
            &&& !yes ==> w.mode == ModeView::Normal && asked.len() == 0 && w.tab_action
                == v.tab_action
        }),
{
}

/// `y` lets the pane write the clipboard and forwards what waits, `n` does not,
/// and Esc puts what waits back. Any other key leaves the prompt open.
pub proof fn the_clipboard_prompt_is_answered(
    v: UiView,
    code: KeyCode,
    m: KeyModifiers,
    keymap: keymap::KeymapView,
    panes: Map<usize, Pane>,
    env: Env,
)
    requires
        v.osc52_confirm is Some,
        panes.contains_key(v.osc52_confirm->Some_0.pane_id),
    ensures
        ({
            let (w, asked) = input_modes::key_step(v, press(code, m), keymap, panes, env);
            let c = v.osc52_confirm->Some_0;
            let yes = code == KeyCode::Char('y') || code == KeyCode::Char('Y');
            let no = code == KeyCode::Char('n') || code == KeyCode::Char('N');
            &&& yes ==> asked == seq![
                Work::AllowClipboard { pane: c.pane_id, forward: c.queued_payloads },
            ]
            &&& no ==> asked == seq![state::plain(Effect::DenyClipboard { pane: c.pane_id })]
            &&& code == KeyCode::Esc ==> asked == seq![
                Work::RequeueClipboard { pane: c.pane_id, payloads: c.queued_payloads },
            ]
            &&& yes || no || code == KeyCode::Esc ==> w.osc52_confirm is None
            &&& !yes && !no && code != KeyCode::Esc ==> w == v && asked.len() == 0
        }),
{
}

/// In the choice of a pane, a digit gives the pane of that number the focus, `0`
/// the tenth, where there is one. Any key leads back.
pub proof fn digits_pick_panes(
    v: UiView,
    d: char,
    m: KeyModifiers,
    keymap: keymap::KeymapView,
    panes: Map<usize, Pane>,
    env: Env,
)
    requires
        v.osc52_confirm is None,
        v.mode == ModeView::PaneSelect,
        '0' <= d <= '9',
    ensures
        ({
            let w = input_modes::key_step(v, press(KeyCode::Char(d), m), keymap, panes, env).0;
            let all = layout::ids(v.layout.root);
            let n = if d == '0' {
                10
            } else {
                d as int - '0' as int
            };
            &&& w.mode == ModeView::Normal && w.layout == v.layout
            &&& n <= all.len() && panes.contains_key(all[n - 1]) ==> w.active == all[n - 1]
            &&& !(n <= all.len() && panes.contains_key(all[n - 1])) ==> w.active == v.active
        }),
{
}

/// A prompt for a name takes characters at its end, Backspace takes the last
/// one away, and Enter renames the tab unless the prompt is empty.
pub proof fn names_are_typed(
    v: UiView,
    buffer: Seq<char>,
    c: char,
    m: KeyModifiers,
    keymap: keymap::KeymapView,
    panes: Map<usize, Pane>,
    env: Env,
)
    requires
        v.osc52_confirm is None,
        v.mode == (ModeView::RenameTab { buffer }),
        !m.control,
    ensures
        ({
            let typed = input_modes::key_step(v, press(KeyCode::Char(c), m), keymap, panes, env).0;
            let back = input_modes::key_step(
                typed,
                press(KeyCode::Backspace, m),
                keymap,
                panes,
                env,
            ).0;
            let done = input_modes::key_step(v, press(KeyCode::Enter, m), keymap, panes, env).0;
            &&& typed.mode == (ModeView::RenameTab { buffer: buffer + seq![c] })
            &&& back.mode == v.mode
            &&& done.mode == ModeView::Normal
            &&& done.tab_action == (if buffer.len() > 0 {
                TabActionView::Rename(buffer)
            } else {
                v.tab_action
            })
        }),
{
    assert(buffer.push(c) =~= buffer + seq![c]);
    assert(buffer.push(c).drop_last() =~= buffer);
}

/// In the command palette the arrows move the choice up and down by one, a
/// character is added to the line and to the query, Backspace takes it away
/// again, and Enter runs the line.
pub proof fn the_palette_is_used(
    v: UiView,
    buffer: Seq<char>,
    c: char,
    m: KeyModifiers,
    keymap: keymap::KeymapView,
    panes: Map<usize, Pane>,
    env: Env,
)
    requires
        v.osc52_confirm is None,
        v.mode == (ModeView::CommandPalette { buffer }),
        !m.control,
    ensures
        ({
            let up = input_modes::key_step(v, press(KeyCode::Up, m), keymap, panes, env).0;
            let down = input_modes::key_step(v, press(KeyCode::Down, m), keymap, panes, env).0;
            let typed = input_modes::key_step(v, press(KeyCode::Char(c), m), keymap, panes, env).0;
            let back = input_modes::key_step(
                typed,
                press(KeyCode::Backspace, m),
                keymap,
                panes,
                env,
            ).0;
            let (done, asked) = input_modes::key_step(v, press(KeyCode::Enter, m), keymap, panes, env);
            &&& v.palette.selected > 0 ==> up.palette.selected == v.palette.selected - 1
            &&& v.palette.selected == 0 ==> up.palette.selected == 0
            &&& v.palette.selected < usize::MAX ==> down.palette.selected == v.palette.selected + 1
            &&& typed.mode == (ModeView::CommandPalette { buffer: buffer + seq![c] })
            &&& typed.palette.query == v.palette.query + seq![c]
            &&& back.mode == v.mode && back.palette.query == v.palette.query
            &&& done.mode == ModeView::Normal
            &&& asked.len() >= 1 && asked.last() == Work::RunCommand(buffer)
            &&& asked.len() == 2 ==> asked[0] == Work::PushHistory(buffer)
            &&& asked.len() == (if crate::text::trim(buffer).len() > 0 {
                2int
            } else {
                1
            })
        }),
{
    let q = v.palette.query;
    assert(buffer.push(c) =~= buffer + seq![c]);
    assert(buffer.push(c).drop_last() =~= buffer);
    assert(q.push(c) =~= q + seq![c]);
    assert(q.push(c).drop_last() =~= q);
}

// ─── Copy mode ─────────────────────────────────────────────

/// In copy mode a key goes to the active pane together with how far it scrolls:
/// up from the first row and down from the last one by a line, Ctrl with `u` and
/// `d` by half a page, the page keys by a page, `g` to the oldest line and `G`
/// to the newest.
pub proof fn copy_mode_scrolls(
    v: UiView,
    s: CopyModeState,
    keymap: keymap::KeymapView,
    panes: Map<usize, Pane>,
    env: Env,
)
    requires
        v.osc52_confirm is None,
        v.mode == ModeView::CopyMode(s),
        panes.contains_key(v.active),
    ensures
        forall|code: KeyCode, m: KeyModifiers|
            #![trigger press(code, m)]
            is_free(v, press(code, m), keymap) ==> ({
                let asked = input_modes::key_step(v, press(code, m), keymap, panes, env).1;
                let goes = |scroll: CopyScroll|
                    asked == seq![
                        state::plain(Effect::CopyKey { pane: v.active, key: press(code, m), scroll }),
                    ];
                &&& asked.len() == 1
                &&& (code == KeyCode::Up || code == KeyCode::Char('k')) && s.cursor_row == 0 ==> goes(
                    CopyScroll::Up(1),
                )
                &&& (code == KeyCode::Up || code == KeyCode::Char('k')) && s.cursor_row > 0 ==> goes(
                    CopyScroll::Stay,
                )
                &&& (code == KeyCode::Down || code == KeyCode::Char('j')) && s.cursor_row + 1
                    >= s.pane_rows ==> goes(CopyScroll::Down(1))
                &&& (code == KeyCode::Down || code == KeyCode::Char('j')) && s.cursor_row + 1
                    < s.pane_rows ==> goes(CopyScroll::Stay)
                &&& code == KeyCode::Char('u') && m.control ==> goes(CopyScroll::Up(s.pane_rows / 2))
                &&& code == KeyCode::Char('d') && m.control ==> goes(
                    CopyScroll::Down(s.pane_rows / 2),
                )
                &&& code == KeyCode::PageUp ==> goes(CopyScroll::Up(s.pane_rows))
                &&& code == KeyCode::PageDown ==> goes(CopyScroll::Down(s.pane_rows))
                &&& code == KeyCode::Char('g') && !m.control ==> goes(CopyScroll::Top)
                &&& code == KeyCode::Char('G') ==> goes(CopyScroll::Bottom)
            }),
{
}

/// Copy mode begins on the last row of the pane, with the size of its screen:
/// rows first, then columns.
pub proof fn copy_mode_begins_at_the_bottom(
    v: UiView,
    m: KeyModifiers,
    keymap: keymap::KeymapView,
    panes: Map<usize, Pane>,
    env: Env,
)
    requires
        v.mode is Prefix,
        panes.contains_key(v.active),
        is_free(v, press(KeyCode::Char('['), m), keymap),
    ensures
        ({
            let w = input_modes::key_step(v, press(KeyCode::Char('['), m), keymap, panes, env).0;
            &&& w.mode is CopyMode
            &&& w.mode->CopyMode_0.pane_rows == env.screen.0
            &&& w.mode->CopyMode_0.pane_cols == env.screen.1
            &&& env.screen.0 > 0 ==> w.mode->CopyMode_0.cursor_row + 1 == env.screen.0
        }),
{
}

// ─── Resize mode ───────────────────────────────────────────

/// A separator along the side `nav` of the active pane was moved by `d`: to the
/// right or down so that what lies before it grows, to the left or up so that
/// it shrinks. Nothing changed where the pane has no separator on that side.
pub open spec fn separator_moved(v: UiView, w: UiView, nav: NavDir, d: Ratio, env: Env) -> bool {
    let inner = render::inner_rect(v.settings.show_status_bar, env.tw, env.th);
    let p = places(v, env)[v.active];
    let on = nav == NavDir::Right || nav == NavDir::Down;
    if geometry::at_the_edge(p, inner, nav) {
        w.layout == v.layout
    } else {
        exists|path: Seq<bool>|
            #![trigger geometry::node_at(v.layout.root, path)]
            {
                &&& geometry::borders(v.layout.root, path, inner, p, nav)
                &&& w.layout.root == layout::with_nudge(v.layout.root, path, d, on)
                &&& geometry::node_at(w.layout.root, path)->ratio == ratio::nudged(
                    geometry::node_at(v.layout.root, path)->ratio,
                    d,
                    on,
                )
            }
    }
}

proof fn lemma_resized(v: UiView, w: UiView, nav: NavDir, d: Ratio, env: Env)
    requires
        layout::ids(v.layout.root).no_duplicates(),
        layout::ids(v.layout.root).contains(v.active),
        geometry::all_shown(
            v.layout.root,
            render::inner_rect(v.settings.show_status_bar, env.tw, env.th),
        ),
        w.layout == actions::resized(v, nav, d).0.layout,
    ensures
        separator_moved(v, w, nav, d, env),
{
    let inner = render::inner_rect(v.settings.show_status_bar, env.tw, env.th);
    assert(inner.fits());
    geometry::resizing_moves_the_separator_on_that_side(v.layout.root, v.active, nav, inner);
    match layout::resize_path(v.layout.root, v.active, nav) {
        Some(path) => {
            let on = nav == NavDir::Right || nav == NavDir::Down;
            geometry::a_nudge_changes_one_split(v.layout.root, path, d, on, path);
            assert(geometry::borders(v.layout.root, path, inner, places(v, env)[v.active], nav));
        },
        None => {},
    }
}

/// In resize mode the arrows, and `h`, `j`, `k` and `l`, move the separator on
/// that side of the active pane by a step that way.
pub proof fn resize_keys_move_separators(
    v: UiView,
    m: KeyModifiers,
    keymap: keymap::KeymapView,
    panes: Map<usize, Pane>,
    env: Env,
)
    requires
        v.osc52_confirm is None,
        v.mode == ModeView::ResizeMode,
        layout::ids(v.layout.root).no_duplicates(),
        layout::ids(v.layout.root).contains(v.active),
        geometry::all_shown(
            v.layout.root,
            render::inner_rect(v.settings.show_status_bar, env.tw, env.th),
        ),
    ensures
        separator_moved(
            v,
            input_modes::key_step(v, press(KeyCode::Left, m), keymap, panes, env).0,
            NavDir::Left,
            ratio::step(),
            env,
        ),
        separator_moved(
            v,
            input_modes::key_step(v, press(KeyCode::Char('h'), m), keymap, panes, env).0,
            NavDir::Left,
            ratio::step(),
            env,
        ),
        separator_moved(
            v,
            input_modes::key_step(v, press(KeyCode::Right, m), keymap, panes, env).0,
            NavDir::Right,
            ratio::step(),
            env,
        ),
        separator_moved(
            v,
            input_modes::key_step(v, press(KeyCode::Char('l'), m), keymap, panes, env).0,
            NavDir::Right,
            ratio::step(),
            env,
        ),
        separator_moved(
            v,
            input_modes::key_step(v, press(KeyCode::Up, m), keymap, panes, env).0,
            NavDir::Up,
            ratio::step(),
            env,
        ),
        separator_moved(
            v,
            input_modes::key_step(v, press(KeyCode::Char('k'), m), keymap, panes, env).0,
            NavDir::Up,
            ratio::step(),
            env,
        ),
        separator_moved(
            v,
            input_modes::key_step(v, press(KeyCode::Down, m), keymap, panes, env).0,
            NavDir::Down,
            ratio::step(),
            env,
        ),
        separator_moved(
            v,
            input_modes::key_step(v, press(KeyCode::Char('j'), m), keymap, panes, env).0,
            NavDir::Down,
            ratio::step(),
            env,
        ),
{
    lemma_resized(
        v,
        actions::resized(v, NavDir::Left, ratio::step()).0,
        NavDir::Left,
        ratio::step(),
        env,
    );
    lemma_resized(
        v,
        actions::resized(v, NavDir::Right, ratio::step()).0,
        NavDir::Right,
        ratio::step(),
        env,
    );
    lemma_resized(
        v,
        actions::resized(v, NavDir::Up, ratio::step()).0,
        NavDir::Up,
        ratio::step(),
        env,
    );
    lemma_resized(
        v,
        actions::resized(v, NavDir::Down, ratio::step()).0,
        NavDir::Down,
        ratio::step(),
        env,
    );
}

/// The command to resize a pane moves the separator on that side of it, a step
/// for each cell asked for.
pub proof fn resize_commands_move_separators(v: UiView, dir: Dir, amount: u16, env: Env)
    requires
        layout::ids(v.layout.root).no_duplicates(),
        layout::ids(v.layout.root).contains(v.active),
        geometry::all_shown(
            v.layout.root,
            render::inner_rect(v.settings.show_status_bar, env.tw, env.th),
        ),
    ensures
        separator_moved(
            v,
            actions::command_step(v, CommandView::ResizePane { dir, amount }, env).0,
            match dir {
                Dir::Left => NavDir::Left,
                Dir::Right => NavDir::Right,
                Dir::Up => NavDir::Up,
                Dir::Down => NavDir::Down,
            },
            ratio::steps(amount),
            env,
        ),
{
    let nav = match dir {
        Dir::Left => NavDir::Left,
        Dir::Right => NavDir::Right,
        Dir::Up => NavDir::Up,
        Dir::Down => NavDir::Down,
    };
    lemma_resized(
        v,
        actions::command_step(v, CommandView::ResizePane { dir, amount }, env).0,
        nav,
        ratio::steps(amount),
        env,
    );
}

// ─── Commands and bound actions ────────────────────────────

/// The commands split the active pane into columns or rows, close it, open and
/// close tabs and rename the tab.
pub proof fn commands_do_what_they_name(v: UiView, name: Seq<char>, env: Env)
    ensures
        actions::command_step(v, CommandView::SplitHorizontal, env).1 == seq![
            state::plain(Effect::Split { target: v.active, dir: Direction::Horizontal }),
            state::plain(Effect::MarkAll),
        ],
        actions::command_step(v, CommandView::SplitVertical, env).1 == seq![
            state::plain(Effect::Split { target: v.active, dir: Direction::Vertical }),
            state::plain(Effect::MarkAll),
        ],
        actions::command_step(v, CommandView::KillPane, env).1 == seq![
            state::plain(Effect::ClosePane { target: v.active }),
            state::plain(Effect::ResizeAll),
            state::plain(Effect::MarkAll),
        ],
        actions::command_step(v, CommandView::KillWindow, env).0.tab_action == TabActionView::CloseTab,
        actions::command_step(v, CommandView::NewWindow { name: Some(name) }, env).0.tab_action == TabActionView::NewTab,
        actions::command_step(v, CommandView::NewWindow { name: None }, env).0.tab_action == TabActionView::NewTab,
        actions::command_step(v, CommandView::RenameWindow { name }, env).0.tab_action == TabActionView::Rename(name),
{
}

/// The command to select a pane moves the focus that way.
pub proof fn select_commands_move_the_focus(v: UiView, dir: Dir, env: Env)
    requires
        layout::ids(v.layout.root).contains(v.active),
    ensures
        focus_went(
            v,
            actions::command_step(v, CommandView::SelectPane { dir }, env).0,
            match dir {
                Dir::Left => NavDir::Left,
                Dir::Right => NavDir::Right,
                Dir::Up => NavDir::Up,
                Dir::Down => NavDir::Down,
            },
            env,
        ),
{
    let w = actions::command_step(v, CommandView::SelectPane { dir }, env).0;
    let nav = match dir {
        Dir::Left => NavDir::Left,
        Dir::Right => NavDir::Right,
        Dir::Up => NavDir::Up,
        Dir::Down => NavDir::Down,
    };
    lemma_focus(v, w, nav, env);
}

/// The command to swap panes changes the places of the active pane and the one
/// before it, or after it.
pub proof fn swap_commands_exchange_neighbours(v: UiView, env: Env)
    requires
        layout::ids(v.layout.root).no_duplicates(),
        layout::ids(v.layout.root).contains(v.active),
    ensures
        ({
            let all = layout::ids(v.layout.root);
            let n = all.len() as int;
            let i = all.index_of(v.active);
            let before = if i == 0 {
                all[n - 1]
            } else {
                all[i - 1]
            };
            let next = all[(i + 1) % n];
            let up = actions::command_step(v, CommandView::SwapPane { up: true }, env).0;
            let down = actions::command_step(v, CommandView::SwapPane { up: false }, env).0;
            &&& places(up, env)[v.active] == places(v, env)[before]
            &&& places(up, env)[before] == places(v, env)[v.active]
            &&& places(down, env)[v.active] == places(v, env)[next]
            &&& places(down, env)[next] == places(v, env)[v.active]
        }),
{
    let all = layout::ids(v.layout.root);
    let inner = render::inner_rect(v.settings.show_status_bar, env.tw, env.th);
    assert(inner.fits());
    all.index_of_first_ensures(v.active);
    layout::cycle_there_and_back(all, v.active);
    geometry::swapping_exchanges_places(
        v.layout.root,
        v.active,
        layout::cycle_prev(all, v.active),
        inner,
    );
    geometry::swapping_exchanges_places(
        v.layout.root,
        v.active,
        layout::cycle_next(all, v.active),
        inner,
    );
}

/// A key bound to an action of the tabs or of the session does what the action
/// names.
pub proof fn bound_keys_choose_tabs(
    v: UiView,
    t: KeymapTable,
    index: usize,
    panes: Map<usize, Pane>,
    env: Env,
)
    ensures
        input_modes::bound_step(v, t, ActionView::Plain(Action::NextWindow), panes, env).0.tab_action == TabActionView::NextTab,
        input_modes::bound_step(v, t, ActionView::Plain(Action::PreviousWindow), panes, env).0.tab_action == TabActionView::PrevTab,
        input_modes::bound_step(v, t, ActionView::Plain(Action::SelectWindow { index }), panes, env).0.tab_action == TabActionView::GoToTab(index),
        input_modes::bound_step(v, t, ActionView::Plain(Action::DetachSession), panes, env).0.detach_requested,
        input_modes::bound_step(v, t, ActionView::Plain(Action::KillSession), panes, env).0.mode == ModeView::QuitConfirm,
        input_modes::bound_step(v, t, ActionView::Plain(Action::RenameWindow), panes, env).0.mode is RenameTab,
        input_modes::bound_step(v, t, ActionView::Plain(Action::CommandPrompt), panes, env).0.mode is CommandPalette,
        panes.contains_key(v.active) ==> input_modes::bound_step(v, t, ActionView::Plain(Action::CopyMode), panes, env).0.mode is CopyMode,
{
}

/// A key bound to a switch turns it.
pub proof fn bound_keys_switch(
    v: UiView,
    t: KeymapTable,
    panes: Map<usize, Pane>,
    env: Env,
)
    ensures
        input_modes::bound_step(v, t, ActionView::Plain(Action::ToggleBroadcast), panes, env).0.broadcast == !v.broadcast,
        input_modes::bound_step(v, t, ActionView::Plain(Action::ToggleSettings), panes, env).0.settings.visible == !v.settings.visible,
{
}

/// A key bound to an action that is also a command does what the command does.
pub proof fn bound_keys_run_commands(
    v: UiView,
    t: KeymapTable,
    dir: Dir,
    amount: u16,
    up: bool,
    panes: Map<usize, Pane>,
    env: Env,
)
    ensures
        input_modes::bound_step(v, t, ActionView::Plain(Action::SplitWindowH), panes, env).1 == actions::command_step(v, CommandView::SplitHorizontal, env).1,
        input_modes::bound_step(v, t, ActionView::Plain(Action::SplitWindowV), panes, env).1 == actions::command_step(v, CommandView::SplitVertical, env).1,
        input_modes::bound_step(v, t, ActionView::Plain(Action::KillPane), panes, env).1 == actions::command_step(v, CommandView::KillPane, env).1,
        input_modes::bound_step(v, t, ActionView::Plain(Action::KillWindow), panes, env).0.tab_action == TabActionView::CloseTab,
        input_modes::bound_step(v, t, ActionView::Plain(Action::SelectPane { dir }), panes, env).0.active == actions::command_step(v, CommandView::SelectPane { dir }, env).0.active,
        input_modes::bound_step(v, t, ActionView::Plain(Action::SwapPane { up }), panes, env).0.layout == actions::command_step(v, CommandView::SwapPane { up }, env).0.layout,
        input_modes::bound_step(v, t, ActionView::Plain(Action::ResizePane { dir, amount }), panes, env).0.layout == actions::command_step(v, CommandView::ResizePane { dir, amount }, env).0.layout,
{
}

} // verus!
