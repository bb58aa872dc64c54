//! Events of a terminal: keys, the mouse, the focus and pasted text.

use std::collections::{HashMap, HashSet};

use vstd::prelude::*;
use vstd::string::*;

use crate::keymap;
use crate::keymap::Keymap;
use crate::keys::{Event, KeyEventKind};
use crate::pane::Pane;
use crate::protocol::push_bytes;
use crate::render::BorderCache;
use crate::server::input_modes;
use crate::server::input_modes::KeyStep;
use crate::server::mouse;
use crate::server::state;
use crate::server::state::{ask, Effect, Env, Ui, UiView, Work};

verus! {

broadcast use vstd::std_specs::hash::group_hash_axioms;

/// The sequence that tells a program of the focus.
pub open spec fn focus_bytes(gained: bool) -> Seq<u8> {
    if gained {
        seq![0x1bu8, 0x5b, 0x49]
    } else {
        seq![0x1bu8, 0x5b, 0x4f]
    }
}

/// The start of bracketed paste, `ESC [ 2 0 0 ~`, or its end, `ESC [ 2 0 1 ~`.
pub open spec fn paste_bracket(open: bool) -> Seq<u8> {
    seq![0x1bu8, 0x5b, 0x32, 0x30, if open { 0x30 } else { 0x31 }, 0x7e]
}

/// A pasted text as a program gets it: between brackets if it asked for them.
pub open spec fn pasted(text: Seq<char>, bracketed: bool) -> Seq<u8> {
    let bytes = vstd::utf8::encode_utf8(text);
    if bracketed {
        paste_bracket(true) + bytes + paste_bracket(false)
    } else {
        bytes
    }
}

/// The work of an event that is neither a key nor the mouse. The focus is told
/// to a program that asked for it, and a text is pasted to one that runs.
pub open spec fn other_work(v: UiView, event: Event, panes: Map<usize, Pane>) -> Seq<Work> {
    let id = v.active;
    if !input_modes::runs(panes, id) {
        seq![]
    } else {
        match event {
            Event::FocusGained => if panes[id].ctx.state.focus_reporting {
                seq![Work::WriteBytes { pane: id, bytes: focus_bytes(true) }]
            } else {
                seq![]
            },
            Event::FocusLost => if panes[id].ctx.state.focus_reporting {
                seq![Work::WriteBytes { pane: id, bytes: focus_bytes(false) }]
            } else {
                seq![]
            },
            Event::Paste(text) => seq![
                Work::WriteBytes {
                    pane: id,
                    bytes: pasted(text@, panes[id].ctx.state.bracketed_paste),
                },
            ],
            _ => seq![],
        }
    }
}

/// What an event does. A key counts when it is pressed, the mouse once the
/// borders were worked out; a new size is not handled here.
pub open spec fn event_step(
    v: UiView,
    event: Event,
    keymap: keymap::KeymapView,
    panes: Map<usize, Pane>,
    grabs: Set<usize>,
    cache: Option<BorderCache>,
    tab: Option<(usize, usize)>,
    env: Env,
) -> KeyStep {
    match event {
        Event::Key(key) => if key.kind == KeyEventKind::Press {
            input_modes::key_step(v, key, keymap, panes, env)
        } else {
            input_modes::only(v)
        },
        Event::Mouse(m) => match cache {
            Some(c) => mouse::mouse_step(v, m, panes, grabs, c.pane_rects@, c.inner, tab, env),
            None => input_modes::only(v),
        },
        other => (v, other_work(v, other, panes)),
    }
}

fn paste_bytes(text: &str, bracketed: bool) -> (r: Vec<u8>)
    ensures
        r@ == pasted(text@, bracketed),
{
    let mut out: Vec<u8> = Vec::new();
    if bracketed {
        out = vec![0x1b, 0x5b, 0x32, 0x30, 0x30, 0x7e];
        assert(out@ =~= paste_bracket(true));
    }
    push_bytes(&mut out, text.as_bytes());
    if bracketed {
        let end: Vec<u8> = vec![0x1b, 0x5b, 0x32, 0x30, 0x31, 0x7e];
        assert(end@ =~= paste_bracket(false));
        push_bytes(&mut out, end.as_slice());
    }
    assert(out@ =~= pasted(text@, bracketed));
    out
}

pub(crate) fn tell_focus(pane: &Pane, id: usize, gained: bool, effects: &mut Vec<Effect>)
    ensures
        state::work(final(effects)@) == state::work(old(effects)@) + (
        if pane.ctx.state.focus_reporting {
            seq![Work::WriteBytes { pane: id, bytes: focus_bytes(gained) }]
        } else {
            seq![]
        }),
{
    let ghost before = state::work(effects@);
    assert(before + seq![] =~= before);
    if pane.wants_focus() {
        let bytes: Vec<u8> = if gained {
            vec![0x1b, 0x5b, 0x49]
        } else {
            vec![0x1b, 0x5b, 0x4f]
        };
        assert(bytes@ =~= focus_bytes(gained));
        ask(effects, Effect::WriteBytes { pane: id, bytes });
        assert(state::work(effects@) =~= before + seq![
            Work::WriteBytes { pane: id, bytes: focus_bytes(gained) },
        ]);
    }
}

fn process_other(
    ui: &Ui,
    event: &Event,
    panes: &HashMap<usize, Pane>,
    effects: &mut Vec<Effect>,
)
    ensures
        state::work(final(effects)@) == state::work(old(effects)@) + other_work(
            ui@,
            *event,
            panes@,
        ),
{
    let ghost before = state::work(effects@);
    assert(before + seq![] =~= before);
    let id: usize = ui.active;
    match panes.get(&id) {
        Some(pane) => {
            if pane.is_alive() {
                match event {
                    Event::FocusGained => tell_focus(pane, id, true, effects),
                    Event::FocusLost => tell_focus(pane, id, false, effects),
                    Event::Paste(text) => {
                        let bytes = paste_bytes(text.as_str(), pane.bracketed_paste());
                        ask(effects, Effect::WriteBytes { pane: id, bytes });
                        assert(state::work(effects@) =~= before + other_work(
                            ui@,
                            *event,
                            panes@,
                        ));
                    },
                    _ => {},
                }
            }
        },
        None => {},
    }
}

/// Handles an event of a terminal.
pub fn process_event(
    ui: &mut Ui,
    event: Event,
    keymap: &Keymap,
    panes: &HashMap<usize, Pane>,
    grabs: &HashSet<usize>,
    cache: &Option<BorderCache>,
    tab: Option<(usize, usize)>,
    env: &Env,
    effects: &mut Vec<Effect>,
)
    requires
        old(ui).wf(),
        keymap.wf(),
        cache matches Some(c) ==> c.inner.fits(),
    ensures
        final(ui).wf(),
        ({
            let (v, w) = event_step(
                old(ui)@,
                event,
                keymap@,
                panes@,
                grabs@,
                *cache,
                tab,
                *env,
            );
            final(ui)@ == v && state::work(final(effects)@) == state::work(old(effects)@) + w
        }),
{
    assert(state::work(effects@) + seq![] =~= state::work(effects@));
    match event {
        Event::Key(key) => {
            if key.kind == KeyEventKind::Press {
                input_modes::process_key(ui, key, keymap, panes, env, effects);
            }
        },
        Event::Mouse(m) => {
            match cache {
                Some(c) => mouse::process_mouse(ui, m, panes, grabs, c, tab, env, effects),
                None => {},
            }
        },
        other => process_other(ui, &other, panes, effects),
    }
}

/// A terminal that gets the focus is told to the program of the active pane
/// with `ESC [ I`, one that loses it with `ESC [ O`, where the program asked.
pub proof fn the_focus_of_the_terminal_is_told(v: UiView, panes: Map<usize, Pane>)
    requires
        input_modes::runs(panes, v.active),
        panes[v.active].ctx.state.focus_reporting,
    ensures
        other_work(v, Event::FocusGained, panes) == seq![
            Work::WriteBytes { pane: v.active, bytes: seq![0x1bu8, 0x5b, 0x49] },
        ],
        other_work(v, Event::FocusLost, panes) == seq![
            Work::WriteBytes { pane: v.active, bytes: seq![0x1bu8, 0x5b, 0x4f] },
        ],
{
}

/// A pasted text reaches the program as it is; one that asked for brackets gets
/// `ESC [ 2 0 0 ~` before it and `ESC [ 2 0 1 ~` after it.
pub proof fn pasted_text_is_bracketed(text: Seq<char>)
    ensures
        vstd::utf8::decode_utf8(pasted(text, false)) == text,
        ({
            let sent = pasted(text, true);
            let n = sent.len() as int;
            &&& n >= 12
            &&& sent.take(6) == seq![0x1bu8, 0x5b, 0x32, 0x30, 0x30, 0x7e]
            &&& sent.skip(n - 6) == seq![0x1bu8, 0x5b, 0x32, 0x30, 0x31, 0x7e]
            &&& vstd::utf8::decode_utf8(sent.subrange(6, n - 6)) == text
        }),
{
    vstd::utf8::encode_utf8_decode_utf8(text);
    let sent = pasted(text, true);
    let n = sent.len() as int;
    assert(sent.take(6) =~= seq![0x1bu8, 0x5b, 0x32, 0x30, 0x30, 0x7e]);
    assert(sent.skip(n - 6) =~= seq![0x1bu8, 0x5b, 0x32, 0x30, 0x31, 0x7e]);
    assert(sent.subrange(6, n - 6) =~= vstd::utf8::encode_utf8(text));
}

} // verus!
