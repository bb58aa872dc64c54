//! The decisions of the session's main loop, one function for each part of a
//! turn. The program around the library polls, reads and writes in between.

use std::collections::{HashMap, HashSet};

use vstd::prelude::*;
use vstd::string::*;

use crate::bytes;
use crate::layout::Layout;
use crate::pane::Pane;
use crate::project::RestartPolicy;
use crate::server::events;
use crate::server::input_modes;
use crate::server::state;
use crate::server::state::{
    ask, ConfirmView, Effect, InputMode, ModeView, Osc52ConfirmState, TabAction, TabActionView, Ui,
    UiView, UpdateView, Work,
};
use crate::settings;
use crate::settings::{FlashKind, ReloadOutcome};
use crate::signals::SignalState;
use crate::text;

verus! {

broadcast use vstd::std_specs::hash::group_hash_axioms;

// ─── Signals ───────────────────────────────────────────────

/// What a turn begins with.
#[derive(Clone, Copy, Debug, PartialEq, Eq, Structural)]
pub struct SignalWork {
    /// End the session; nothing else is done.
    pub shut_down: bool,
    /// Write the state of the session to a file.
    pub dump: bool,
    /// Read the configuration again.
    pub reload: bool,
}

/// What signals ask for. A key may have asked for a reload too. Children that
/// ended are noticed when their output is read.
pub fn on_signals(s: SignalState, reload_key: bool) -> (r: SignalWork)
    ensures
        r == (SignalWork {
            shut_down: s.sigterm,
            dump: !s.sigterm && s.sigusr1,
            reload: !s.sigterm && (s.sighup || reload_key),
        }),
{
    SignalWork {
        shut_down: s.sigterm,
        dump: !s.sigterm && s.sigusr1,
        reload: !s.sigterm && (s.sighup || reload_key),
    }
}

/// Names what asked for a reload.
pub fn reload_trigger(s: SignalState) -> (r: &'static str)
    ensures
        r@ == (if s.sighup {
            "SIGHUP"@
        } else {
            "Ctrl+B r"@
        }),
{
    if s.sighup {
        "SIGHUP"
    } else {
        "Ctrl+B r"
    }
}

/// Takes the request for a reload that a key left.
pub fn take_reload_request(ui: &mut Ui) -> (r: bool)
    requires
        old(ui).wf(),
    ensures
        final(ui).wf(),
        r == old(ui)@.settings.reload_request,
        final(ui)@ == (UiView {
            settings: settings::Settings { reload_request: false, ..old(ui)@.settings },
            ..old(ui)@
        }),
{
    let asked = ui.settings.reload_request;
    ui.settings.reload_request = false;
    asked
}

pub open spec fn static_texts(v: Seq<&'static str>) -> Seq<Seq<char>> {
    v.map_values(|s: &'static str| s@)
}

/// What the user is told about a reload.
pub open spec fn reload_note(o: ReloadOutcome) -> (Seq<char>, FlashKind) {
    match o {
        ReloadOutcome::Reloaded { non_reloadable_changed } => (
            if non_reloadable_changed@.len() == 0 {
                "config reloaded"@
            } else {
                "config reloaded (restart for: "@ + text::join(
                    static_texts(non_reloadable_changed@),
                    ", "@,
                ) + ")"@
            },
            FlashKind::Info,
        ),
        ReloadOutcome::Error(e) => ("config error: "@ + e@, FlashKind::Error),
    }
}

/// What the user is told about a reload.
pub fn reload_message(o: &ReloadOutcome) -> (r: (String, FlashKind))
    ensures
        (r.0@, r.1) == reload_note(*o),
{
    match o {
        ReloadOutcome::Reloaded { non_reloadable_changed } => {
            if non_reloadable_changed.len() == 0 {
                return ("config reloaded".to_owned(), FlashKind::Info);
            }
            let mut names: Vec<String> = Vec::new();
            let mut i: usize = 0;
            let ghost all = static_texts(non_reloadable_changed@);
            assert(text::texts(names@) =~= all.take(0));
            while i < non_reloadable_changed.len()
                invariant
                    i <= non_reloadable_changed@.len(),
                    all == static_texts(non_reloadable_changed@),
                    text::texts(names@) == all.take(i as int),
                decreases non_reloadable_changed@.len() - i,
            {
                let name = non_reloadable_changed[i].to_owned();
                proof {
                    text::lemma_texts_push(names@, name);
                    assert(all.take(i + 1) =~= all.take(i as int).push(all[i as int]));
                }
                names.push(name);
                i += 1;
            }
            proof {
                assert(all.take(i as int) =~= all);
                assert(text::texts(names@).skip(0) =~= all);
            }
            let joined = text::join_text(&names, 0, ", ");
            let mut s = "config reloaded (restart for: ".to_owned();
            s.append(joined.as_str());
            s.append(")");
            (s, FlashKind::Info)
        },
        ReloadOutcome::Error(e) => {
            let mut s = "config error: ".to_owned();
            s.append(e.as_str());
            (s, FlashKind::Error)
        },
    }
}

/// The state after a reload that changed what is shown.
pub open spec fn reload_shown(v: UiView) -> (UiView, Seq<Work>) {
    let w = UiView { settings: settings::Settings { reload_dirty: false, ..v.settings }, ..v };
    if v.settings.reload_dirty {
        (
            state::marked(w),
            match v.zoomed_pane {
                Some(id) => seq![
                    state::plain(Effect::ResizeAll),
                    state::plain(Effect::ResizeZoomed(id)),
                ],
                None => seq![state::plain(Effect::ResizeAll)],
            },
        )
    } else {
        (w, seq![])
    }
}

/// Shows what a reload changed.
pub fn show_reload(ui: &mut Ui, effects: &mut Vec<Effect>)
    requires
        old(ui).wf(),
    ensures
        final(ui).wf(),
        ({
            let (v, w) = reload_shown(old(ui)@);
            final(ui)@ == v && state::work(final(effects)@) == state::work(old(effects)@) + w
        }),
{
    let ghost before = state::work(effects@);
    assert(before + seq![] =~= before);
    let dirty = ui.settings.reload_dirty;
    ui.settings.reload_dirty = false;
    if dirty {
        ask(effects, Effect::ResizeAll);
        match ui.zoomed_pane {
            Some(id) => ask(effects, Effect::ResizeZoomed(id)),
            None => {},
        }
        assert(state::work(effects@) =~= before + reload_shown(old(ui)@).1);
        ui.mark_layout();
    }
}

// ─── Focus ─────────────────────────────────────────────────

/// The work of telling a pane that it got or lost the focus.
pub open spec fn focus_work(panes: Map<usize, Pane>, id: usize, gained: bool) -> Seq<Work> {
    if input_modes::runs(panes, id) && panes[id].ctx.state.focus_reporting {
        seq![Work::WriteBytes { pane: id, bytes: events::focus_bytes(gained) }]
    } else {
        seq![]
    }
}

/// What a change of the focus since the last turn asks for.
pub open spec fn focus_tracked(v: UiView, prev: usize, panes: Map<usize, Pane>) -> (
    UiView,
    Seq<Work>,
) {
    if v.active != prev {
        (
            UiView { last_active: prev, ..v },
            focus_work(panes, prev, false) + focus_work(panes, v.active, true),
        )
    } else {
        (v, seq![])
    }
}

fn tell(panes: &HashMap<usize, Pane>, id: usize, gained: bool, effects: &mut Vec<Effect>)
    ensures
        state::work(final(effects)@) == state::work(old(effects)@) + focus_work(
            panes@,
            id,
            gained,
        ),
{
    assert(state::work(effects@) + seq![] =~= state::work(effects@));
    match panes.get(&id) {
        Some(p) => {
            if p.is_alive() {
                events::tell_focus(p, id, gained, effects);
            }
        },
        None => {},
    }
}

/// Tells the panes about a change of the focus since the last turn, and
/// remembers where it was. Tells whether it changed.
pub fn track_focus(
    ui: &mut Ui,
    prev: &mut usize,
    panes: &HashMap<usize, Pane>,
    effects: &mut Vec<Effect>,
) -> (r: bool)
    ensures
        r == (old(ui)@.active != *old(prev)),
        *final(prev) == old(ui)@.active,
        ({
            let (v, w) = focus_tracked(old(ui)@, *old(prev), panes@);
            final(ui)@ == v && state::work(final(effects)@) == state::work(old(effects)@) + w
        }),
{
    let ghost before = state::work(effects@);
    assert(before + seq![] =~= before);
    let active: usize = ui.active;
    if active == *prev {
        return false;
    }
    tell(panes, *prev, false, effects);
    tell(panes, active, true, effects);
    assert(state::work(effects@) =~= before + (focus_work(panes@, *prev, false) + focus_work(
        panes@,
        active,
        true,
    )));
    ui.last_active = *prev;
    *prev = active;
    true
}

// ─── Clocks ────────────────────────────────────────────────

/// How often the status bar is drawn and working directories are asked for, in
/// milliseconds.
pub const TICK_MS: u64 = 1_000;

/// How long the prefix holds, in milliseconds.
pub const PREFIX_MS: u64 = 3_000;

/// How long a transient message is shown, in milliseconds.
pub const FLASH_MS: u64 = 2_000;

/// The time since a moment.
pub open spec fn since(then_at: u64, now: u64) -> int {
    if now >= then_at {
        now - then_at
    } else {
        0
    }
}

fn elapsed(then_at: u64, now: u64) -> (r: u64)
    ensures
        r == since(then_at, now),
{
    if now >= then_at {
        now - then_at
    } else {
        0
    }
}

/// Tells whether a second has passed, and if so begins the next.
pub fn tick(last: &mut u64, now: u64) -> (r: bool)
    ensures
        r == (since(*old(last), now) >= TICK_MS),
        *final(last) == if r {
            now
        } else {
            *old(last)
        },
{
    if elapsed(*last, now) >= TICK_MS {
        *last = now;
        true
    } else {
        false
    }
}

/// Ends prefix mode when no key followed in time.
pub fn expire_prefix(ui: &mut Ui, now: u64)
    ensures
        final(ui)@ == (match old(ui)@.mode {
            ModeView::Prefix { entered_at } => if since(entered_at, now) > PREFIX_MS {
                input_modes::left_mode(old(ui)@)
            } else {
                old(ui)@
            },
            _ => old(ui)@,
        }),
{
    let over = match &ui.mode {
        InputMode::Prefix { entered_at } => elapsed(*entered_at, now) > PREFIX_MS,
        _ => false,
    };
    if over {
        ui.set_mode(InputMode::Normal);
        ui.redraw();
    }
}

/// Drops a transient message that was shown long enough.
pub fn expire_flash(ui: &mut Ui, now: u64)
    ensures
        final(ui)@ == (match old(ui)@.flash_message {
            Some((_, t)) => if since(t, now) >= FLASH_MS {
                state::redrawn(UiView { flash_message: None, ..old(ui)@ })
            } else {
                old(ui)@
            },
            None => old(ui)@,
        }),
{
    let over = match &ui.flash_message {
        Some((_, t)) => elapsed(*t, now) >= FLASH_MS,
        None => false,
    };
    if over {
        ui.flash_message = None;
        ui.redraw();
    }
}

/// How long to wait for the next event, in milliseconds: shortly after a frame
/// was drawn, longer where nothing happens, longest where nobody watches.
pub fn wait_ms(clients: usize, rendered: bool) -> (r: u64)
    ensures
        r == (if clients == 0 {
            20
        } else if rendered {
            2
        } else {
            8u64
        }),
{
    if clients == 0 {
        20
    } else if rendered {
        2
    } else {
        8
    }
}

// ─── Panes that come and go ────────────────────────────────

/// The panes among the first `k` that were not seen before.
pub open spec fn unseen(ids: Seq<usize>, seen: Set<usize>, k: nat) -> Seq<usize>
    decreases k,
{
    if k == 0 {
        seq![]
    } else {
        let before = unseen(ids, seen, (k - 1) as nat);
        if seen.contains(ids[k - 1]) {
            before
        } else {
            before.push(ids[k - 1])
        }
    }
}

/// The panes that were not seen before. Afterwards the panes that are there,
/// and only those, have been seen: the number of a pane that is gone counts
/// anew. `ids` names each pane once.
pub fn newly_spawned(ids: &Vec<usize>, seen: &mut HashSet<usize>) -> (r: Vec<usize>)
    ensures
        r@ == unseen(ids@, old(seen)@, ids@.len()),
        final(seen)@ == ids@.to_set(),
{
    let mut out: Vec<usize> = Vec::new();
    let mut now: HashSet<usize> = HashSet::new();
    let mut i: usize = 0;
    assert(ids@.take(0).to_set() =~= Set::<usize>::empty());
    while i < ids.len()
        invariant
            i <= ids@.len(),
            out@ == unseen(ids@, old(seen)@, i as nat),
            seen@ == old(seen)@,
            now@ == ids@.take(i as int).to_set(),
        decreases ids@.len() - i,
    {
        let id: usize = ids[i];
        if !seen.contains(&id) {
            out.push(id);
        }
        let ghost before = ids@.take(i as int);
        let _ = now.insert(id);
        i += 1;
        proof {
            let after = ids@.take(i as int);
            assert(after =~= before.push(id));
            lemma_set_of_push(before, id);
        }
    }
    assert(ids@.take(i as int) =~= ids@);
    *seen = now;
    out
}

proof fn lemma_set_of_push(s: Seq<usize>, x: usize)
    ensures
        s.push(x).to_set() == s.to_set().insert(x),
{
    assert forall|y: usize| #[trigger] s.push(x).contains(y) == (s.contains(y) || y == x) by {
        if s.contains(y) {
            let j = s.index_of(y);
            assert(s.push(x)[j] == y);
        }
        if y == x {
            assert(s.push(x)[s.len() as int] == y);
        }
        if s.push(x).contains(y) {
            let j = s.push(x).index_of(y);
            if j < s.len() {
                assert(s[j] == y);
            }
        }
    }
    assert forall|y: usize| s.push(x).to_set().contains(y) == s.to_set().insert(x).contains(y) by {
        assert(s.push(x).contains(y) == (s.contains(y) || y == x));
    }
    assert(s.push(x).to_set() =~= s.to_set().insert(x));
}

/// The panes among the first `k` whose program has ended and of which that was
/// not told before.
pub open spec fn ended(ids: Seq<usize>, panes: Map<usize, Pane>, told: Set<usize>, k: nat) -> Seq<usize>
    decreases k,
{
    if k == 0 {
        seq![]
    } else {
        let before = ended(ids, panes, told, (k - 1) as nat);
        let id = ids[k - 1];
        if panes.contains_key(id) && !panes[id].alive && !told.contains(id) {
            before.push(id)
        } else {
            before
        }
    }
}

/// The panes whose program has ended since the last turn. `ids` names each pane
/// once.
pub fn newly_exited(
    ids: &Vec<usize>,
    panes: &HashMap<usize, Pane>,
    told: &mut HashSet<usize>,
) -> (r: Vec<usize>)
    requires
        ids@.no_duplicates(),
    ensures
        r@ == ended(ids@, panes@, old(told)@, ids@.len()),
        final(told)@ == old(told)@ + r@.to_set(),
{
    let mut out: Vec<usize> = Vec::new();
    let mut i: usize = 0;
    proof {
        assert(out@.to_set() =~= Set::<usize>::empty());
        assert(told@ =~= old(told)@ + out@.to_set());
    }
    while i < ids.len()
        invariant
            i <= ids@.len(),
            ids@.no_duplicates(),
            out@ == ended(ids@, panes@, old(told)@, i as nat),
            told@ == old(told)@ + out@.to_set(),
            forall|x: usize| #[trigger] out@.contains(x) ==> ids@.take(i as int).contains(x),
        decreases ids@.len() - i,
    {
        let id: usize = ids[i];
        proof {
            if out@.contains(id) {
                let before = ids@.take(i as int);
                let j = before.index_of(id);
                assert(ids@[j] == ids@[i as int]);
            }
            assert(!out@.contains(id));
        }
        let dead = match panes.get(&id) {
            Some(p) => !p.is_alive(),
            None => false,
        };
        let ghost had = out@;
        if dead && !told.contains(&id) {
            let _ = told.insert(id);
            out.push(id);
            proof {
                lemma_set_of_push(had, id);
                assert(told@ =~= old(told)@ + out@.to_set());
            }
        }
        i += 1;
        assert forall|x: usize| #[trigger] out@.contains(x) implies ids@.take(i as int).contains(
            x,
        ) by {
            let after = ids@.take(i as int);
            if had.contains(x) {
                let before = ids@.take(i - 1);
                assert(before.contains(x));
                let j = before.index_of(x);
                assert(after[j] == x);
            } else {
                let j = out@.index_of(x);
                assert(j == had.len()) by {
                    if j < had.len() {
                        assert(had[j] == x);
                    }
                }
                assert(after[i - 1] == x);
            }
        }
    }
    out
}

/// Tells whether the working directory of a pane is another than before.
pub fn cwd_changed(before: Option<&str>, now: &str) -> (r: bool)
    ensures
        r == (crate::paths::text_of(before) != Some(now@)),
{
    match before {
        Some(b) => !text::same_text(b, now),
        None => true,
    }
}

// ─── Clipboard prompts ─────────────────────────────────────

/// A pane that waits for the user's answer.
pub open spec fn waits(panes: Map<usize, Pane>, id: usize) -> bool {
    panes.contains_key(id) && panes[id].ctx.state.osc52_pending_confirm@.len() > 0
}

/// The pane that is asked about next: the one with the smallest number.
pub fn next_confirm(ids: &Vec<usize>, panes: &HashMap<usize, Pane>) -> (r: Option<usize>)
    ensures
        match r {
            Some(id) => ids@.contains(id) && waits(panes@, id) && forall|x: usize|
                #[trigger] ids@.contains(x) && waits(panes@, x) ==> id <= x,
            None => forall|x: usize| #[trigger] ids@.contains(x) ==> !waits(panes@, x),
        },
{
    let mut best: Option<usize> = None;
    let mut i: usize = 0;
    while i < ids.len()
        invariant
            i <= ids@.len(),
            match best {
                Some(id) => ids@.contains(id) && waits(panes@, id) && forall|j: int|
                    0 <= j < i && waits(panes@, #[trigger] ids@[j]) ==> id <= ids@[j],
                None => forall|j: int| 0 <= j < i ==> !waits(panes@, #[trigger] ids@[j]),
            },
        decreases ids@.len() - i,
    {
        let id: usize = ids[i];
        let waiting = match panes.get(&id) {
            Some(p) => p.ctx.state.osc52_pending_confirm.len() > 0,
            None => false,
        };
        if waiting {
            assert(ids@.contains(id));
            best = match best {
                Some(b) => if id < b {
                    Some(id)
                } else {
                    Some(b)
                },
                None => Some(id),
            };
        }
        i += 1;
    }
    proof {
        assert forall|x: usize| #[trigger] ids@.contains(x) && waits(panes@, x) implies match best {
            Some(id) => id <= x,
            None => false,
        } by {
            let j = ids@.index_of(x);
            assert(ids@[j] == x);
        }
    }
    best
}

/// The bytes in some sequences together.
pub open spec fn total_bytes(v: Seq<Seq<u8>>) -> nat
    decreases v.len(),
{
    if v.len() == 0 {
        0
    } else {
        total_bytes(v.drop_last()) + v.last().len()
    }
}

/// The user is asked about clipboard sequences of a pane.
pub open spec fn asked(v: UiView, id: usize, payloads: Seq<Seq<u8>>) -> UiView {
    UiView {
        osc52_confirm: Some(
            ConfirmView {
                pane_id: id,
                byte_count: total_bytes(payloads) as usize,
                queued_payloads: payloads,
            },
        ),
        update: UpdateView { full_redraw: true, status_dirty: true, ..v.update },
        ..v
    }
}

/// Asks the user about clipboard sequences of a pane, unless a question is open
/// or there is none.
pub fn ask_clipboard(ui: &mut Ui, id: usize, payloads: Vec<Vec<u8>>)
    requires
        total_bytes(bytes::lists(payloads@)) <= usize::MAX,
    ensures
        final(ui)@ == (if old(ui)@.osc52_confirm is None && payloads@.len() > 0 {
            asked(old(ui)@, id, bytes::lists(payloads@))
        } else {
            old(ui)@
        }),
{
    if ui.osc52_confirm.is_some() || payloads.len() == 0 {
        return;
    }
    let mut n: usize = 0;
    let mut i: usize = 0;
    let ghost all = bytes::lists(payloads@);
    while i < payloads.len()
        invariant
            i <= payloads@.len(),
            all == bytes::lists(payloads@),
            n == total_bytes(all.take(i as int)),
            total_bytes(all) <= usize::MAX,
        decreases payloads@.len() - i,
    {
        proof {
            assert(all.take(i + 1).drop_last() =~= all.take(i as int));
            lemma_total_grows(all, i + 1);
        }
        n += payloads[i].len();
        i += 1;
    }
    assert(all.take(i as int) =~= all);
    ui.osc52_confirm = Some(
        Osc52ConfirmState { pane_id: id, byte_count: n, queued_payloads: payloads },
    );
    ui.update.status_dirty = true;
    ui.update.full_redraw = true;
}

proof fn lemma_total_grows(v: Seq<Seq<u8>>, k: int)
    requires
        0 <= k <= v.len(),
    ensures
        total_bytes(v.take(k)) <= total_bytes(v),
    decreases v.len(),
{
    if k < v.len() {
        lemma_total_grows(v.drop_last(), k);
        assert(v.drop_last().take(k) =~= v.take(k));
    } else {
        assert(v.take(k) =~= v);
    }
}

// ─── Starting programs again ───────────────────────────────

/// How often the program of a pane is started again.
pub const MAX_RESTART_RETRIES: u32 = 10;

/// How long a program that ended waits before it is started again, in
/// milliseconds.
pub const RESTART_DELAY_MS: u64 = 2_000;

/// From this many restarts on the wait grows.
pub const RESTART_BACKOFF_THRESHOLD: u32 = 3;

pub open spec fn restarts(p: Option<RestartPolicy>) -> bool {
    p == Some(RestartPolicy::Always) || p == Some(RestartPolicy::OnFailure)
}

fn wants_restart(p: Option<&RestartPolicy>) -> (r: bool)
    ensures
        r == restarts(
            match p {
                Some(q) => Some(*q),
                None => None,
            },
        ),
{
    match p {
        Some(q) => match q {
            RestartPolicy::Always => true,
            RestartPolicy::OnFailure => true,
            RestartPolicy::Never => false,
        },
        None => false,
    }
}

/// The panes among the first `k` whose program ended and is to be started
/// again.
pub open spec fn to_restart(
    ids: Seq<usize>,
    panes: Map<usize, Pane>,
    policies: Map<usize, RestartPolicy>,
    k: nat,
) -> Seq<usize>
    decreases k,
{
    if k == 0 {
        seq![]
    } else {
        let before = to_restart(ids, panes, policies, (k - 1) as nat);
        let id = ids[k - 1];
        if panes.contains_key(id) && !panes[id].alive && restarts(policies.get(id)) {
            before.push(id)
        } else {
            before
        }
    }
}

/// Finds the panes whose program ended and is to be started again.
pub fn restartable(
    ids: &Vec<usize>,
    panes: &HashMap<usize, Pane>,
    policies: &HashMap<usize, RestartPolicy>,
) -> (r: Vec<usize>)
    ensures
        r@ == to_restart(ids@, panes@, policies@, ids@.len()),
{
    let mut out: Vec<usize> = Vec::new();
    let mut i: usize = 0;
    while i < ids.len()
        invariant
            i <= ids@.len(),
            out@ == to_restart(ids@, panes@, policies@, i as nat),
        decreases ids@.len() - i,
    {
        let id: usize = ids[i];
        let dead = match panes.get(&id) {
            Some(p) => !p.is_alive(),
            None => false,
        };
        if dead && wants_restart(policies.get(&id)) {
            out.push(id);
        }
        i += 1;
    }
    out
}

/// How long to wait after so many restarts: one delay each for the first ones,
/// then one more with every restart.
pub open spec fn delay_after(retries: u32) -> int {
    if retries >= RESTART_BACKOFF_THRESHOLD {
        RESTART_DELAY_MS * (retries - RESTART_BACKOFF_THRESHOLD + 1)
    } else {
        RESTART_DELAY_MS as int
    }
}

/// What to do with a pane whose program has ended.
#[derive(Clone, Copy, Debug, PartialEq, Eq, Structural)]
pub enum RestartStep {
    /// Enough was tried.
    GiveUp,
    Wait,
    Restart,
}

/// When a pane was last started again and how often that was. One that never
/// was is due at once.
pub open spec fn restart_of(entry: Option<(u64, u32)>, now: u64) -> RestartStep {
    match entry {
        None => RestartStep::Restart,
        Some((last, retries)) => if retries >= MAX_RESTART_RETRIES {
            RestartStep::GiveUp
        } else if since(last, now) < delay_after(retries) {
            RestartStep::Wait
        } else {
            RestartStep::Restart
        },
    }
}

/// What to do with a pane whose program has ended and is to be started again.
pub fn restart_step(entry: Option<(u64, u32)>, now: u64) -> (r: RestartStep)
    ensures
        r == restart_of(entry, now),
{
    match entry {
        None => RestartStep::Restart,
        Some((last, retries)) => {
            if retries >= MAX_RESTART_RETRIES {
                return RestartStep::GiveUp;
            }
            let delay: u64 = if retries >= RESTART_BACKOFF_THRESHOLD {
                RESTART_DELAY_MS * ((retries - RESTART_BACKOFF_THRESHOLD + 1) as u64)
            } else {
                RESTART_DELAY_MS
            };
            if elapsed(last, now) < delay {
                RestartStep::Wait
            } else {
                RestartStep::Restart
            }
        },
    }
}

/// The entry of a pane that was started again.
pub fn restarted(entry: Option<(u64, u32)>, now: u64) -> (r: (u64, u32))
    requires
        restart_of(entry, now) == RestartStep::Restart,
    ensures
        r == (match entry {
            Some((_, retries)) => (now, (retries + 1) as u32),
            None => (now, 1u32),
        }),
        r.1 <= MAX_RESTART_RETRIES,
{
    match entry {
        Some((_, retries)) => (now, retries + 1),
        None => (now, 1),
    }
}

/// The wait never gets shorter with the number of restarts.
pub proof fn waits_grow(a: u32, b: u32)
    requires
        a <= b,
    ensures
        RESTART_DELAY_MS <= delay_after(a) <= delay_after(b),
{
    if a >= RESTART_BACKOFF_THRESHOLD {
        assert(RESTART_DELAY_MS * (a - RESTART_BACKOFF_THRESHOLD + 1) <= RESTART_DELAY_MS * (b
            - RESTART_BACKOFF_THRESHOLD + 1)) by (nonlinear_arith)
            requires
                a <= b,
        ;
        assert(RESTART_DELAY_MS <= RESTART_DELAY_MS * (a - RESTART_BACKOFF_THRESHOLD + 1))
            by (nonlinear_arith)
            requires
                a >= RESTART_BACKOFF_THRESHOLD,
        ;
    } else if b >= RESTART_BACKOFF_THRESHOLD {
        assert(RESTART_DELAY_MS <= RESTART_DELAY_MS * (b - RESTART_BACKOFF_THRESHOLD + 1))
            by (nonlinear_arith)
            requires
                b >= RESTART_BACKOFF_THRESHOLD,
        ;
    }
}

/// A pane that will not run again: its program has ended, and it is not started
/// again or was so too often.
pub open spec fn is_over(
    panes: Map<usize, Pane>,
    policies: Map<usize, RestartPolicy>,
    tried: Map<usize, (u64, u32)>,
    id: usize,
) -> bool {
    panes.contains_key(id) && !panes[id].alive && (!restarts(policies.get(id)) || (
    tried.contains_key(id) && tried[id].1 >= MAX_RESTART_RETRIES))
}

/// Tells whether no pane of a tab will run again. `ids` names its panes.
pub fn tab_is_over(
    ids: &Vec<usize>,
    panes: &HashMap<usize, Pane>,
    policies: &HashMap<usize, RestartPolicy>,
    tried: &HashMap<usize, (u64, u32)>,
) -> (r: bool)
    ensures
        r == (forall|i: int|
            0 <= i < ids@.len() ==> is_over(panes@, policies@, tried@, #[trigger] ids@[i])),
{
    let mut i: usize = 0;
    while i < ids.len()
        invariant
            i <= ids@.len(),
            forall|j: int|
                0 <= j < i ==> is_over(panes@, policies@, tried@, #[trigger] ids@[j]),
        decreases ids@.len() - i,
    {
        let id: usize = ids[i];
        let dead = match panes.get(&id) {
            Some(p) => !p.is_alive(),
            None => false,
        };
        let tired = match tried.get(&id) {
            Some(e) => e.1 >= MAX_RESTART_RETRIES,
            None => false,
        };
        let over = dead && (!wants_restart(policies.get(&id)) || tired);
        if !over {
            assert(!is_over(panes@, policies@, tried@, ids@[i as int]));
            return false;
        }
        i += 1;
    }
    true
}

/// What the end of all panes of a tab leads to.
#[derive(Clone, Copy, Debug, PartialEq, Eq, Structural)]
pub enum TabEnd {
    /// Some pane still runs.
    GoOn,
    /// Close the tab and show another.
    CloseTab,
    /// It was the last tab: the session ends.
    EndSession,
}

/// What the end of all panes of a tab leads to.
pub fn on_tab_over(over: bool, tabs: usize) -> (r: TabEnd)
    ensures
        r == (if !over {
            TabEnd::GoOn
        } else if tabs > 1 {
            TabEnd::CloseTab
        } else {
            TabEnd::EndSession
        }),
{
    if !over {
        TabEnd::GoOn
    } else if tabs > 1 {
        TabEnd::CloseTab
    } else {
        TabEnd::EndSession
    }
}

/// Ends the zoom of a pane that is gone.
pub fn unzoom_missing(ui: &mut Ui, panes: &HashMap<usize, Pane>, effects: &mut Vec<Effect>)
    ensures
        ({
            let gone = match old(ui)@.zoomed_pane {
                Some(id) => !panes@.contains_key(id),
                None => false,
            };
            let (v, w) = if gone {
                (
                    state::marked(UiView { zoomed_pane: None, ..old(ui)@ }),
                    seq![state::plain(Effect::ResizeAll)],
                )
            } else {
                (old(ui)@, seq![])
            };
            final(ui)@ == v && state::work(final(effects)@) == state::work(old(effects)@) + w
        }),
{
    let ghost before = state::work(effects@);
    assert(before + seq![] =~= before);
    let gone = match ui.zoomed_pane {
        Some(id) => !panes.contains_key(&id),
        None => false,
    };
    if gone {
        ui.set_zoomed(None);
        ask(effects, Effect::ResizeAll);
        ui.mark_layout();
        assert(state::work(effects@) =~= before + seq![state::plain(Effect::ResizeAll)]);
    }
}

/// Lets the zoom follow the focus.
pub fn follow_zoom(ui: &mut Ui, effects: &mut Vec<Effect>)
    ensures
        ({
            let (v, w) = if old(ui)@.zoomed_pane is Some {
                (
                    UiView { zoomed_pane: Some(old(ui)@.active), ..old(ui)@ },
                    seq![state::plain(Effect::ResizeZoomed(old(ui)@.active))],
                )
            } else {
                (old(ui)@, seq![])
            };
            final(ui)@ == v && state::work(final(effects)@) == state::work(old(effects)@) + w
        }),
{
    let ghost before = state::work(effects@);
    assert(before + seq![] =~= before);
    if ui.zoomed_pane.is_some() {
        let active: usize = ui.active;
        ui.set_zoomed(Some(active));
        ask(effects, Effect::ResizeZoomed(active));
        assert(state::work(effects@) =~= before + seq![
            state::plain(Effect::ResizeZoomed(active)),
        ]);
    }
}

// ─── Tabs ──────────────────────────────────────────────────

/// Puts the name of the tab in a prompt for a new name that was just opened.
pub fn prefill_rename(ui: &mut Ui, tab_name: &str)
    ensures
        final(ui)@ == (if old(ui)@.mode == input_modes::rename_start() {
            state::in_mode(old(ui)@, ModeView::RenameTab { buffer: tab_name@ })
        } else {
            old(ui)@
        }),
{
    proof {
        reveal_strlit("\0");
        assert("\0"@ =~= seq!['\0']);
    }
    let fresh = match &ui.mode {
        InputMode::RenameTab { buffer } => text::same_text(buffer.as_str(), "\0"),
        _ => false,
    };
    if fresh {
        ui.set_mode(InputMode::RenameTab { buffer: tab_name.to_owned() });
    }
}

/// What becomes of the tabs.
#[derive(Clone, Copy, Debug, PartialEq, Eq, Structural)]
pub enum TabPlan {
    Nothing,
    /// Put the tab away and open a new one.
    Create,
    /// Put the tab away and show another.
    SwitchTo(usize),
    /// Close the tab and show another.
    Close,
    Rename,
    EndSession,
}

/// The tab that follows another in the round.
pub open spec fn next_tab(active: usize, count: usize) -> usize {
    if active + 1 < count {
        (active + 1) as usize
    } else {
        0
    }
}

/// The tab before another in the round.
pub open spec fn prev_tab(active: usize, count: usize) -> usize {
    if active > 0 {
        (active - 1) as usize
    } else if count > 0 {
        (count - 1) as usize
    } else {
        0
    }
}

/// What an action comes to with `count` tabs of which `active` is shown. A tab
/// that is shown already or that is not there is not switched to, and the last
/// tab is not closed.
pub open spec fn plan_for(a: TabActionView, active: usize, count: usize) -> TabPlan {
    let switch = |target: usize|
        if target != active && target < count {
            TabPlan::SwitchTo(target)
        } else {
            TabPlan::Nothing
        };
    match a {
        TabActionView::Nothing => TabPlan::Nothing,
        TabActionView::NewTab => TabPlan::Create,
        TabActionView::NextTab => switch(next_tab(active, count)),
        TabActionView::PrevTab => switch(prev_tab(active, count)),
        TabActionView::GoToTab(i) => switch(i),
        TabActionView::CloseTab => if count > 1 {
            TabPlan::Close
        } else {
            TabPlan::Nothing
        },
        TabActionView::Rename(_) => TabPlan::Rename,
        TabActionView::KillSession => TabPlan::EndSession,
    }
}

fn switch_plan(target: usize, active: usize, count: usize) -> (r: TabPlan)
    ensures
        r == (if target != active && target < count {
            TabPlan::SwitchTo(target)
        } else {
            TabPlan::Nothing
        }),
{
    if target != active && target < count {
        TabPlan::SwitchTo(target)
    } else {
        TabPlan::Nothing
    }
}

/// What an action of the tabs comes to.
pub fn tab_plan(action: &TabAction, active: usize, count: usize) -> (r: TabPlan)
    ensures
        r == plan_for(action@, active, count),
{
    match action {
        TabAction::Nothing => TabPlan::Nothing,
        TabAction::NewTab => TabPlan::Create,
        TabAction::NextTab => {
            let target: usize = if active < count && count - active > 1 {
                active + 1
            } else {
                0
            };
            switch_plan(target, active, count)
        },
        TabAction::PrevTab => {
            let target: usize = if active > 0 {
                active - 1
            } else if count > 0 {
                count - 1
            } else {
                0
            };
            switch_plan(target, active, count)
        },
        TabAction::GoToTab(i) => switch_plan(*i, active, count),
        TabAction::CloseTab => if count > 1 {
            TabPlan::Close
        } else {
            TabPlan::Nothing
        },
        TabAction::Rename(_) => TabPlan::Rename,
        TabAction::KillSession => TabPlan::EndSession,
    }
}

/// The next tab and back again is the same tab.
pub proof fn next_and_back(active: usize, count: usize)
    requires
        active < count,
    ensures
        prev_tab(next_tab(active, count), count) == active,
        next_tab(prev_tab(active, count), count) == active,
{
}

/// What a tab keeps while another is shown.
#[derive(Debug)]
pub struct TabState {
    pub layout: Layout,
    pub active: usize,
    pub zoomed_pane: Option<usize>,
    pub broadcast: bool,
}

/// Input starts afresh: no prompt, no drag and no selection.
pub open spec fn input_reset(v: UiView) -> UiView {
    UiView {
        mode: ModeView::Normal,
        drag: None,
        selection_anchor: None,
        text_selection: None,
        last_click: None,
        ..v
    }
}

/// Lets input start afresh, as when the last client left.
pub fn reset_input(ui: &mut Ui)
    ensures
        final(ui)@ == input_reset(old(ui)@),
{
    ui.mode = InputMode::Normal;
    ui.drag = None;
    ui.selection_anchor = None;
    ui.text_selection = None;
    ui.last_click = None;
}

/// What a tab kept is taken over.
pub open spec fn tab_taken(v: UiView, t: TabState) -> UiView {
    UiView {
        layout: t.layout,
        active: t.active,
        zoomed_pane: t.zoomed_pane,
        broadcast: t.broadcast,
        ..v
    }
}

/// The state after another tab is shown.
pub open spec fn tab_shown(v: UiView, t: TabState) -> UiView {
    state::marked(input_reset(UiView { last_active: t.active, ..tab_taken(v, t) }))
}

fn take_tab(ui: &mut Ui, tab: TabState)
    requires
        old(ui).wf(),
        tab.layout.wf(),
    ensures
        final(ui).wf(),
        final(ui)@ == tab_taken(old(ui)@, tab),
{
    ui.layout = tab.layout;
    ui.active = tab.active;
    ui.zoomed_pane = tab.zoomed_pane;
    ui.broadcast = tab.broadcast;
}

/// Shows another tab: what it kept is taken over, input starts afresh and the
/// panes get their sizes.
pub fn show_tab(ui: &mut Ui, tab: TabState, effects: &mut Vec<Effect>)
    requires
        old(ui).wf(),
        tab.layout.wf(),
    ensures
        final(ui).wf(),
        final(ui)@ == tab_shown(old(ui)@, tab),
        state::work(final(effects)@) == state::work(old(effects)@).push(
            state::plain(Effect::ResizeAll),
        ),
{
    take_tab(ui, tab);
    ui.last_active = ui.active;
    reset_input(ui);
    ask(effects, Effect::ResizeAll);
    ui.mark_layout();
}

/// Shows a tab again after a new one could not be opened. Input goes on where
/// it was.
pub fn restore_tab(ui: &mut Ui, tab: TabState, effects: &mut Vec<Effect>)
    requires
        old(ui).wf(),
        tab.layout.wf(),
    ensures
        final(ui).wf(),
        final(ui)@ == state::marked(tab_taken(old(ui)@, tab)),
        state::work(final(effects)@) == state::work(old(effects)@).push(
            state::plain(Effect::ResizeAll),
        ),
{
    take_tab(ui, tab);
    ask(effects, Effect::ResizeAll);
    ui.mark_layout();
}

/// Draws the bars anew, as after another tab was chosen.
pub fn mark_tabs(ui: &mut Ui)
    ensures
        final(ui)@ == (UiView {
            update: UpdateView { tabs_dirty: true, status_dirty: true, ..old(ui)@.update },
            ..old(ui)@
        }),
{
    ui.update.tabs_dirty = true;
    ui.update.status_dirty = true;
}

/// Draws the new name of a tab.
pub fn show_rename(ui: &mut Ui)
    ensures
        final(ui)@ == (UiView {
            update: UpdateView {
                full_redraw: true,
                tabs_dirty: true,
                status_dirty: true,
                ..old(ui)@.update
            },
            ..old(ui)@
        }),
{
    mark_tabs(ui);
    ui.redraw();
}

/// The candidate of the command palette that is shown as selected.
pub fn shown_selection(selected: usize, matches: usize) -> (r: usize)
    ensures
        r == (if matches == 0 {
            0
        } else if selected >= matches {
            (matches - 1) as usize
        } else {
            selected
        }),
        matches > 0 ==> r < matches,
{
    if matches == 0 {
        0
    } else if selected >= matches {
        matches - 1
    } else {
        selected
    }
}

/// The next tab is the one to the right, after the last the first; the previous
/// one is the one to the left, before the first the last. A tab is asked for by
/// its place.
pub proof fn tabs_follow_each_other(active: usize, count: usize, i: usize)
    requires
        active < count,
        count > 1,
    ensures
        plan_for(TabActionView::NextTab, active, count) == TabPlan::SwitchTo(
            ((active + 1) % (count as int)) as usize,
        ),
        plan_for(TabActionView::PrevTab, active, count) == TabPlan::SwitchTo(
            ((active + count - 1) % (count as int)) as usize,
        ),
        plan_for(TabActionView::GoToTab(i), active, count) == (if i < count && i != active {
            TabPlan::SwitchTo(i)
        } else {
            TabPlan::Nothing
        }),
        plan_for(TabActionView::NewTab, active, count) == TabPlan::Create,
        plan_for(TabActionView::CloseTab, active, count) == TabPlan::Close,
        plan_for(TabActionView::CloseTab, 0, 1) == TabPlan::Nothing,
        plan_for(TabActionView::KillSession, active, count) == TabPlan::EndSession,
{
    let n = count as int;
    if active + 1 == n {
        assert((active + 1) % n == 0) by (nonlinear_arith)
            requires
                active + 1 == n,
                n > 0,
        ;
    } else {
        assert((active + 1) % n == active + 1) by (nonlinear_arith)
            requires
                0 <= active + 1 < n,
        ;
    }
    if active == 0 {
        assert((active + n - 1) % n == n - 1) by (nonlinear_arith)
            requires
                active == 0,
                n > 0,
        ;
    } else {
        assert((active + n - 1) % n == active - 1) by (nonlinear_arith)
            requires
                0 < active < n,
        ;
    }
}

/// A change of the focus tells the pane that lost it with `ESC [ O`, then the
/// one that got it with `ESC [ I`, each where its program asked for it.
pub proof fn focus_changes_are_told(v: UiView, prev: usize, panes: Map<usize, Pane>)
    requires
        v.active != prev,
        input_modes::runs(panes, prev),
        input_modes::runs(panes, v.active),
        panes[prev].ctx.state.focus_reporting,
        panes[v.active].ctx.state.focus_reporting,
    ensures
        focus_tracked(v, prev, panes).0.last_active == prev,
        focus_tracked(v, prev, panes).1 == seq![
            Work::WriteBytes { pane: prev, bytes: seq![0x1bu8, 0x5b, 0x4f] },
            Work::WriteBytes { pane: v.active, bytes: seq![0x1bu8, 0x5b, 0x49] },
        ],
{
    assert(focus_tracked(v, prev, panes).1 =~= seq![
        Work::WriteBytes { pane: prev, bytes: seq![0x1bu8, 0x5b, 0x4f] },
        Work::WriteBytes { pane: v.active, bytes: seq![0x1bu8, 0x5b, 0x49] },
    ]);
}

/// Of the panes asked about, those are started again whose program has ended
/// and whose policy is to start it always or after a failure.
pub proof fn ended_programs_restart(
    ids: Seq<usize>,
    panes: Map<usize, Pane>,
    policies: Map<usize, RestartPolicy>,
    k: nat,
    id: usize,
)
    requires
        k <= ids.len(),
    ensures
        to_restart(ids, panes, policies, k).contains(id) <==> (ids.take(k as int).contains(id)
            && panes.contains_key(id) && !panes[id].alive && policies.contains_key(id) && (
        policies[id] == RestartPolicy::Always || policies[id] == RestartPolicy::OnFailure)),
    decreases k,
{
    let due = |id: usize|
        panes.contains_key(id) && !panes[id].alive && policies.contains_key(id) && (policies[id]
            == RestartPolicy::Always || policies[id] == RestartPolicy::OnFailure);
    if k > 0 {
        let l = (k - 1) as nat;
        ended_programs_restart(ids, panes, policies, l, id);
        let before = to_restart(ids, panes, policies, l);
        let last = ids[l as int];
        assert(ids.take(k as int) =~= ids.take(l as int).push(last));
        assert(ids.take(k as int).contains(id) == (ids.take(l as int).contains(id) || id == last))
            by {
            let s = ids.take(l as int);
            if s.contains(id) {
                assert(s.push(last)[s.index_of(id)] == id);
            }
            assert(s.push(last)[s.len() as int] == last);
            if s.push(last).contains(id) && id != last {
                let i = s.push(last).index_of(id);
                assert(s[i] == id);
            }
        }
        assert(before.push(last).contains(id) == (before.contains(id) || id == last)) by {
            if before.contains(id) {
                assert(before.push(last)[before.index_of(id)] == id);
            }
            assert(before.push(last)[before.len() as int] == last);
            if before.push(last).contains(id) && id != last {
                let i = before.push(last).index_of(id);
                assert(before[i] == id);
            }
        }
        assert(due(last) == (panes.contains_key(last) && !panes[last].alive && restarts(
            policies.get(last),
        )));
    }
}

} // verus!
