//! The candidates of the command palette.

use std::collections::HashMap;

use vstd::prelude::*;
use vstd::string::*;

use crate::keymap;
use crate::layout;
use crate::layout::Layout;
use crate::pane::Pane;
use crate::text;

verus! {

broadcast use vstd::std_specs::hash::group_hash_axioms;

#[derive(Clone, Copy, Debug, PartialEq, Eq, Structural)]
pub enum EntryKind {
    Command,
    History,
    Pane,
    Session,
}

/// A candidate: what is shown, and the command line it stands for.
#[derive(Debug)]
pub struct Entry {
    pub kind: EntryKind,
    pub label: String,
    pub payload: String,
}

#[verifier::ext_equal]
pub struct EntryView {
    pub kind: EntryKind,
    pub label: Seq<char>,
    pub payload: Seq<char>,
}

impl View for Entry {
    type V = EntryView;

    open spec fn view(&self) -> EntryView {
        EntryView { kind: self.kind, label: self.label@, payload: self.payload@ }
    }
}

pub open spec fn entries(v: Seq<Entry>) -> Seq<EntryView> {
    v.map_values(|e: Entry| e@)
}

/// A candidate that stands for itself.
pub open spec fn literal_entry(kind: EntryKind, s: Seq<char>) -> EntryView {
    EntryView { kind, label: s, payload: s }
}

pub open spec fn literal_entries(kind: EntryKind, v: Seq<Seq<char>>) -> Seq<EntryView> {
    v.map_values(|s: Seq<char>| literal_entry(kind, s))
}

/// The name of a pane, or its number.
pub open spec fn pane_title(id: usize, panes: Map<usize, Pane>) -> Seq<char> {
    if panes.contains_key(id) && panes[id].name is Some {
        panes[id].name->Some_0@
    } else {
        "pane "@ + text::decimal(id as nat)
    }
}

/// The candidate that selects a pane.
pub open spec fn pane_entry(id: usize, panes: Map<usize, Pane>) -> EntryView {
    EntryView {
        kind: EntryKind::Pane,
        label: "pane: "@ + pane_title(id, panes),
        payload: "select-pane "@ + text::decimal(id as nat),
    }
}

pub open spec fn pane_entries(ids: Seq<usize>, panes: Map<usize, Pane>) -> Seq<EntryView> {
    ids.map_values(|id: usize| pane_entry(id, panes))
}

pub open spec fn session_entry(name: Seq<char>) -> EntryView {
    EntryView {
        kind: EntryKind::Session,
        label: "@"@ + name,
        payload: "display-message current"@,
    }
}

/// The candidates: every action, the lines typed before, the panes in tree
/// order, and the session.
pub open spec fn candidates(
    history: Seq<Seq<char>>,
    l: Layout,
    panes: Map<usize, Pane>,
    session: Seq<char>,
) -> Seq<EntryView> {
    literal_entries(EntryKind::Command, keymap::vocabulary_names()) + literal_entries(
        EntryKind::History,
        history,
    ) + pane_entries(layout::ids(l.root), panes) + seq![session_entry(session)]
}

fn put(out: &mut Vec<Entry>, kind: EntryKind, label: String, payload: String)
    ensures
        entries(final(out)@) == entries(old(out)@).push(
            EntryView { kind, label: label@, payload: payload@ },
        ),
{
    out.push(Entry { kind, label, payload });
    assert(entries(out@) =~= entries(old(out)@).push(
        EntryView { kind, label: label@, payload: payload@ },
    ));
}

fn put_actions(out: &mut Vec<Entry>)
    ensures
        entries(final(out)@) == entries(old(out)@) + literal_entries(
            EntryKind::Command,
            keymap::vocabulary_names(),
        ),
{
    let names = keymap::Action::vocabulary();
    let ghost before = entries(out@);
    let ghost all = literal_entries(EntryKind::Command, keymap::vocabulary_names());
    let mut i: usize = 0;
    assert(before + all.take(0) =~= before);
    while i < names.len()
        invariant
            i <= names@.len(),
            names@.len() == keymap::vocabulary_names().len(),
            forall|j: int| 0 <= j < names@.len() ==> names@[j]@ == keymap::vocabulary_names()[j],
            all == literal_entries(EntryKind::Command, keymap::vocabulary_names()),
            entries(out@) == before + all.take(i as int),
        decreases names@.len() - i,
    {
        put(out, EntryKind::Command, names[i].to_owned(), names[i].to_owned());
        proof {
            assert(all.take(i + 1) =~= all.take(i as int).push(all[i as int]));
            assert(entries(out@) =~= before + all.take(i + 1));
        }
        i += 1;
    }
    assert(all.take(all.len() as int) =~= all);
}

fn put_history(out: &mut Vec<Entry>, history: &Vec<String>)
    ensures
        entries(final(out)@) == entries(old(out)@) + literal_entries(
            EntryKind::History,
            text::texts(history@),
        ),
{
    let ghost before = entries(out@);
    let ghost all = literal_entries(EntryKind::History, text::texts(history@));
    let mut i: usize = 0;
    assert(before + all.take(0) =~= before);
    while i < history.len()
        invariant
            i <= history@.len(),
            all == literal_entries(EntryKind::History, text::texts(history@)),
            entries(out@) == before + all.take(i as int),
        decreases history@.len() - i,
    {
        put(out, EntryKind::History, history[i].clone(), history[i].clone());
        proof {
            assert(all.take(i + 1) =~= all.take(i as int).push(all[i as int]));
            assert(entries(out@) =~= before + all.take(i + 1));
        }
        i += 1;
    }
    assert(all.take(all.len() as int) =~= all);
}

fn title_of(id: usize, panes: &HashMap<usize, Pane>) -> (r: String)
    ensures
        r@ == pane_title(id, panes@),
{
    match panes.get(&id) {
        Some(p) => {
            match p.name() {
                Some(n) => {
                    return n.to_owned();
                },
                None => {},
            }
        },
        None => {},
    }
    let mut s = "pane ".to_owned();
    let n = text::decimal_text(id as u128);
    s.append(n.as_str());
    s
}

fn put_pane(out: &mut Vec<Entry>, id: usize, panes: &HashMap<usize, Pane>)
    ensures
        entries(final(out)@) == entries(old(out)@).push(pane_entry(id, panes@)),
{
    let mut label = "pane: ".to_owned();
    let title = title_of(id, panes);
    label.append(title.as_str());
    let mut payload = "select-pane ".to_owned();
    let n = text::decimal_text(id as u128);
    payload.append(n.as_str());
    put(out, EntryKind::Pane, label, payload);
}

/// Gathers the candidates of the command palette.
pub fn palette_entries(
    history: &Vec<String>,
    l: &Layout,
    panes: &HashMap<usize, Pane>,
    session: &str,
) -> (r: Vec<Entry>)
    ensures
        entries(r@) == candidates(text::texts(history@), *l, panes@, session@),
{
    let mut out: Vec<Entry> = Vec::new();
    assert(entries(out@) =~= seq![]);
    put_actions(&mut out);
    put_history(&mut out, history);
    let ids = l.pane_ids();
    let ghost before = entries(out@);
    let ghost all = pane_entries(ids@, panes@);
    let mut i: usize = 0;
    assert(before + all.take(0) =~= before);
    while i < ids.len()
        invariant
            i <= ids@.len(),
            all == pane_entries(ids@, panes@),
            entries(out@) == before + all.take(i as int),
        decreases ids@.len() - i,
    {
        put_pane(&mut out, ids[i], panes);
        proof {
            assert(all.take(i + 1) =~= all.take(i as int).push(all[i as int]));
            assert(entries(out@) =~= before + all.take(i + 1));
        }
        i += 1;
    }
    assert(all.take(all.len() as int) =~= all);
    let mut label = "@".to_owned();
    label.append(session);
    put(&mut out, EntryKind::Session, label, "display-message current".to_owned());
    assert(entries(out@) =~= candidates(text::texts(history@), *l, panes@, session@));
    out
}

} // verus!
