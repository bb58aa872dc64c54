//! What a frame is made of, in the order in which it is drawn.

use std::collections::HashMap;

use vstd::prelude::*;
use vstd::string::*;

use crate::layout;
use crate::pane::Pane;
use crate::server::state::{InputMode, ModeView, Ui, UiView};

verus! {

broadcast use vstd::std_specs::hash::group_hash_axioms;

/// A part of a frame.
#[derive(Debug)]
pub enum FramePart {
    /// The terminal shows what follows at once.
    Begin,
    End,
    HideCursor,
    /// A pane that fills the screen, and its place in the order of the panes.
    Zoomed { pane: usize, index: usize },
    /// All panes with their borders.
    Panes,
    StatusBar { index: usize, total: usize, label: String, name: String, selected: usize },
    SettingsPanel,
    TabBar,
    Help,
    PaneNumbers,
    TextInput { prompt: String, text: String },
    Flash(String),
}

#[verifier::ext_equal]
pub enum PartView {
    Begin,
    End,
    HideCursor,
    Zoomed { pane: usize, index: usize },
    Panes,
    StatusBar { index: usize, total: usize, label: Seq<char>, name: Seq<char>, selected: usize },
    SettingsPanel,
    TabBar,
    Help,
    PaneNumbers,
    TextInput { prompt: Seq<char>, text: Seq<char> },
    Flash(Seq<char>),
}

impl View for FramePart {
    type V = PartView;

    open spec fn view(&self) -> PartView {
        match *self {
            FramePart::Begin => PartView::Begin,
            FramePart::End => PartView::End,
            FramePart::HideCursor => PartView::HideCursor,
            FramePart::Zoomed { pane, index } => PartView::Zoomed { pane, index },
            FramePart::Panes => PartView::Panes,
            FramePart::StatusBar { index, total, label, name, selected } => PartView::StatusBar {
                index,
                total,
                label: label@,
                name: name@,
                selected,
            },
            FramePart::SettingsPanel => PartView::SettingsPanel,
            FramePart::TabBar => PartView::TabBar,
            FramePart::Help => PartView::Help,
            FramePart::PaneNumbers => PartView::PaneNumbers,
            FramePart::TextInput { prompt, text } => PartView::TextInput {
                prompt: prompt@,
                text: text@,
            },
            FramePart::Flash(s) => PartView::Flash(s@),
        }
    }
}

pub open spec fn parts(v: Seq<FramePart>) -> Seq<PartView> {
    v.map_values(|p: FramePart| p@)
}

fn put(out: &mut Vec<FramePart>, p: FramePart)
    ensures
        parts(final(out)@) == parts(old(out)@).push(p@),
{
    out.push(p);
    assert(parts(out@) =~= parts(old(out)@).push(p@));
}

/// The label of a mode in the status bar. `copy` is that of copy mode.
pub open spec fn label_of(mode: ModeView, broadcast: bool, copy: Seq<char>) -> Seq<char> {
    match mode {
        ModeView::Prefix { .. } => "PREFIX"@,
        ModeView::CopyMode(_) => copy,
        ModeView::QuitConfirm => "KILL SESSION? y/n"@,
        ModeView::CloseConfirm => "CLOSE PANE? y/n"@,
        ModeView::CloseTabConfirm => "CLOSE TAB? y/n"@,
        ModeView::ResizeMode => "RESIZE"@,
        ModeView::PaneSelect => "SELECT"@,
        ModeView::HelpOverlay => ""@,
        ModeView::RenameTab { .. } => "RENAME"@,
        ModeView::CommandPalette { .. } => ":"@,
        ModeView::Normal => if broadcast {
            "BROADCAST"@
        } else {
            ""@
        },
    }
}

/// The label of the input mode in the status bar.
pub fn mode_label<'a>(mode: &InputMode, broadcast: bool, copy: &'a str) -> (r: &'a str)
    ensures
        r@ == label_of(mode@, broadcast, copy@),
{
    match mode {
        InputMode::Prefix { .. } => "PREFIX",
        InputMode::CopyMode(_) => copy,
        InputMode::QuitConfirm => "KILL SESSION? y/n",
        InputMode::CloseConfirm => "CLOSE PANE? y/n",
        InputMode::CloseTabConfirm => "CLOSE TAB? y/n",
        InputMode::ResizeMode => "RESIZE",
        InputMode::PaneSelect => "SELECT",
        InputMode::HelpOverlay => "",
        InputMode::RenameTab { .. } => "RENAME",
        InputMode::CommandPalette { .. } => ":",
        InputMode::Normal => if broadcast {
            "BROADCAST"
        } else {
            ""
        },
    }
}

/// The name of a pane, or nothing.
pub open spec fn name_of(panes: Map<usize, Pane>, id: usize) -> Seq<char> {
    if panes.contains_key(id) && panes[id].name is Some {
        panes[id].name->Some_0@
    } else {
        ""@
    }
}

fn pane_name(panes: &HashMap<usize, Pane>, id: usize) -> (r: String)
    ensures
        r@ == name_of(panes@, id),
{
    match panes.get(&id) {
        Some(p) => match p.name() {
            Some(n) => n.to_owned(),
            None => "".to_owned(),
        },
        None => "".to_owned(),
    }
}

/// The place of a pane in an order, or the first where it has none.
pub open spec fn index_in(order: Seq<usize>, id: usize) -> usize {
    layout::position(order, id) as usize
}

fn find_index(order: &Vec<usize>, id: usize) -> (r: usize)
    ensures
        r == index_in(order@, id),
{
    if order.len() == 0 {
        proof {
            order@.index_of_first_ensures(id);
        }
        return 0;
    }
    layout::position_of(order, id)
}

/// A frame with a zoomed pane: the pane, and the status bar if it is shown.
pub open spec fn zoomed_parts(
    v: UiView,
    id: usize,
    panes: Map<usize, Pane>,
    order: Seq<usize>,
    label: Seq<char>,
) -> Seq<PartView> {
    let index = index_in(order, id);
    seq![PartView::Begin] + (if panes.contains_key(id) {
        seq![PartView::Zoomed { pane: id, index }]
    } else {
        seq![]
    }) + (if v.settings.show_status_bar {
        seq![
            PartView::StatusBar {
                index,
                total: order.len() as usize,
                label: if label.len() == 0 {
                    "ZOOM"@
                } else {
                    label
                },
                name: name_of(panes, id),
                selected: 0,
            },
        ]
    } else {
        seq![]
    }) + seq![PartView::End]
}

/// A text is being typed in the place of the status bar.
pub open spec fn is_typing(mode: ModeView) -> bool {
    mode is RenameTab || mode is CommandPalette
}

/// A frame with all panes: the panes, the status bar where it has something to
/// say, and the settings panel if it is open.
pub open spec fn tiled_parts(
    v: UiView,
    panes: Map<usize, Pane>,
    order: Seq<usize>,
    label: Seq<char>,
    selected: usize,
) -> Seq<PartView> {
    seq![PartView::Begin, PartView::Panes] + (if !is_typing(v.mode) && v.settings.show_status_bar
        && (label.len() > 0 || selected > 0) {
        seq![
            PartView::StatusBar {
                index: index_in(order, v.active),
                total: order.len() as usize,
                label,
                name: name_of(panes, v.active),
                selected,
            },
        ]
    } else {
        seq![]
    }) + (if v.settings.visible {
        seq![PartView::SettingsPanel, PartView::HideCursor]
    } else {
        seq![]
    }) + seq![PartView::End]
}

/// What lies over the panes: the tab bar, help or numbers, and last the text
/// that is typed or a transient message.
pub open spec fn overlays(v: UiView, tabs: usize) -> Seq<PartView> {
    (if tabs > 1 && v.settings.show_tab_bar {
        seq![PartView::TabBar]
    } else {
        seq![]
    }) + (if v.mode is HelpOverlay {
        seq![PartView::Help]
    } else if v.mode is PaneSelect {
        seq![PartView::PaneNumbers]
    } else {
        seq![]
    }) + (match v.mode {
        ModeView::RenameTab { buffer } => seq![
            PartView::TextInput { prompt: "Rename tab: "@, text: buffer },
        ],
        ModeView::CommandPalette { buffer } => seq![
            PartView::TextInput { prompt: ":"@, text: buffer },
        ],
        _ => match v.flash_message {
            Some((text, _)) => seq![PartView::Flash(text)],
            None => seq![],
        },
    })
}

/// The parts of a frame. `order` is the order of the panes, `copy` the label of
/// copy mode, `selected` the number of characters that are selected, and
/// `tabs` the number of tabs.
pub open spec fn frame_parts(
    v: UiView,
    panes: Map<usize, Pane>,
    order: Seq<usize>,
    copy: Seq<char>,
    selected: usize,
    tabs: usize,
) -> Seq<PartView> {
    let label = label_of(v.mode, v.broadcast, copy);
    (match v.zoomed_pane {
        Some(id) => zoomed_parts(v, id, panes, order, label),
        None => tiled_parts(v, panes, order, label, selected),
    }) + overlays(v, tabs) + seq![PartView::HideCursor]
}

fn put_zoomed(
    out: &mut Vec<FramePart>,
    ui: &Ui,
    id: usize,
    panes: &HashMap<usize, Pane>,
    order: &Vec<usize>,
    label: &str,
)
    ensures
        parts(final(out)@) == parts(old(out)@) + zoomed_parts(ui@, id, panes@, order@, label@),
{
    let index: usize = find_index(order, id);
    put(out, FramePart::Begin);
    if panes.contains_key(&id) {
        put(out, FramePart::Zoomed { pane: id, index });
    }
    if ui.settings.show_status_bar {
        let shown = if label.is_empty() {
            "ZOOM"
        } else {
            label
        };
        put(
            out,
            FramePart::StatusBar {
                index,
                total: order.len(),
                label: shown.to_owned(),
                name: pane_name(panes, id),
                selected: 0,
            },
        );
    }
    put(out, FramePart::End);
    assert(parts(out@) =~= parts(old(out)@) + zoomed_parts(ui@, id, panes@, order@, label@));
}

fn typing(mode: &InputMode) -> (r: bool)
    ensures
        r == is_typing(mode@),
{
    match mode {
        InputMode::RenameTab { .. } => true,
        InputMode::CommandPalette { .. } => true,
        _ => false,
    }
}

fn put_tiled(
    out: &mut Vec<FramePart>,
    ui: &Ui,
    panes: &HashMap<usize, Pane>,
    order: &Vec<usize>,
    label: &str,
    selected: usize,
)
    ensures
        parts(final(out)@) == parts(old(out)@) + tiled_parts(
            ui@,
            panes@,
            order@,
            label@,
            selected,
        ),
{
    put(out, FramePart::Begin);
    put(out, FramePart::Panes);
    if !typing(&ui.mode) && ui.settings.show_status_bar && (!label.is_empty() || selected > 0) {
        put(
            out,
            FramePart::StatusBar {
                index: find_index(order, ui.active),
                total: order.len(),
                label: label.to_owned(),
                name: pane_name(panes, ui.active),
                selected,
            },
        );
    }
    if ui.settings.visible {
        put(out, FramePart::SettingsPanel);
        put(out, FramePart::HideCursor);
    }
    put(out, FramePart::End);
    assert(parts(out@) =~= parts(old(out)@) + tiled_parts(
        ui@,
        panes@,
        order@,
        label@,
        selected,
    ));
}

fn put_overlays(out: &mut Vec<FramePart>, ui: &Ui, tabs: usize)
    ensures
        parts(final(out)@) == parts(old(out)@) + overlays(ui@, tabs),
{
    if tabs > 1 && ui.settings.show_tab_bar {
        put(out, FramePart::TabBar);
    }
    match &ui.mode {
        InputMode::HelpOverlay => put(out, FramePart::Help),
        InputMode::PaneSelect => put(out, FramePart::PaneNumbers),
        _ => {},
    }
    match &ui.mode {
        InputMode::RenameTab { buffer } => put(
            out,
            FramePart::TextInput { prompt: "Rename tab: ".to_owned(), text: buffer.clone() },
        ),
        InputMode::CommandPalette { buffer } => put(
            out,
            FramePart::TextInput { prompt: ":".to_owned(), text: buffer.clone() },
        ),
        _ => {
            match &ui.flash_message {
                Some((text, _)) => put(out, FramePart::Flash(text.clone())),
                None => {},
            }
        },
    }
    assert(parts(out@) =~= parts(old(out)@) + overlays(ui@, tabs));
}

/// Works out what a frame is made of.
pub fn compose_frame(
    ui: &Ui,
    panes: &HashMap<usize, Pane>,
    order: &Vec<usize>,
    copy: &str,
    selected: usize,
    tabs: usize,
) -> (r: Vec<FramePart>)
    ensures
        parts(r@) == frame_parts(ui@, panes@, order@, copy@, selected, tabs),
{
    let label = mode_label(&ui.mode, ui.broadcast, copy);
    let mut out: Vec<FramePart> = Vec::new();
    assert(parts(out@) =~= seq![]);
    match ui.zoomed_pane {
        Some(id) => {
            put_zoomed(&mut out, ui, id, panes, order, label);
        },
        None => {
            put_tiled(&mut out, ui, panes, order, label, selected);
        },
    }
    put_overlays(&mut out, ui, tabs);
    put(&mut out, FramePart::HideCursor);
    assert(parts(out@) =~= frame_parts(ui@, panes@, order@, copy@, selected, tabs));
    out
}

/// While a text is typed, its prompt is the last thing drawn before the cursor
/// is hidden, and no transient message covers it.
pub proof fn the_prompt_wins(
    v: UiView,
    panes: Map<usize, Pane>,
    order: Seq<usize>,
    copy: Seq<char>,
    selected: usize,
    tabs: usize,
)
    requires
        is_typing(v.mode),
    ensures
        ({
            let f = frame_parts(v, panes, order, copy, selected, tabs);
            f.len() >= 2 && f[f.len() - 1] == PartView::HideCursor && f[f.len() - 2] is TextInput
        }),
        overlays(v, tabs).last() is TextInput,
{
}

/// Whether the number of selected characters is needed: they are only shown in
/// the status bar of a frame with all panes.
pub fn counts_selection(ui: &Ui) -> (r: bool)
    ensures
        r == (ui@.zoomed_pane is None && ui@.settings.show_status_bar && ui@.text_selection
            is Some),
{
    ui.zoomed_pane.is_none() && ui.settings.show_status_bar && ui.text_selection.is_some()
}

/// The status bar tells the mode: what a question asks about, and what the keys
/// do.
pub proof fn labels_tell_the_mode(entered_at: u64, buffer: Seq<char>, broadcast: bool, copy: Seq<char>)
    ensures
        label_of(ModeView::Prefix { entered_at }, broadcast, copy) == "PREFIX"@,
        label_of(ModeView::QuitConfirm, broadcast, copy) == "KILL SESSION? y/n"@,
        label_of(ModeView::CloseConfirm, broadcast, copy) == "CLOSE PANE? y/n"@,
        label_of(ModeView::CloseTabConfirm, broadcast, copy) == "CLOSE TAB? y/n"@,
        label_of(ModeView::ResizeMode, broadcast, copy) == "RESIZE"@,
        label_of(ModeView::PaneSelect, broadcast, copy) == "SELECT"@,
        label_of(ModeView::RenameTab { buffer }, broadcast, copy) == "RENAME"@,
        label_of(ModeView::CommandPalette { buffer }, broadcast, copy) == ":"@,
        label_of(ModeView::Normal, true, copy) == "BROADCAST"@,
        label_of(ModeView::Normal, false, copy) == ""@,
{
}

} // verus!
