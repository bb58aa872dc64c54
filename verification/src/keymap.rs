//! User-defined key maps.
//!
//! Key bindings live in three tables: `prefix` (active after the prefix key),
//! `normal` (always on) and `copy_mode`. A user's table is merged on top of
//! the bindings that are there already, and `clear = true` in it drops those
//! first.
//!
//! Key syntax: the modifiers `C-` (Ctrl), `M-` (Alt) and `S-` (Shift) in any
//! order, followed by a named key (`Enter`, `PageUp`, `F1` to `F12`, ...) or a
//! single character. A character without Shift is taken in lower case.

use vstd::prelude::*;
use vstd::string::*;

use crate::keys::{KeyCode, KeyEvent, KeyModifiers};
use crate::text;

pub mod action;
pub mod keyspec;

verus! {

// ─── Action vocabulary ─────────────────────────────────────

/// What a key can be bound to.
#[derive(Debug, Clone, PartialEq, Eq)]
pub enum Action {
    /// Split active pane into two columns.
    SplitWindowH,
    /// Split active pane into two rows.
    SplitWindowV,
    /// Close active pane.
    KillPane,
    /// Open a new tab; if `name` is set, label it.
    NewWindow { name: Option<String> },
    /// Rename the current tab.
    RenameWindow,
    /// Close the current tab.
    KillWindow,
    /// Focus a tab by zero-based index.
    SelectWindow { index: usize },
    /// Focus the next tab (wraps).
    NextWindow,
    /// Focus the previous tab (wraps).
    PreviousWindow,
    /// Focus an adjacent pane.
    SelectPane { dir: Dir },
    /// Resize active pane by `amount` cells in the given direction.
    ResizePane { dir: Dir, amount: u16 },
    /// Swap active pane with its tree-order neighbour.
    SwapPane { up: bool },
    /// Equalize all pane sizes in the current tab.
    Equalize,
    /// Apply a layout preset by name.
    SelectLayout { name: String },
    /// Detach the current client.
    DetachSession,
    /// Tear down the session.
    KillSession,
    /// Enter copy mode.
    CopyMode,
    /// Cancel current selection / leave a transient mode.
    Cancel,
    /// Begin selection (copy mode).
    BeginSelection,
    /// Yank selection and exit copy mode.
    CopySelectionAndCancel,
    /// Re-read the configuration and apply what needs no restart.
    ReloadConfig,
    /// Open the command palette.
    CommandPrompt,
    /// Toggle the settings panel.
    ToggleSettings,
    /// Toggle the broadcast-input flag.
    ToggleBroadcast,
    /// Flash a message in the status bar.
    DisplayMessage { text: String },
    /// Set an option of the session.
    SetOption { key: String, value: String },
    /// Write `value` to the named buffer; the name "" is the default buffer.
    SetBuffer { name: String, value: String },
    /// Paste the named buffer; `None` is the default buffer.
    PasteBuffer { name: Option<String> },
    /// Open the browser of named buffers.
    ListBuffers,
}

/// An action, with its texts as sequences of characters.
#[verifier::ext_equal]
pub enum ActionView {
    NewWindow { name: Option<Seq<char>> },
    SelectLayout { name: Seq<char> },
    DisplayMessage { text: Seq<char> },
    SetOption { key: Seq<char>, value: Seq<char> },
    SetBuffer { name: Seq<char>, value: Seq<char> },
    PasteBuffer { name: Option<Seq<char>> },
    /// Any action that holds no text.
    Plain(Action),
}

pub open spec fn text_view(s: Option<String>) -> Option<Seq<char>> {
    match s {
        Some(t) => Some(t@),
        None => None,
    }
}

impl View for Action {
    type V = ActionView;

    open spec fn view(&self) -> ActionView {
        match *self {
            Action::NewWindow { name } => ActionView::NewWindow { name: text_view(name) },
            Action::SelectLayout { name } => ActionView::SelectLayout { name: name@ },
            Action::DisplayMessage { text } => ActionView::DisplayMessage { text: text@ },
            Action::SetOption { key, value } => ActionView::SetOption {
                key: key@,
                value: value@,
            },
            Action::SetBuffer { name, value } => ActionView::SetBuffer {
                name: name@,
                value: value@,
            },
            Action::PasteBuffer { name } => ActionView::PasteBuffer { name: text_view(name) },
            other => ActionView::Plain(other),
        }
    }
}

/// The name of an action.
pub open spec fn kind_of(a: ActionView) -> Seq<char> {
    match a {
        ActionView::NewWindow { .. } => "new-window"@,
        ActionView::SelectLayout { .. } => "select-layout"@,
        ActionView::DisplayMessage { .. } => "display-message"@,
        ActionView::SetOption { .. } => "set-option"@,
        ActionView::SetBuffer { .. } => "set-buffer"@,
        ActionView::PasteBuffer { .. } => "paste-buffer"@,
        ActionView::Plain(p) => match p {
            Action::SplitWindowH => "split-window-h"@,
            Action::SplitWindowV => "split-window-v"@,
            Action::KillPane => "kill-pane"@,
            Action::NewWindow { .. } => "new-window"@,
            Action::RenameWindow => "rename-window"@,
            Action::KillWindow => "kill-window"@,
            Action::SelectWindow { .. } => "select-window"@,
            Action::NextWindow => "next-window"@,
            Action::PreviousWindow => "previous-window"@,
            Action::SelectPane { .. } => "select-pane"@,
            Action::ResizePane { .. } => "resize-pane"@,
            Action::SwapPane { .. } => "swap-pane"@,
            Action::Equalize => "equalize"@,
            Action::SelectLayout { .. } => "select-layout"@,
            Action::DetachSession => "detach-session"@,
            Action::KillSession => "kill-session"@,
            Action::CopyMode => "copy-mode"@,
            Action::Cancel => "cancel"@,
            Action::BeginSelection => "begin-selection"@,
            Action::CopySelectionAndCancel => "copy-selection-and-cancel"@,
            Action::ReloadConfig => "reload-config"@,
            Action::CommandPrompt => "command-prompt"@,
            Action::ToggleSettings => "toggle-settings"@,
            Action::ToggleBroadcast => "toggle-broadcast"@,
            Action::DisplayMessage { .. } => "display-message"@,
            Action::SetOption { .. } => "set-option"@,
            Action::SetBuffer { .. } => "set-buffer"@,
            Action::PasteBuffer { .. } => "paste-buffer"@,
            Action::ListBuffers => "list-buffers"@,
        },
    }
}

/// The names of all actions.
pub open spec fn vocabulary_names() -> Seq<Seq<char>> {
    seq![
        "split-window-h"@,
        "split-window-v"@,
        "kill-pane"@,
        "new-window"@,
        "rename-window"@,
        "kill-window"@,
        "select-window"@,
        "next-window"@,
        "previous-window"@,
        "select-pane"@,
        "resize-pane"@,
        "swap-pane"@,
        "equalize"@,
        "select-layout"@,
        "detach-session"@,
        "kill-session"@,
        "copy-mode"@,
        "cancel"@,
        "begin-selection"@,
        "copy-selection-and-cancel"@,
        "reload-config"@,
        "command-prompt"@,
        "toggle-settings"@,
        "toggle-broadcast"@,
        "display-message"@,
        "set-option"@,
        "set-buffer"@,
        "paste-buffer"@,
        "list-buffers"@,
    ]
}

/// The vocabulary holds the name of every action.
#[verifier::rlimit(40)]
pub proof fn vocabulary_is_complete(a: ActionView)
    ensures
        vocabulary_names().contains(kind_of(a)),
{
    let v = vocabulary_names();
    assert(v.len() == 29);
    assert(v[0] == "split-window-h"@ && v[1] == "split-window-v"@ && v[2] == "kill-pane"@ && v[3]
        == "new-window"@ && v[4] == "rename-window"@ && v[5] == "kill-window"@ && v[6]
        == "select-window"@ && v[7] == "next-window"@ && v[8] == "previous-window"@ && v[9]
        == "select-pane"@);
    assert(v[10] == "resize-pane"@ && v[11] == "swap-pane"@ && v[12] == "equalize"@ && v[13]
        == "select-layout"@ && v[14] == "detach-session"@ && v[15] == "kill-session"@ && v[16]
        == "copy-mode"@ && v[17] == "cancel"@ && v[18] == "begin-selection"@ && v[19]
        == "copy-selection-and-cancel"@);
    assert(v[20] == "reload-config"@ && v[21] == "command-prompt"@ && v[22] == "toggle-settings"@
        && v[23] == "toggle-broadcast"@ && v[24] == "display-message"@ && v[25] == "set-option"@
        && v[26] == "set-buffer"@ && v[27] == "paste-buffer"@ && v[28] == "list-buffers"@);
}

/// The place of a word in the vocabulary.
spec fn word_place(s: Seq<char>) -> int {
    if s == "split-window-h"@ {
        0
    } else if s == "split-window-v"@ {
        1
    } else if s == "kill-pane"@ {
        2
    } else if s == "new-window"@ {
        3
    } else if s == "rename-window"@ {
        4
    } else if s == "kill-window"@ {
        5
    } else if s == "select-window"@ {
        6
    } else if s == "next-window"@ {
        7
    } else if s == "previous-window"@ {
        8
    } else if s == "select-pane"@ {
        9
    } else if s == "resize-pane"@ {
        10
    } else if s == "swap-pane"@ {
        11
    } else if s == "equalize"@ {
        12
    } else if s == "select-layout"@ {
        13
    } else if s == "detach-session"@ {
        14
    } else if s == "kill-session"@ {
        15
    } else if s == "copy-mode"@ {
        16
    } else if s == "cancel"@ {
        17
    } else if s == "begin-selection"@ {
        18
    } else if s == "copy-selection-and-cancel"@ {
        19
    } else if s == "reload-config"@ {
        20
    } else if s == "command-prompt"@ {
        21
    } else if s == "toggle-settings"@ {
        22
    } else if s == "toggle-broadcast"@ {
        23
    } else if s == "display-message"@ {
        24
    } else if s == "set-option"@ {
        25
    } else if s == "set-buffer"@ {
        26
    } else if s == "paste-buffer"@ {
        27
    } else if s == "list-buffers"@ {
        28
    } else {
        -1
    }
}

#[verifier::spinoff_prover]
#[verifier::rlimit(60)]
proof fn lemma_word_place(i: int)
    requires
        0 <= i < vocabulary_names().len(),
    ensures
        word_place(vocabulary_names()[i]) == i,
{
    let v = vocabulary_names();
    reveal_strlit("split-window-h");
    reveal_strlit("split-window-v");
    reveal_strlit("kill-pane");
    reveal_strlit("new-window");
    reveal_strlit("rename-window");
    reveal_strlit("kill-window");
    reveal_strlit("select-window");
    reveal_strlit("next-window");
    reveal_strlit("previous-window");
    reveal_strlit("select-pane");
    reveal_strlit("resize-pane");
    reveal_strlit("swap-pane");
    reveal_strlit("equalize");
    reveal_strlit("select-layout");
    reveal_strlit("detach-session");
    reveal_strlit("kill-session");
    reveal_strlit("copy-mode");
    reveal_strlit("cancel");
    reveal_strlit("begin-selection");
    reveal_strlit("copy-selection-and-cancel");
    reveal_strlit("reload-config");
    reveal_strlit("command-prompt");
    reveal_strlit("toggle-settings");
    reveal_strlit("toggle-broadcast");
    reveal_strlit("display-message");
    reveal_strlit("set-option");
    reveal_strlit("set-buffer");
    reveal_strlit("paste-buffer");
    reveal_strlit("list-buffers");
    assert("split-window-h"@.len() == 14 && "split-window-h"@[0] == 's' && "split-window-h"@[13] == 'h');
    assert("split-window-v"@.len() == 14 && "split-window-v"@[0] == 's' && "split-window-v"@[13] == 'v');
    assert("kill-pane"@.len() == 9 && "kill-pane"@[0] == 'k' && "kill-pane"@[8] == 'e');
    assert("new-window"@.len() == 10 && "new-window"@[0] == 'n' && "new-window"@[9] == 'w');
    assert("rename-window"@.len() == 13 && "rename-window"@[0] == 'r' && "rename-window"@[12] == 'w');
    assert("kill-window"@.len() == 11 && "kill-window"@[0] == 'k' && "kill-window"@[10] == 'w');
    assert("select-window"@.len() == 13 && "select-window"@[0] == 's' && "select-window"@[12] == 'w');
    assert("next-window"@.len() == 11 && "next-window"@[0] == 'n' && "next-window"@[10] == 'w');
    assert("previous-window"@.len() == 15 && "previous-window"@[0] == 'p' && "previous-window"@[14] == 'w');
    assert("select-pane"@.len() == 11 && "select-pane"@[0] == 's' && "select-pane"@[10] == 'e');
    assert("resize-pane"@.len() == 11 && "resize-pane"@[0] == 'r' && "resize-pane"@[10] == 'e');
    assert("swap-pane"@.len() == 9 && "swap-pane"@[0] == 's' && "swap-pane"@[8] == 'e');
    assert("equalize"@.len() == 8 && "equalize"@[0] == 'e' && "equalize"@[7] == 'e');
    assert("select-layout"@.len() == 13 && "select-layout"@[0] == 's' && "select-layout"@[12] == 't');
    assert("detach-session"@.len() == 14 && "detach-session"@[0] == 'd' && "detach-session"@[13] == 'n');
    assert("kill-session"@.len() == 12 && "kill-session"@[0] == 'k' && "kill-session"@[11] == 'n');
    assert("copy-mode"@.len() == 9 && "copy-mode"@[0] == 'c' && "copy-mode"@[8] == 'e');
    assert("cancel"@.len() == 6 && "cancel"@[0] == 'c' && "cancel"@[5] == 'l');
    assert("begin-selection"@.len() == 15 && "begin-selection"@[0] == 'b' && "begin-selection"@[14] == 'n');
    assert("copy-selection-and-cancel"@.len() == 25 && "copy-selection-and-cancel"@[0] == 'c' && "copy-selection-and-cancel"@[24] == 'l');
    assert("reload-config"@.len() == 13 && "reload-config"@[0] == 'r' && "reload-config"@[12] == 'g');
    assert("command-prompt"@.len() == 14 && "command-prompt"@[0] == 'c' && "command-prompt"@[13] == 't');
    assert("toggle-settings"@.len() == 15 && "toggle-settings"@[0] == 't' && "toggle-settings"@[14] == 's');
    assert("toggle-broadcast"@.len() == 16 && "toggle-broadcast"@[0] == 't' && "toggle-broadcast"@[15] == 't');
    assert("display-message"@.len() == 15 && "display-message"@[0] == 'd' && "display-message"@[14] == 'e');
    assert("set-option"@.len() == 10 && "set-option"@[0] == 's' && "set-option"@[9] == 'n');
    assert("set-buffer"@.len() == 10 && "set-buffer"@[0] == 's' && "set-buffer"@[9] == 'r');
    assert("paste-buffer"@.len() == 12 && "paste-buffer"@[0] == 'p' && "paste-buffer"@[11] == 'r');
    assert("list-buffers"@.len() == 12 && "list-buffers"@[0] == 'l' && "list-buffers"@[11] == 's');
    if i == 0 {
        assert(v[0] == "split-window-h"@);
    } else if i == 1 {
        assert(v[1] == "split-window-v"@);
    } else if i == 2 {
        assert(v[2] == "kill-pane"@);
    } else if i == 3 {
        assert(v[3] == "new-window"@);
    } else if i == 4 {
        assert(v[4] == "rename-window"@);
    } else if i == 5 {
        assert(v[5] == "kill-window"@);
    } else if i == 6 {
        assert(v[6] == "select-window"@);
    } else if i == 7 {
        assert(v[7] == "next-window"@);
    } else if i == 8 {
        assert(v[8] == "previous-window"@);
    } else if i == 9 {
        assert(v[9] == "select-pane"@);
    } else if i == 10 {
        assert(v[10] == "resize-pane"@);
    } else if i == 11 {
        assert(v[11] == "swap-pane"@);
    } else if i == 12 {
        assert(v[12] == "equalize"@);
    } else if i == 13 {
        assert(v[13] == "select-layout"@);
    } else if i == 14 {
        assert(v[14] == "detach-session"@);
    } else if i == 15 {
        assert(v[15] == "kill-session"@);
    } else if i == 16 {
        assert(v[16] == "copy-mode"@);
    } else if i == 17 {
        assert(v[17] == "cancel"@);
    } else if i == 18 {
        assert(v[18] == "begin-selection"@);
    } else if i == 19 {
        assert(v[19] == "copy-selection-and-cancel"@);
    } else if i == 20 {
        assert(v[20] == "reload-config"@);
    } else if i == 21 {
        assert(v[21] == "command-prompt"@);
    } else if i == 22 {
        assert(v[22] == "toggle-settings"@);
    } else if i == 23 {
        assert(v[23] == "toggle-broadcast"@);
    } else if i == 24 {
        assert(v[24] == "display-message"@);
    } else if i == 25 {
        assert(v[25] == "set-option"@);
    } else if i == 26 {
        assert(v[26] == "set-buffer"@);
    } else if i == 27 {
        assert(v[27] == "paste-buffer"@);
    } else if i == 28 {
        assert(v[28] == "list-buffers"@);
    }
}

/// The words of the vocabulary are distinct.
pub proof fn vocabulary_words_differ(i: int, j: int)
    requires
        0 <= i < j < vocabulary_names().len(),
    ensures
        vocabulary_names()[i] != vocabulary_names()[j],
{
    lemma_word_place(i);
    lemma_word_place(j);
}

impl Action {
    /// The name of the action, in lower-case `kebab-case`.
    pub fn kind(&self) -> (r: &'static str)
        ensures
            r@ == kind_of(self@),
    {
        match self {
            Action::SplitWindowH => "split-window-h",
            Action::SplitWindowV => "split-window-v",
            Action::KillPane => "kill-pane",
            Action::NewWindow { .. } => "new-window",
            Action::RenameWindow => "rename-window",
            Action::KillWindow => "kill-window",
            Action::SelectWindow { .. } => "select-window",
            Action::NextWindow => "next-window",
            Action::PreviousWindow => "previous-window",
            Action::SelectPane { .. } => "select-pane",
            Action::ResizePane { .. } => "resize-pane",
            Action::SwapPane { .. } => "swap-pane",
            Action::Equalize => "equalize",
            Action::SelectLayout { .. } => "select-layout",
            Action::DetachSession => "detach-session",
            Action::KillSession => "kill-session",
            Action::CopyMode => "copy-mode",
            Action::Cancel => "cancel",
            Action::BeginSelection => "begin-selection",
            Action::CopySelectionAndCancel => "copy-selection-and-cancel",
            Action::ReloadConfig => "reload-config",
            Action::CommandPrompt => "command-prompt",
            Action::ToggleSettings => "toggle-settings",
            Action::ToggleBroadcast => "toggle-broadcast",
            Action::DisplayMessage { .. } => "display-message",
            Action::SetOption { .. } => "set-option",
            Action::SetBuffer { .. } => "set-buffer",
            Action::PasteBuffer { .. } => "paste-buffer",
            Action::ListBuffers => "list-buffers",
        }
    }

    /// The names of all actions, for help text and for checking a user's
    /// table.
    pub fn vocabulary() -> (r: Vec<&'static str>)
        ensures
            r@.map_values(|s: &'static str| s@) == vocabulary_names(),
    {
        let v: Vec<&'static str> =
            vec![
            "split-window-h",
            "split-window-v",
            "kill-pane",
            "new-window",
            "rename-window",
            "kill-window",
            "select-window",
            "next-window",
            "previous-window",
            "select-pane",
            "resize-pane",
            "swap-pane",
            "equalize",
            "select-layout",
            "detach-session",
            "kill-session",
            "copy-mode",
            "cancel",
            "begin-selection",
            "copy-selection-and-cancel",
            "reload-config",
            "command-prompt",
            "toggle-settings",
            "toggle-broadcast",
            "display-message",
            "set-option",
            "set-buffer",
            "paste-buffer",
            "list-buffers",
        ];
        assert(v@.map_values(|s: &'static str| s@) =~= vocabulary_names());
        v
    }
}

/// The direction of a pane command.
#[derive(Debug, Clone, Copy, PartialEq, Eq, Structural)]
pub enum Dir {
    Up,
    Down,
    Left,
    Right,
}

pub open spec fn dir_of(s: Seq<char>) -> Option<Dir> {
    if s == "up"@ || s == "U"@ || s == "u"@ {
        Some(Dir::Up)
    } else if s == "down"@ || s == "D"@ || s == "d"@ {
        Some(Dir::Down)
    } else if s == "left"@ || s == "L"@ || s == "l"@ {
        Some(Dir::Left)
    } else if s == "right"@ || s == "R"@ || s == "r"@ {
        Some(Dir::Right)
    } else {
        None
    }
}

impl Dir {
    fn parse(s: &str) -> (r: Option<Dir>)
        ensures
            r == dir_of(s@),
    {
        if text::same_text(s, "up") || text::same_text(s, "U") || text::same_text(s, "u") {
            Some(Dir::Up)
        } else if text::same_text(s, "down") || text::same_text(s, "D") || text::same_text(s, "d") {
            Some(Dir::Down)
        } else if text::same_text(s, "left") || text::same_text(s, "L") || text::same_text(s, "l") {
            Some(Dir::Left)
        } else if text::same_text(s, "right") || text::same_text(s, "R") || text::same_text(
            s,
            "r",
        ) {
            Some(Dir::Right)
        } else {
            None
        }
    }
}

// ─── Action string parser ──────────────────────────────────

#[derive(Debug, Clone, PartialEq, Eq)]
pub enum ActionParseError {
    Empty,
    UnknownAction(String),
    MissingArgument { action: &'static str, arg: &'static str },
    InvalidArgument { action: &'static str, arg: String },
}

#[verifier::ext_equal]
pub enum ActionParseErrorView {
    Empty,
    UnknownAction(Seq<char>),
    MissingArgument { action: Seq<char>, arg: Seq<char> },
    InvalidArgument { action: Seq<char>, arg: Seq<char> },
}

impl View for ActionParseError {
    type V = ActionParseErrorView;

    open spec fn view(&self) -> ActionParseErrorView {
        match *self {
            ActionParseError::Empty => ActionParseErrorView::Empty,
            ActionParseError::UnknownAction(name) => ActionParseErrorView::UnknownAction(name@),
            ActionParseError::MissingArgument {
                action,
                arg,
            } => ActionParseErrorView::MissingArgument { action: action@, arg: arg@ },
            ActionParseError::InvalidArgument {
                action,
                arg,
            } => ActionParseErrorView::InvalidArgument { action: action@, arg: arg@ },
        }
    }
}

pub open spec fn action_error_text(e: ActionParseErrorView) -> Seq<char> {
    match e {
        ActionParseErrorView::Empty => "empty action"@,
        ActionParseErrorView::UnknownAction(name) => "unknown action: "@ + name,
        ActionParseErrorView::MissingArgument { action, arg } => action + ": missing argument <"@
            + arg + ">"@,
        ActionParseErrorView::InvalidArgument { action, arg } => action + ": invalid argument: "@
            + arg,
    }
}

impl ActionParseError {
    /// The message shown to a user.
    pub fn to_string(&self) -> (r: String)
        ensures
            r@ == action_error_text(self@),
    {
        match self {
            ActionParseError::Empty => "empty action".to_owned(),
            ActionParseError::UnknownAction(name) => {
                let mut s = "unknown action: ".to_owned();
                s.append(name.as_str());
                s
            },
            ActionParseError::MissingArgument { action, arg } => {
                let mut s = (*action).to_owned();
                s.append(": missing argument <");
                s.append(*arg);
                s.append(">");
                s
            },
            ActionParseError::InvalidArgument { action, arg } => {
                let mut s = (*action).to_owned();
                s.append(": invalid argument: ");
                s.append(arg.as_str());
                s
            },
        }
    }
}

pub open spec fn missing(action: Seq<char>, arg: Seq<char>) -> Result<
    ActionView,
    ActionParseErrorView,
> {
    Err(ActionParseErrorView::MissingArgument { action, arg })
}

pub open spec fn invalid(action: Seq<char>, arg: Seq<char>) -> Result<
    ActionView,
    ActionParseErrorView,
> {
    Err(ActionParseErrorView::InvalidArgument { action, arg })
}

pub open spec fn plain(a: Action) -> Result<ActionView, ActionParseErrorView> {
    Ok(ActionView::Plain(a))
}

/// `new-window`: nothing, `-n NAME`, or the name alone.
pub open spec fn new_window_of(rest: Seq<char>) -> Result<ActionView, ActionParseErrorView> {
    if rest.len() == 0 {
        Ok(ActionView::NewWindow { name: None })
    } else if text::starts_with(rest, "-n"@) {
        let name = text::trim(rest.skip("-n"@.len() as int));
        if name.len() == 0 {
            missing("new-window"@, "NAME"@)
        } else {
            Ok(ActionView::NewWindow { name: Some(name) })
        }
    } else {
        Ok(ActionView::NewWindow { name: Some(rest) })
    }
}

/// The first word of an argument text and what follows it, trimmed.
pub open spec fn head_and_rest(s: Seq<char>) -> (Seq<char>, Seq<char>) {
    match text::split_once_space(s) {
        Some((h, r)) => (h, text::trim(r)),
        None => (s, seq![]),
    }
}

/// `resize-pane DIR [AMOUNT]`; the amount is one cell where it is left out.
pub open spec fn resize_pane_of(rest: Seq<char>) -> Result<ActionView, ActionParseErrorView> {
    let (d, a) = head_and_rest(rest);
    match dir_of(d) {
        None => invalid("resize-pane"@, d),
        Some(dir) => if a.len() == 0 {
            plain(Action::ResizePane { dir, amount: 1 })
        } else {
            match text::parse_unsigned(a, 0xffff) {
                Some(n) => plain(Action::ResizePane { dir, amount: n as u16 }),
                None => invalid("resize-pane"@, a),
            }
        },
    }
}

/// The action with the name `head` and the argument text `rest`.
pub open spec fn named_action(head: Seq<char>, rest: Seq<char>) -> Result<
    ActionView,
    ActionParseErrorView,
> {
    if head == "split-window-h"@ {
        plain(Action::SplitWindowH)
    } else if head == "split-window-v"@ {
        plain(Action::SplitWindowV)
    } else if head == "kill-pane"@ {
        plain(Action::KillPane)
    } else if head == "kill-window"@ {
        plain(Action::KillWindow)
    } else if head == "new-window"@ {
        new_window_of(rest)
    } else if head == "rename-window"@ {
        plain(Action::RenameWindow)
    } else if head == "select-window"@ {
        match text::parse_unsigned(rest, usize::MAX as nat) {
            Some(n) => plain(Action::SelectWindow { index: n as usize }),
            None => invalid("select-window"@, rest),
        }
    } else if head == "next-window"@ {
        plain(Action::NextWindow)
    } else if head == "previous-window"@ {
        plain(Action::PreviousWindow)
    } else if head == "select-pane"@ {
        match dir_of(rest) {
            Some(dir) => plain(Action::SelectPane { dir }),
            None => invalid("select-pane"@, rest),
        }
    } else if head == "resize-pane"@ {
        resize_pane_of(rest)
    } else if head == "swap-pane"@ {
        if rest == "up"@ || rest == "U"@ || rest == "u"@ || rest.len() == 0 {
            plain(Action::SwapPane { up: true })
        } else if rest == "down"@ || rest == "D"@ || rest == "d"@ {
            plain(Action::SwapPane { up: false })
        } else {
            invalid("swap-pane"@, rest)
        }
    } else if head == "equalize"@ {
        plain(Action::Equalize)
    } else if head == "select-layout"@ {
        if rest.len() == 0 {
            missing("select-layout"@, "NAME"@)
        } else {
            Ok(ActionView::SelectLayout { name: rest })
        }
    } else if head == "detach-session"@ {
        plain(Action::DetachSession)
    } else if head == "kill-session"@ {
        plain(Action::KillSession)
    } else if head == "copy-mode"@ {
        plain(Action::CopyMode)
    } else if head == "cancel"@ {
        plain(Action::Cancel)
    } else if head == "begin-selection"@ {
        plain(Action::BeginSelection)
    } else if head == "copy-selection-and-cancel"@ {
        plain(Action::CopySelectionAndCancel)
    } else if head == "reload-config"@ {
        plain(Action::ReloadConfig)
    } else if head == "command-prompt"@ {
        plain(Action::CommandPrompt)
    } else if head == "toggle-settings"@ {
        plain(Action::ToggleSettings)
    } else if head == "toggle-broadcast"@ {
        plain(Action::ToggleBroadcast)
    } else if head == "display-message"@ {
        if rest.len() == 0 {
            missing("display-message"@, "TEXT"@)
        } else {
            Ok(ActionView::DisplayMessage { text: rest })
        }
    } else if head == "set-option"@ {
        match text::split_once_space(rest) {
            None => missing("set-option"@, "VALUE"@),
            Some((k, v)) => Ok(ActionView::SetOption { key: k, value: text::trim(v) }),
        }
    } else if head == "set-buffer"@ {
        if rest.len() == 0 {
            missing("set-buffer"@, "NAME"@)
        } else {
            match text::split_once_space(rest) {
                None => missing("set-buffer"@, "VALUE"@),
                Some((k, v)) => Ok(ActionView::SetBuffer { name: k, value: text::trim(v) }),
            }
        }
    } else if head == "paste-buffer"@ {
        Ok(
            ActionView::PasteBuffer {
                name: if rest.len() == 0 {
                    None
                } else {
                    Some(rest)
                },
            },
        )
    } else if head == "list-buffers"@ {
        plain(Action::ListBuffers)
    } else {
        Err(ActionParseErrorView::UnknownAction(head))
    }
}

/// The action that a text such as `select-pane right` names.
pub open spec fn action_of(input: Seq<char>) -> Result<ActionView, ActionParseErrorView> {
    let trimmed = text::trim(input);
    if trimmed.len() == 0 {
        Err(ActionParseErrorView::Empty)
    } else {
        let (head, rest) = head_and_rest(trimmed);
        named_action(head, rest)
    }
}

/// A text is read as the action whose name it begins with.
pub proof fn parsed_action_keeps_its_name(input: Seq<char>)
    requires
        action_of(input) is Ok,
    ensures
        kind_of(action_of(input)->Ok_0) == head_and_rest(text::trim(input)).0,
{
}

fn head_rest(s: &str) -> (r: (&str, &str))
    ensures
        (r.0@, r.1@) == head_and_rest(s@),
{
    match text::split_once_space_text(s) {
        Some((h, t)) => (h, text::trim_text(t)),
        None => {
            proof {
                reveal_strlit("");
                assert(""@ =~= seq![]);
            }
            (s, "")
        },
    }
}

fn missing_arg(action: &'static str, arg: &'static str) -> (r: Result<Action, ActionParseError>)
    ensures
        r matches Err(e) && missing(action@, arg@) == Err::<ActionView, ActionParseErrorView>(e@),
{
    Err(ActionParseError::MissingArgument { action, arg })
}

fn invalid_arg(action: &'static str, arg: &str) -> (r: Result<Action, ActionParseError>)
    ensures
        r matches Err(e) && invalid(action@, arg@) == Err::<ActionView, ActionParseErrorView>(e@),
{
    Err(ActionParseError::InvalidArgument { action, arg: arg.to_owned() })
}

/// Tells whether an outcome of a parser is the one that was specified.
pub open spec fn reads_as(
    r: Result<Action, ActionParseError>,
    want: Result<ActionView, ActionParseErrorView>,
) -> bool {
    match r {
        Ok(a) => want == Ok::<ActionView, ActionParseErrorView>(a@),
        Err(e) => want == Err::<ActionView, ActionParseErrorView>(e@),
    }
}

fn parse_new_window(rest: &str) -> (r: Result<Action, ActionParseError>)
    ensures
        reads_as(r, new_window_of(rest@)),
{
    if rest.is_empty() {
        return Ok(Action::NewWindow { name: None });
    }
    match text::strip_prefix_text(rest, "-n") {
        Some(stripped) => {
            let name = text::trim_text(stripped);
            if name.is_empty() {
                return missing_arg("new-window", "NAME");
            }
            Ok(Action::NewWindow { name: Some(name.to_owned()) })
        },
        None => Ok(Action::NewWindow { name: Some(rest.to_owned()) }),
    }
}

fn parse_resize_pane(rest: &str) -> (r: Result<Action, ActionParseError>)
    ensures
        reads_as(r, resize_pane_of(rest@)),
{
    let (dir_part, amount_part) = head_rest(rest);
    match Dir::parse(dir_part) {
        None => invalid_arg("resize-pane", dir_part),
        Some(dir) => {
            if amount_part.is_empty() {
                return Ok(Action::ResizePane { dir, amount: 1 });
            }
            match text::parse_unsigned_text(amount_part, 0xffff) {
                Some(n) => {
                    Ok(Action::ResizePane { dir, amount: n as u16 })
                },
                None => invalid_arg("resize-pane", amount_part),
            }
        },
    }
}

/// Parse an action text, e.g. `select-pane right`, `new-window -n logs`.
pub fn parse_action(input: &str) -> (r: Result<Action, ActionParseError>)
    ensures
        reads_as(r, action_of(input@)),
{
    let trimmed = text::trim_text(input);
    if trimmed.is_empty() {
        return Err(ActionParseError::Empty);
    }
    let (head, rest) = head_rest(trimmed);
    read_action(head, rest)
}

fn read_action(head: &str, rest: &str) -> (r: Result<Action, ActionParseError>)
    ensures
        reads_as(r, named_action(head@, rest@)),
{
    if text::same_text(head, "split-window-h") {
        Ok(Action::SplitWindowH)
    } else if text::same_text(head, "split-window-v") {
        Ok(Action::SplitWindowV)
    } else if text::same_text(head, "kill-pane") {
        Ok(Action::KillPane)
    } else if text::same_text(head, "kill-window") {
        Ok(Action::KillWindow)
    } else if text::same_text(head, "new-window") {
        parse_new_window(rest)
    } else if text::same_text(head, "rename-window") {
        Ok(Action::RenameWindow)
    } else if text::same_text(head, "select-window") {
        match text::parse_unsigned_text(rest, usize::MAX as u64) {
            Some(n) => {
                Ok(Action::SelectWindow { index: n as usize })
            },
            None => invalid_arg("select-window", rest),
        }
    } else if text::same_text(head, "next-window") {
        Ok(Action::NextWindow)
    } else if text::same_text(head, "previous-window") {
        Ok(Action::PreviousWindow)
    } else if text::same_text(head, "select-pane") {
        match Dir::parse(rest) {
            Some(dir) => Ok(Action::SelectPane { dir }),
            None => invalid_arg("select-pane", rest),
        }
    } else if text::same_text(head, "resize-pane") {
        parse_resize_pane(rest)
    } else if text::same_text(head, "swap-pane") {
        if text::same_text(rest, "up") || text::same_text(rest, "U") || text::same_text(rest, "u")
            || rest.is_empty() {
            Ok(Action::SwapPane { up: true })
        } else if text::same_text(rest, "down") || text::same_text(rest, "D") || text::same_text(
            rest,
            "d",
        ) {
            Ok(Action::SwapPane { up: false })
        } else {
            invalid_arg("swap-pane", rest)
        }
    } else if text::same_text(head, "equalize") {
        Ok(Action::Equalize)
    } else if text::same_text(head, "select-layout") {
        if rest.is_empty() {
            return missing_arg("select-layout", "NAME");
        }
        Ok(Action::SelectLayout { name: rest.to_owned() })
    } else if text::same_text(head, "detach-session") {
        Ok(Action::DetachSession)
    } else if text::same_text(head, "kill-session") {
        Ok(Action::KillSession)
    } else if text::same_text(head, "copy-mode") {
        Ok(Action::CopyMode)
    } else if text::same_text(head, "cancel") {
        Ok(Action::Cancel)
    } else if text::same_text(head, "begin-selection") {
        Ok(Action::BeginSelection)
    } else if text::same_text(head, "copy-selection-and-cancel") {
        Ok(Action::CopySelectionAndCancel)
    } else if text::same_text(head, "reload-config") {
        Ok(Action::ReloadConfig)
    } else if text::same_text(head, "command-prompt") {
        Ok(Action::CommandPrompt)
    } else if text::same_text(head, "toggle-settings") {
        Ok(Action::ToggleSettings)
    } else if text::same_text(head, "toggle-broadcast") {
        Ok(Action::ToggleBroadcast)
    } else if text::same_text(head, "display-message") {
        if rest.is_empty() {
            return missing_arg("display-message", "TEXT");
        }
        Ok(Action::DisplayMessage { text: rest.to_owned() })
    } else if text::same_text(head, "set-option") {
        match text::split_once_space_text(rest) {
            None => missing_arg("set-option", "VALUE"),
            Some((k, v)) => Ok(
                Action::SetOption { key: k.to_owned(), value: text::trim_text(v).to_owned() },
            ),
        }
    } else if text::same_text(head, "set-buffer") {
        if rest.is_empty() {
            return missing_arg("set-buffer", "NAME");
        }
        match text::split_once_space_text(rest) {
            None => missing_arg("set-buffer", "VALUE"),
            Some((k, v)) => Ok(
                Action::SetBuffer { name: k.to_owned(), value: text::trim_text(v).to_owned() },
            ),
        }
    } else if text::same_text(head, "paste-buffer") {
        if rest.is_empty() {
            Ok(Action::PasteBuffer { name: None })
        } else {
            Ok(Action::PasteBuffer { name: Some(rest.to_owned()) })
        }
    } else if text::same_text(head, "list-buffers") {
        Ok(Action::ListBuffers)
    } else {
        Err(ActionParseError::UnknownAction(head.to_owned()))
    }
}

// ─── Key chord parser ──────────────────────────────────────

/// A key with the modifiers that it is matched under.
#[derive(Debug, Clone, Copy, PartialEq, Eq, Hash, Structural)]
pub struct KeyChord {
    pub code: KeyCode,
    pub mods: KeyModifiers,
}

/// The chord of a key event: modifiers other than Ctrl, Alt and Shift are
/// ignored, and a character without Shift is taken in lower case.
pub open spec fn chord_of_event(ev: KeyEvent) -> KeyChord {
    KeyChord {
        code: match ev.code {
            KeyCode::Char(c) => if ev.modifiers.shift {
                KeyCode::Char(c)
            } else {
                KeyCode::Char(text::lower(c))
            },
            other => other,
        },
        mods: KeyModifiers { super_key: false, hyper: false, meta: false, ..ev.modifiers },
    }
}

impl KeyChord {
    pub fn new(code: KeyCode, mods: KeyModifiers) -> (r: KeyChord)
        ensures
            r == (KeyChord { code, mods }),
    {
        KeyChord { code, mods }
    }

    /// Build a chord from an incoming event.
    pub fn from_event(ev: KeyEvent) -> (r: KeyChord)
        ensures
            r == chord_of_event(ev),
    {
        let mods = KeyModifiers { super_key: false, hyper: false, meta: false, ..ev.modifiers };
        let code = match ev.code {
            KeyCode::Char(c) => if mods.shift {
                KeyCode::Char(c)
            } else {
                KeyCode::Char(text::lower_char(c))
            },
            other => other,
        };
        KeyChord { code, mods }
    }
}

#[derive(Debug, Clone, PartialEq, Eq)]
pub enum KeyParseError {
    Empty,
    UnknownNamedKey(String),
    InvalidModifier(String),
    DanglingModifier,
}

#[verifier::ext_equal]
pub enum KeyParseErrorView {
    Empty,
    UnknownNamedKey(Seq<char>),
    InvalidModifier(Seq<char>),
    DanglingModifier,
}

impl View for KeyParseError {
    type V = KeyParseErrorView;

    open spec fn view(&self) -> KeyParseErrorView {
        match *self {
            KeyParseError::Empty => KeyParseErrorView::Empty,
            KeyParseError::UnknownNamedKey(s) => KeyParseErrorView::UnknownNamedKey(s@),
            KeyParseError::InvalidModifier(s) => KeyParseErrorView::InvalidModifier(s@),
            KeyParseError::DanglingModifier => KeyParseErrorView::DanglingModifier,
        }
    }
}

pub open spec fn key_error_text(e: KeyParseErrorView) -> Seq<char> {
    match e {
        KeyParseErrorView::Empty => "empty key spec"@,
        KeyParseErrorView::UnknownNamedKey(s) => "unknown named key: "@ + s,
        KeyParseErrorView::InvalidModifier(s) => "invalid modifier: "@ + s,
        KeyParseErrorView::DanglingModifier => "modifier without a key"@,
    }
}

impl KeyParseError {
    /// The message shown to a user.
    pub fn to_string(&self) -> (r: String)
        ensures
            r@ == key_error_text(self@),
    {
        match self {
            KeyParseError::Empty => "empty key spec".to_owned(),
            KeyParseError::UnknownNamedKey(s) => {
                let mut t = "unknown named key: ".to_owned();
                t.append(s.as_str());
                t
            },
            KeyParseError::InvalidModifier(s) => {
                let mut t = "invalid modifier: ".to_owned();
                t.append(s.as_str());
                t
            },
            KeyParseError::DanglingModifier => "modifier without a key".to_owned(),
        }
    }
}

/// The modifiers with the one that a letter stands for added.
pub open spec fn modified(mods: KeyModifiers, letter: char) -> Option<KeyModifiers> {
    if letter == 'C' || letter == 'c' {
        Some(mods.with_control())
    } else if letter == 'M' || letter == 'm' {
        Some(mods.with_alt())
    } else if letter == 'S' || letter == 's' {
        Some(mods.with_shift())
    } else {
        None
    }
}

/// Takes the modifiers off the front of a key text.
pub open spec fn strip_modifiers(mods: KeyModifiers, s: Seq<char>) -> (KeyModifiers, Seq<char>)
    decreases s.len(),
{
    if s.len() >= 2 && s[1] == '-' && modified(mods, s[0]) is Some {
        strip_modifiers(modified(mods, s[0])->Some_0, s.skip(2))
    } else {
        (mods, s)
    }
}

/// The number of a function key `F1` to `F12`.
pub open spec fn function_key(s: Seq<char>) -> Option<nat> {
    if s.len() > 0 && (s[0] == 'F' || s[0] == 'f') {
        match text::parse_unsigned(s.skip(1), 255) {
            Some(n) => if 1 <= n <= 12 {
                Some(n)
            } else {
                None
            },
            None => None,
        }
    } else {
        None
    }
}

pub open spec fn named_code(s: Seq<char>) -> Option<KeyCode> {
    if s == "Enter"@ || s == "enter"@ || s == "Return"@ || s == "return"@ {
        Some(KeyCode::Enter)
    } else if s == "Esc"@ || s == "esc"@ || s == "Escape"@ || s == "escape"@ {
        Some(KeyCode::Esc)
    } else if s == "Tab"@ || s == "tab"@ {
        Some(KeyCode::Tab)
    } else if s == "BackTab"@ || s == "backtab"@ {
        Some(KeyCode::BackTab)
    } else if s == "Backspace"@ || s == "backspace"@ || s == "BS"@ {
        Some(KeyCode::Backspace)
    } else if s == "Delete"@ || s == "delete"@ || s == "Del"@ {
        Some(KeyCode::Delete)
    } else if s == "Insert"@ || s == "insert"@ || s == "Ins"@ {
        Some(KeyCode::Insert)
    } else if s == "Home"@ || s == "home"@ {
        Some(KeyCode::Home)
    } else if s == "End"@ || s == "end"@ {
        Some(KeyCode::End)
    } else if s == "PageUp"@ || s == "pageup"@ || s == "PgUp"@ {
        Some(KeyCode::PageUp)
    } else if s == "PageDown"@ || s == "pagedown"@ || s == "PgDn"@ || s == "PgDown"@ {
        Some(KeyCode::PageDown)
    } else if s == "Up"@ || s == "up"@ {
        Some(KeyCode::Up)
    } else if s == "Down"@ || s == "down"@ {
        Some(KeyCode::Down)
    } else if s == "Left"@ || s == "left"@ {
        Some(KeyCode::Left)
    } else if s == "Right"@ || s == "right"@ {
        Some(KeyCode::Right)
    } else if s == "Space"@ || s == "space"@ {
        Some(KeyCode::Char(' '))
    } else {
        None
    }
}

/// The key that a text without modifiers names.
pub open spec fn key_of(s: Seq<char>, shift: bool) -> Result<KeyCode, KeyParseErrorView> {
    if function_key(s) is Some {
        Ok(KeyCode::F(function_key(s)->Some_0 as u8))
    } else if named_code(s) is Some {
        Ok(named_code(s)->Some_0)
    } else if s.len() == 1 {
        Ok(
            KeyCode::Char(
                if shift {
                    s[0]
                } else {
                    text::lower(s[0])
                },
            ),
        )
    } else {
        Err(KeyParseErrorView::UnknownNamedKey(s))
    }
}

/// The chord that a key text such as `C-Right` names.
pub open spec fn chord_of(input: Seq<char>) -> Result<KeyChord, KeyParseErrorView> {
    let trimmed = text::trim(input);
    if trimmed.len() == 0 {
        Err(KeyParseErrorView::Empty)
    } else {
        let (mods, rest) = strip_modifiers(KeyModifiers::none(), trimmed);
        if rest.len() == 0 {
            Err(KeyParseErrorView::DanglingModifier)
        } else {
            match key_of(rest, mods.shift) {
                Ok(code) => Ok(KeyChord { code, mods }),
                Err(e) => Err(e),
            }
        }
    }
}

fn read_named_code(s: &str) -> (r: Option<KeyCode>)
    ensures
        r == named_code(s@),
{
    if text::same_text(s, "Enter") || text::same_text(s, "enter") || text::same_text(s, "Return")
        || text::same_text(s, "return") {
        Some(KeyCode::Enter)
    } else if text::same_text(s, "Esc") || text::same_text(s, "esc") || text::same_text(s, "Escape")
        || text::same_text(s, "escape") {
        Some(KeyCode::Esc)
    } else if text::same_text(s, "Tab") || text::same_text(s, "tab") {
        Some(KeyCode::Tab)
    } else if text::same_text(s, "BackTab") || text::same_text(s, "backtab") {
        Some(KeyCode::BackTab)
    } else if text::same_text(s, "Backspace") || text::same_text(s, "backspace")
        || text::same_text(s, "BS") {
        Some(KeyCode::Backspace)
    } else if text::same_text(s, "Delete") || text::same_text(s, "delete") || text::same_text(
        s,
        "Del",
    ) {
        Some(KeyCode::Delete)
    } else if text::same_text(s, "Insert") || text::same_text(s, "insert") || text::same_text(
        s,
        "Ins",
    ) {
        Some(KeyCode::Insert)
    } else if text::same_text(s, "Home") || text::same_text(s, "home") {
        Some(KeyCode::Home)
    } else if text::same_text(s, "End") || text::same_text(s, "end") {
        Some(KeyCode::End)
    } else if text::same_text(s, "PageUp") || text::same_text(s, "pageup") || text::same_text(
        s,
        "PgUp",
    ) {
        Some(KeyCode::PageUp)
    } else if text::same_text(s, "PageDown") || text::same_text(s, "pagedown") || text::same_text(
        s,
        "PgDn",
    ) || text::same_text(s, "PgDown") {
        Some(KeyCode::PageDown)
    } else if text::same_text(s, "Up") || text::same_text(s, "up") {
        Some(KeyCode::Up)
    } else if text::same_text(s, "Down") || text::same_text(s, "down") {
        Some(KeyCode::Down)
    } else if text::same_text(s, "Left") || text::same_text(s, "left") {
        Some(KeyCode::Left)
    } else if text::same_text(s, "Right") || text::same_text(s, "right") {
        Some(KeyCode::Right)
    } else if text::same_text(s, "Space") || text::same_text(s, "space") {
        Some(KeyCode::Char(' '))
    } else {
        None
    }
}

fn read_function_key(s: &str) -> (r: Option<u8>)
    ensures
        match r {
            Some(n) => function_key(s@) == Some(n as nat),
            None => function_key(s@) is None,
        },
{
    let n: usize = s.unicode_len();
    if n == 0 {
        return None;
    }
    let c = s.get_char(0);
    if c != 'F' && c != 'f' {
        return None;
    }
    let num = s.substring_char(1, n);
    assert(num@ =~= s@.skip(1));
    match text::parse_unsigned_text(num, 255) {
        Some(v) => if 1 <= v && v <= 12 {
            Some(v as u8)
        } else {
            None
        },
        None => None,
    }
}

/// Parse a key text like `C-Right`, `M-S-Tab`, `F2`, `?`, `Space`.
pub fn parse_chord(input: &str) -> (r: Result<KeyChord, KeyParseError>)
    ensures
        match r {
            Ok(c) => chord_of(input@) == Ok::<KeyChord, KeyParseErrorView>(c),
            Err(e) => chord_of(input@) == Err::<KeyChord, KeyParseErrorView>(e@),
        },
{
    let trimmed = text::trim_text(input);
    if trimmed.is_empty() {
        return Err(KeyParseError::Empty);
    }
    let n: usize = trimmed.unicode_len();
    let mut mods = KeyModifiers::none();
    let mut at: usize = 0;
    assert(trimmed@.skip(0) =~= trimmed@);
    while n - at >= 2 && trimmed.get_char(at + 1) == '-'
        invariant_except_break
            at <= n,
            n == trimmed@.len(),
            strip_modifiers(mods, trimmed@.skip(at as int)) == strip_modifiers(
                KeyModifiers::none(),
                trimmed@,
            ),
        ensures
            at <= n,
            strip_modifiers(KeyModifiers::none(), trimmed@) == (mods, trimmed@.skip(at as int)),
        decreases n - at,
    {
        let c = trimmed.get_char(at);
        if c == 'C' || c == 'c' {
            mods = mods.with_control();
        } else if c == 'M' || c == 'm' {
            mods = mods.with_alt();
        } else if c == 'S' || c == 's' {
            mods = mods.with_shift();
        } else {
            break;
        }
        assert(trimmed@.skip(at as int).skip(2) =~= trimmed@.skip(at + 2));
        at += 2;
    }
    let rest = trimmed.substring_char(at, n);
    assert(rest@ =~= trimmed@.skip(at as int));
    if rest.is_empty() {
        return Err(KeyParseError::DanglingModifier);
    }
    match read_function_key(rest) {
        Some(k) => {
            return Ok(KeyChord { code: KeyCode::F(k), mods });
        },
        None => {},
    }
    match read_named_code(rest) {
        Some(code) => {
            return Ok(KeyChord { code, mods });
        },
        None => {},
    }
    if rest.unicode_len() == 1 {
        let c = rest.get_char(0);
        let c = if mods.shift {
            c
        } else {
            text::lower_char(c)
        };
        return Ok(KeyChord { code: KeyCode::Char(c), mods });
    }
    Err(KeyParseError::UnknownNamedKey(rest.to_owned()))
}

/// The chord of a key text is the chord of the event that the key sends: a
/// parsed chord holds no modifier beyond Ctrl, Alt and Shift, and only under
/// Shift an upper case letter.
pub proof fn parsed_chords_match_events(input: Seq<char>)
    requires
        chord_of(input) is Ok,
    ensures
        chord_of_event(
            KeyEvent {
                code: chord_of(input)->Ok_0.code,
                modifiers: chord_of(input)->Ok_0.mods,
                kind: crate::keys::KeyEventKind::Press,
            },
        ) == chord_of(input)->Ok_0,
{
    lemma_stripped(KeyModifiers::none(), text::trim(input));
}

proof fn lemma_stripped(mods: KeyModifiers, s: Seq<char>)
    requires
        !mods.super_key && !mods.hyper && !mods.meta,
    ensures
        ({
            let m = strip_modifiers(mods, s).0;
            !m.super_key && !m.hyper && !m.meta
        }),
    decreases s.len(),
{
    if s.len() >= 2 && s[1] == '-' && modified(mods, s[0]) is Some {
        lemma_stripped(modified(mods, s[0])->Some_0, s.skip(2));
    }
}

/// A text of modifiers: each letter with a hyphen behind it.
pub open spec fn modifier_text(letters: Seq<char>) -> Seq<char>
    decreases letters.len(),
{
    if letters.len() == 0 {
        seq![]
    } else {
        seq![letters[0], '-'] + modifier_text(letters.skip(1))
    }
}

/// Every letter stands for a modifier.
pub open spec fn modifier_letters(letters: Seq<char>) -> bool {
    forall|i: int|
        0 <= i < letters.len() ==> modified(KeyModifiers::none(), #[trigger] letters[i]) is Some
}

/// One of the letters stands for the modifier, in either case.
pub open spec fn names(letters: Seq<char>, upper: char, lower: char) -> bool {
    letters.contains(upper) || letters.contains(lower)
}

/// The modifiers with those of all the letters added.
spec fn all_modified(mods: KeyModifiers, letters: Seq<char>) -> KeyModifiers {
    KeyModifiers {
        control: mods.control || names(letters, 'C', 'c'),
        alt: mods.alt || names(letters, 'M', 'm'),
        shift: mods.shift || names(letters, 'S', 's'),
        ..mods
    }
}

proof fn lemma_strip_letters(mods: KeyModifiers, letters: Seq<char>, key: Seq<char>)
    requires
        modifier_letters(letters),
    ensures
        strip_modifiers(mods, modifier_text(letters) + key) == strip_modifiers(
            all_modified(mods, letters),
            key,
        ),
    decreases letters.len(),
{
    if letters.len() == 0 {
        assert(modifier_text(letters) + key =~= key);
        assert(all_modified(mods, letters) == mods);
    } else {
        let c = letters[0];
        let rest = letters.skip(1);
        let s = modifier_text(letters) + key;
        assert(modified(KeyModifiers::none(), c) is Some);
        assert(s[0] == c && s[1] == '-');
        assert(s.skip(2) =~= modifier_text(rest) + key);
        assert forall|i: int| 0 <= i < rest.len() implies modified(
            KeyModifiers::none(),
            #[trigger] rest[i],
        ) is Some by {
            assert(rest[i] == letters[i + 1]);
        }
        let next = modified(mods, c)->Some_0;
        lemma_strip_letters(next, rest, key);
        assert forall|x: char| #[trigger] letters.contains(x) == (x == c || rest.contains(x)) by {
            if letters.contains(x) {
                let i = letters.index_of(x);
                if i > 0 {
                    assert(rest[i - 1] == x);
                }
            }
            if rest.contains(x) {
                let i = rest.index_of(x);
                assert(letters[i + 1] == x);
            }
        }
        assert(all_modified(next, rest) == all_modified(mods, letters));
    }
}

proof fn lemma_modifier_text_ends(letters: Seq<char>)
    requires
        modifier_letters(letters),
        letters.len() > 0,
    ensures
        modifier_text(letters).len() >= 2,
        modifier_text(letters)[0] == letters[0],
        !text::is_space(letters[0]),
        modifier_text(letters).last() == '-',
    decreases letters.len(),
{
    assert(modified(KeyModifiers::none(), letters[0]) is Some);
    let rest = letters.skip(1);
    if rest.len() > 0 {
        assert forall|i: int| 0 <= i < rest.len() implies modified(
            KeyModifiers::none(),
            #[trigger] rest[i],
        ) is Some by {
            assert(rest[i] == letters[i + 1]);
        }
        lemma_modifier_text_ends(rest);
    } else {
        assert(modifier_text(rest) =~= seq![]);
    }
}

/// The order of the modifiers in a key text, their repetition and their case do
/// not matter.
pub proof fn modifiers_may_stand_in_any_order(a: Seq<char>, b: Seq<char>, key: Seq<char>)
    requires
        modifier_letters(a),
        modifier_letters(b),
        names(a, 'C', 'c') == names(b, 'C', 'c'),
        names(a, 'M', 'm') == names(b, 'M', 'm'),
        names(a, 'S', 's') == names(b, 'S', 's'),
    ensures
        chord_of(modifier_text(a) + key) == chord_of(modifier_text(b) + key),
{
    lemma_named(a);
    lemma_named(b);
    if a.len() == 0 {
        assert(a =~= b);
    } else {
        lemma_trimmed_chord(a, key);
        lemma_trimmed_chord(b, key);
        let k = text::trim_end(key);
        lemma_strip_letters(KeyModifiers::none(), a, k);
        lemma_strip_letters(KeyModifiers::none(), b, k);
    }
}

proof fn lemma_named(letters: Seq<char>)
    requires
        modifier_letters(letters),
    ensures
        letters.len() > 0 <==> names(letters, 'C', 'c') || names(letters, 'M', 'm') || names(
            letters,
            'S',
            's',
        ),
{
    if letters.len() > 0 {
        let c = letters[0];
        assert(modified(KeyModifiers::none(), c) is Some);
        assert(letters.contains(c));
    }
}

proof fn lemma_trimmed_chord(letters: Seq<char>, key: Seq<char>)
    requires
        modifier_letters(letters),
        letters.len() > 0,
    ensures
        text::trim(modifier_text(letters) + key) == modifier_text(letters) + text::trim_end(key),
{
    lemma_modifier_text_ends(letters);
    let t = modifier_text(letters);
    assert((t + key)[0] == letters[0]);
    text::lemma_trim_end_add(t, key);
}

// ─── Tables and the key map ────────────────────────────────

#[derive(Debug, Clone, Copy, PartialEq, Eq, Hash, PartialOrd, Ord, Structural)]
pub enum KeymapTable {
    Prefix,
    Normal,
    CopyMode,
}

pub open spec fn table_name(t: KeymapTable) -> Seq<char> {
    match t {
        KeymapTable::Prefix => "prefix"@,
        KeymapTable::Normal => "normal"@,
        KeymapTable::CopyMode => "copy_mode"@,
    }
}

pub open spec fn table_of(s: Seq<char>) -> Option<KeymapTable> {
    if s == "prefix"@ {
        Some(KeymapTable::Prefix)
    } else if s == "normal"@ {
        Some(KeymapTable::Normal)
    } else if s == "copy_mode"@ || s == "copy-mode"@ {
        Some(KeymapTable::CopyMode)
    } else {
        None
    }
}

/// Every table is found by its name.
pub proof fn tables_are_found_by_name(t: KeymapTable)
    ensures
        table_of(table_name(t)) == Some(t),
{
    reveal_strlit("prefix");
    reveal_strlit("normal");
    reveal_strlit("copy_mode");
    assert("prefix"@[0] == 'p' && "normal"@[0] == 'n' && "copy_mode"@[0] == 'c');
}

impl KeymapTable {
    pub fn name(self) -> (r: &'static str)
        ensures
            r@ == table_name(self),
    {
        match self {
            KeymapTable::Prefix => "prefix",
            KeymapTable::Normal => "normal",
            KeymapTable::CopyMode => "copy_mode",
        }
    }

    pub fn from_str(s: &str) -> (r: Option<KeymapTable>)
        ensures
            r == table_of(s@),
    {
        if text::same_text(s, "prefix") {
            Some(KeymapTable::Prefix)
        } else if text::same_text(s, "normal") {
            Some(KeymapTable::Normal)
        } else if text::same_text(s, "copy_mode") || text::same_text(s, "copy-mode") {
            Some(KeymapTable::CopyMode)
        } else {
            None
        }
    }

    pub fn all() -> (r: Vec<KeymapTable>)
        ensures
            r@ == seq![KeymapTable::Prefix, KeymapTable::Normal, KeymapTable::CopyMode],
    {
        let v: Vec<KeymapTable> =
            vec![KeymapTable::Prefix, KeymapTable::Normal, KeymapTable::CopyMode];
        assert(v@ =~= seq![KeymapTable::Prefix, KeymapTable::Normal, KeymapTable::CopyMode]);
        v
    }
}

/// What each chord of a table is bound to.
pub type Bindings = Map<KeyChord, ActionView>;

/// The bindings of the three tables.
#[verifier::ext_equal]
pub struct KeymapView {
    pub prefix: Bindings,
    pub normal: Bindings,
    pub copy_mode: Bindings,
}

impl KeymapView {
    pub open spec fn table(self, t: KeymapTable) -> Bindings {
        match t {
            KeymapTable::Prefix => self.prefix,
            KeymapTable::Normal => self.normal,
            KeymapTable::CopyMode => self.copy_mode,
        }
    }

    pub open spec fn with(self, t: KeymapTable, b: Bindings) -> KeymapView {
        match t {
            KeymapTable::Prefix => KeymapView { prefix: b, ..self },
            KeymapTable::Normal => KeymapView { normal: b, ..self },
            KeymapTable::CopyMode => KeymapView { copy_mode: b, ..self },
        }
    }

    pub open spec fn unbound() -> KeymapView {
        KeymapView { prefix: Map::empty(), normal: Map::empty(), copy_mode: Map::empty() }
    }
}

/// A resolved key map. In each table a chord stands at most once.
#[derive(Debug, Clone)]
pub struct Keymap {
    prefix: Vec<(KeyChord, Action)>,
    normal: Vec<(KeyChord, Action)>,
    copy_mode: Vec<(KeyChord, Action)>,
}

spec fn bindings(v: Seq<(KeyChord, Action)>) -> Bindings
    decreases v.len(),
{
    if v.len() == 0 {
        Map::empty()
    } else {
        bindings(v.drop_last()).insert(v.last().0, v.last().1@)
    }
}

spec fn chords_differ(v: Seq<(KeyChord, Action)>) -> bool {
    forall|i: int, j: int| 0 <= i < j < v.len() ==> (#[trigger] v[i]).0 != (#[trigger] v[j]).0
}

proof fn lemma_bindings(v: Seq<(KeyChord, Action)>)
    requires
        chords_differ(v),
    ensures
        bindings(v).dom().finite(),
        bindings(v).len() == v.len(),
        forall|i: int| 0 <= i < v.len() ==> bindings(v).contains_pair((#[trigger] v[i]).0, v[i].1@),
        forall|c: KeyChord| #[trigger]
            bindings(v).dom().contains(c) ==> exists|i: int| 0 <= i < v.len() && (#[trigger] v[i]).0
                == c,
    decreases v.len(),
{
    if v.len() > 0 {
        let w = v.drop_last();
        lemma_bindings(w);
        assert forall|i: int| 0 <= i < v.len() implies bindings(v).contains_pair(
            (#[trigger] v[i]).0,
            v[i].1@,
        ) by {
            if i < w.len() {
                assert(w[i] == v[i]);
            }
        }
        assert forall|c: KeyChord| #[trigger] bindings(v).dom().contains(c) implies exists|i: int|
            0 <= i < v.len() && (#[trigger] v[i]).0 == c by {
            if c == v.last().0 {
                assert(v[v.len() - 1].0 == c);
            } else {
                assert(bindings(w).dom().contains(c));
                let i = choose|i: int| 0 <= i < w.len() && (#[trigger] w[i]).0 == c;
                assert(v[i] == w[i]);
            }
        }
        if bindings(w).dom().contains(v.last().0) {
            let i = choose|i: int| 0 <= i < w.len() && (#[trigger] w[i]).0 == v.last().0;
            assert(v[i] == w[i]);
            assert(v[i].0 != v[v.len() - 1].0);
        }
    }
}

impl View for Keymap {
    type V = KeymapView;

    closed spec fn view(&self) -> KeymapView {
        KeymapView {
            prefix: bindings(self.prefix@),
            normal: bindings(self.normal@),
            copy_mode: bindings(self.copy_mode@),
        }
    }
}

fn position(v: &Vec<(KeyChord, Action)>, chord: &KeyChord) -> (r: Option<usize>)
    requires
        chords_differ(v@),
    ensures
        match r {
            Some(i) => i < v@.len() && v@[i as int].0 == *chord,
            None => !bindings(v@).dom().contains(*chord),
        },
{
    let mut i: usize = 0;
    while i < v.len()
        invariant
            i <= v@.len(),
            forall|j: int| 0 <= j < i ==> (#[trigger] v@[j]).0 != *chord,
        decreases v@.len() - i,
    {
        if v[i].0 == *chord {
            return Some(i);
        }
        i += 1;
    }
    proof {
        lemma_bindings(v@);
    }
    None
}

fn bind_in(v: &mut Vec<(KeyChord, Action)>, chord: KeyChord, action: Action)
    requires
        chords_differ(old(v)@),
    ensures
        chords_differ(final(v)@),
        bindings(final(v)@) == bindings(old(v)@).insert(chord, action@),
{
    let ghost before = v@;
    proof {
        lemma_bindings(before);
    }
    match position(v, &chord) {
        Some(i) => {
            v[i] = (chord, action);
            proof {
                let after = v@;
                assert(after == before.update(i as int, (chord, action)));
                assert(chords_differ(after)) by {
                    assert forall|a: int, b: int| 0 <= a < b < after.len() implies (
                    #[trigger] after[a]).0 != (#[trigger] after[b]).0 by {
                        assert(after[a].0 == before[a].0 && after[b].0 == before[b].0);
                    }
                }
                lemma_bindings(after);
                lemma_same_bindings(after, bindings(before).insert(chord, action@), before, i as int);
            }
        },
        None => {
            v.push((chord, action));
            proof {
                let after = v@;
                assert(after.drop_last() =~= before);
                assert(chords_differ(after)) by {
                    assert forall|a: int, b: int| 0 <= a < b < after.len() implies (
                    #[trigger] after[a]).0 != (#[trigger] after[b]).0 by {
                        if b == before.len() {
                            assert(bindings(before).contains_pair(before[a].0, before[a].1@));
                        } else {
                            assert(after[a] == before[a] && after[b] == before[b]);
                        }
                    }
                }
            }
        },
    }
}

proof fn lemma_same_bindings(
    after: Seq<(KeyChord, Action)>,
    want: Bindings,
    before: Seq<(KeyChord, Action)>,
    i: int,
)
    requires
        0 <= i < before.len(),
        chords_differ(before),
        chords_differ(after),
        after.len() == before.len(),
        after[i].0 == before[i].0,
        forall|j: int| 0 <= j < before.len() && j != i ==> after[j] == before[j],
        want == bindings(before).insert(after[i].0, after[i].1@),
    ensures
        bindings(after) == want,
{
    lemma_bindings(before);
    lemma_bindings(after);
    assert forall|c: KeyChord| bindings(after).dom().contains(c) == want.dom().contains(c) && (
    want.dom().contains(c) ==> bindings(after)[c] == want[c]) by {
        if bindings(after).dom().contains(c) {
            let j = choose|j: int| 0 <= j < after.len() && (#[trigger] after[j]).0 == c;
            assert(bindings(after).contains_pair(after[j].0, after[j].1@));
            assert(bindings(before).contains_pair(before[j].0, before[j].1@));
            if j != i {
                assert(after[j].0 != after[i].0) by {
                    if j < i {
                        assert(after[j].0 != after[i].0);
                    } else {
                        assert(after[i].0 != after[j].0);
                    }
                }
            }
        }
        if want.dom().contains(c) {
            if c != after[i].0 {
                let j = choose|j: int| 0 <= j < before.len() && (#[trigger] before[j]).0 == c;
                assert(after[j] == before[j]);
                assert(bindings(after).contains_pair(after[j].0, after[j].1@));
            } else {
                assert(bindings(after).contains_pair(after[i].0, after[i].1@));
            }
        }
    }
    assert(bindings(after) =~= want);
}

impl Default for Keymap {
    fn default() -> (r: Keymap)
        ensures
            r.wf(),
            r@ == KeymapView::unbound(),
    {
        Keymap { prefix: Vec::new(), normal: Vec::new(), copy_mode: Vec::new() }
    }
}

impl Keymap {
    /// In each table a chord stands at most once.
    pub closed spec fn wf(self) -> bool {
        chords_differ(self.prefix@) && chords_differ(self.normal@) && chords_differ(
            self.copy_mode@,
        )
    }

    pub fn new() -> (r: Keymap)
        ensures
            r.wf(),
            r@ == KeymapView::unbound(),
    {
        Keymap { prefix: Vec::new(), normal: Vec::new(), copy_mode: Vec::new() }
    }

    fn rows(&self, table: KeymapTable) -> (r: &Vec<(KeyChord, Action)>)
        requires
            self.wf(),
        ensures
            chords_differ(r@),
            bindings(r@) == self@.table(table),
    {
        match table {
            KeymapTable::Prefix => &self.prefix,
            KeymapTable::Normal => &self.normal,
            KeymapTable::CopyMode => &self.copy_mode,
        }
    }

    /// Look up a chord in the given table. `None` means that the chord is not
    /// bound and the built-in handler is to take the key.
    pub fn lookup(&self, table: KeymapTable, chord: &KeyChord) -> (r: Option<&Action>)
        requires
            self.wf(),
        ensures
            match r {
                Some(a) => self@.table(table).contains_pair(*chord, a@),
                None => !self@.table(table).dom().contains(*chord),
            },
    {
        let rows = self.rows(table);
        proof {
            lemma_bindings(rows@);
        }
        match position(rows, chord) {
            Some(i) => {
                assert(bindings(rows@).contains_pair(rows@[i as int].0, rows@[i as int].1@));
                Some(&rows[i].1)
            },
            None => None,
        }
    }

    /// Number of bindings registered in the given table.
    pub fn len(&self, table: KeymapTable) -> (r: usize)
        requires
            self.wf(),
        ensures
            self@.table(table).dom().finite(),
            r == self@.table(table).len(),
    {
        let rows = self.rows(table);
        proof {
            lemma_bindings(rows@);
        }
        rows.len()
    }

    /// Tells whether no table holds a binding.
    pub fn is_empty(&self) -> (r: bool)
        requires
            self.wf(),
        ensures
            r == (self@ == KeymapView::unbound()),
    {
        proof {
            lemma_bindings(self.prefix@);
            lemma_bindings(self.normal@);
            lemma_bindings(self.copy_mode@);
            if self.prefix@.len() == 0 {
                assert(bindings(self.prefix@) =~= Map::empty());
            }
            if self.normal@.len() == 0 {
                assert(bindings(self.normal@) =~= Map::empty());
            }
            if self.copy_mode@.len() == 0 {
                assert(bindings(self.copy_mode@) =~= Map::empty());
            }
            assert(Map::<KeyChord, ActionView>::empty().len() == 0);
        }
        self.prefix.len() == 0 && self.normal.len() == 0 && self.copy_mode.len() == 0
    }

    /// Bind a chord to an action, replacing any entry for the same chord in
    /// the same table.
    pub fn bind(&mut self, table: KeymapTable, chord: KeyChord, action: Action)
        requires
            old(self).wf(),
        ensures
            final(self).wf(),
            final(self)@ == old(self)@.with(
                table,
                old(self)@.table(table).insert(chord, action@),
            ),
    {
        match table {
            KeymapTable::Prefix => bind_in(&mut self.prefix, chord, action),
            KeymapTable::Normal => bind_in(&mut self.normal, chord, action),
            KeymapTable::CopyMode => bind_in(&mut self.copy_mode, chord, action),
        }
    }

    /// Drop every binding in a table.
    pub fn clear(&mut self, table: KeymapTable)
        requires
            old(self).wf(),
        ensures
            final(self).wf(),
            final(self)@ == old(self)@.with(table, Map::empty()),
    {
        match table {
            KeymapTable::Prefix => self.prefix.clear(),
            KeymapTable::Normal => self.normal.clear(),
            KeymapTable::CopyMode => self.copy_mode.clear(),
        }
    }
}

// ─── Loading bindings ──────────────────────────────────────

/// Why a table could not be loaded: the table, the offending key and what is
/// wrong with it.
#[derive(Debug, Clone, PartialEq, Eq)]
pub struct KeymapLoadError {
    pub table: String,
    pub key: String,
    pub message: String,
}

#[verifier::ext_equal]
pub struct KeymapLoadErrorView {
    pub table: Seq<char>,
    pub key: Seq<char>,
    pub message: Seq<char>,
}

impl View for KeymapLoadError {
    type V = KeymapLoadErrorView;

    open spec fn view(&self) -> KeymapLoadErrorView {
        KeymapLoadErrorView { table: self.table@, key: self.key@, message: self.message@ }
    }
}

impl KeymapLoadError {
    /// The message shown to a user.
    pub fn to_string(&self) -> (r: String)
        ensures
            r@ == "[keymap."@ + self.table@ + "] "@ + self.key@ + ": "@ + self.message@,
    {
        let mut s = "[keymap.".to_owned();
        s.append(self.table.as_str());
        s.append("] ");
        s.append(self.key.as_str());
        s.append(": ");
        s.append(self.message.as_str());
        s
    }
}

/// Outside type: a value of a TOML document.
#[verifier::external_type_specification]
#[verifier::external_body]
pub struct ExTomlValue(toml::Value);

/// Outside type: a table of a TOML document.
#[verifier::external_type_specification]
#[verifier::external_body]
#[verifier::reject_recursive_types(K)]
#[verifier::reject_recursive_types(V)]
pub struct ExTomlMap<K, V>(toml::map::Map<K, V>);

/// One value of a TOML table, as far as a key map reads it.
#[derive(Debug)]
pub enum TomlCell<'a> {
    Flag(bool),
    Text(String),
    Table(&'a toml::Table),
    Other,
}

#[verifier::ext_equal]
pub enum TomlCellView {
    Flag(bool),
    Text(Seq<char>),
    Table(toml::Table),
    Other,
}

impl<'a> View for TomlCell<'a> {
    type V = TomlCellView;

    open spec fn view(&self) -> TomlCellView {
        match *self {
            TomlCell::Flag(b) => TomlCellView::Flag(b),
            TomlCell::Text(s) => TomlCellView::Text(s@),
            TomlCell::Table(t) => TomlCellView::Table(*t),
            TomlCell::Other => TomlCellView::Other,
        }
    }
}

/// The keys of a TOML table with their values, in the order of the keys.
pub uninterp spec fn toml_rows(t: toml::Table) -> Seq<(Seq<char>, TomlCellView)>;

/// The views of the rows of a table.
pub open spec fn rows_view(rows: Seq<(String, TomlCell<'_>)>) -> Seq<(Seq<char>, TomlCellView)> {
    rows.map_values(|r: (String, TomlCell<'_>)| (r.0@, r.1@))
}

/// Calls `toml::Table::iter` and hands out each key with its value: booleans,
/// strings and tables as they are, values of any other kind as
/// `TomlCell::Other`. What the rows are is left to the name `toml_rows`.
#[verifier::external_body]
pub(crate) fn table_rows(t: &toml::Table) -> (r: Vec<(String, TomlCell<'_>)>)
    ensures
        rows_view(r@) == toml_rows(*t),
{
    t.iter().map(|(k, v)| (k.clone(), match v {
        toml::Value::Boolean(b) => TomlCell::Flag(*b),
        toml::Value::String(s) => TomlCell::Text(s.clone()),
        toml::Value::Table(t) => TomlCell::Table(t),
        _ => TomlCell::Other,
    })).collect()
}

/// What reading a text as a TOML document gives: the rows of its root table, or
/// the message of the first error.
pub uninterp spec fn toml_read(text: Seq<char>) -> Result<
    Seq<(Seq<char>, TomlCellView)>,
    Seq<char>,
>;

/// Calls `toml::from_str` for a table and, where that fails,
/// `toml::de::Error::message`. Which texts are documents, and what they and the
/// messages hold, is left to the name `toml_read`.
#[verifier::external_body]
pub(crate) fn read_document(text: &str) -> (r: Result<toml::Table, String>)
    ensures
        match r {
            Ok(t) => toml_read(text@) == Ok::<Seq<(Seq<char>, TomlCellView)>, Seq<char>>(
                toml_rows(t),
            ),
            Err(m) => toml_read(text@) == Err::<Seq<(Seq<char>, TomlCellView)>, Seq<char>>(m@),
        },
{
    toml::from_str::<toml::Table>(text).map_err(|e| e.message().to_string())
}

/// The value of the first row with the key `key`.
pub open spec fn cell_of(rows: Seq<(Seq<char>, TomlCellView)>, key: Seq<char>) -> Option<
    TomlCellView,
>
    decreases rows.len(),
{
    if rows.len() == 0 {
        None
    } else if rows[0].0 == key {
        Some(rows[0].1)
    } else {
        cell_of(rows.skip(1), key)
    }
}

pub open spec fn load_error(table: Seq<char>, key: Seq<char>, message: Seq<char>) -> Result<
    Seq<Seq<char>>,
    KeymapLoadErrorView,
> {
    Err(KeymapLoadErrorView { table, key, message })
}

/// The warning for a key that was bound before.
pub open spec fn override_warning(table: KeymapTable, key: Seq<char>) -> Seq<char> {
    "[keymap."@ + table_name(table) + "] "@ + key + " overrides previous binding"@
}

/// The bindings after one row of a table and the warning or the error that it
/// gives.
pub open spec fn row_applied(
    table: KeymapTable,
    b: Bindings,
    key: Seq<char>,
    cell: TomlCellView,
) -> (Bindings, Result<Seq<Seq<char>>, KeymapLoadErrorView>) {
    let name = table_name(table);
    if key == "clear"@ {
        (b, Ok(seq![]))
    } else {
        match cell {
            TomlCellView::Text(s) => match chord_of(key) {
                Err(e) => (b, load_error(name, key, "invalid key: "@ + key_error_text(e))),
                Ok(chord) => match action_of(s) {
                    Err(e) => (
                        b,
                        load_error(name, key, "invalid action: "@ + action_error_text(e)),
                    ),
                    Ok(a) => (
                        b.insert(chord, a),
                        Ok(
                            if b.dom().contains(chord) {
                                seq![override_warning(table, key)]
                            } else {
                                seq![]
                            },
                        ),
                    ),
                },
            },
            _ => (b, load_error(name, key, "value must be a string action"@)),
        }
    }
}

/// The bindings after the rows `..k` and the warnings so far. The first row
/// with an error ends the loading; the rows before it stay applied.
pub open spec fn rows_applied(
    table: KeymapTable,
    b: Bindings,
    rows: Seq<(Seq<char>, TomlCellView)>,
    k: nat,
) -> (Bindings, Result<Seq<Seq<char>>, KeymapLoadErrorView>)
    decreases k,
{
    if k == 0 {
        (b, Ok(seq![]))
    } else {
        let (b1, r1) = rows_applied(table, b, rows, (k - 1) as nat);
        match r1 {
            Err(e) => (b1, Err(e)),
            Ok(w1) => {
                let (b2, r2) = row_applied(table, b1, rows[k - 1].0, rows[k - 1].1);
                match r2 {
                    Err(e) => (b2, Err(e)),
                    Ok(w2) => (b2, Ok(w1 + w2)),
                }
            },
        }
    }
}

/// The bindings of a table after a user's table was merged on top of them:
/// `clear = true` drops what was there before any row is applied.
pub open spec fn table_applied(
    table: KeymapTable,
    b: Bindings,
    rows: Seq<(Seq<char>, TomlCellView)>,
) -> (Bindings, Result<Seq<Seq<char>>, KeymapLoadErrorView>) {
    match cell_of(rows, "clear"@) {
        None => rows_applied(table, b, rows, rows.len()),
        Some(TomlCellView::Flag(true)) => rows_applied(table, Map::empty(), rows, rows.len()),
        Some(TomlCellView::Flag(false)) => rows_applied(table, b, rows, rows.len()),
        Some(_) => (b, load_error(table_name(table), "clear"@, "must be a boolean"@)),
    }
}

/// Tells whether the outcome of loading is the one that was specified.
pub open spec fn loads_as(
    r: Result<Vec<String>, KeymapLoadError>,
    want: Result<Seq<Seq<char>>, KeymapLoadErrorView>,
) -> bool {
    match r {
        Ok(w) => want == Ok::<Seq<Seq<char>>, KeymapLoadErrorView>(text::texts(w@)),
        Err(e) => want == Err::<Seq<Seq<char>>, KeymapLoadErrorView>(e@),
    }
}

/// A table that begins with `clear = true` gives the same bindings whatever
/// was bound before.
pub proof fn clear_drops_what_was_bound(
    table: KeymapTable,
    a: Bindings,
    b: Bindings,
    rows: Seq<(Seq<char>, TomlCellView)>,
)
    requires
        cell_of(rows, "clear"@) == Some(TomlCellView::Flag(true)),
    ensures
        table_applied(table, a, rows) == table_applied(table, b, rows),
{
}

/// Loading a row without an error binds its chord to its action.
pub proof fn a_row_takes_effect(
    table: KeymapTable,
    b: Bindings,
    key: Seq<char>,
    s: Seq<char>,
)
    requires
        key != "clear"@,
        row_applied(table, b, key, TomlCellView::Text(s)).1 is Ok,
    ensures
        chord_of(key) is Ok,
        action_of(s) is Ok,
        row_applied(table, b, key, TomlCellView::Text(s)).0 == b.insert(
            chord_of(key)->Ok_0,
            action_of(s)->Ok_0,
        ),
{
}

fn find_cell<'a>(rows: &'a Vec<(String, TomlCell<'a>)>, key: &str) -> (r: Option<
    &'a TomlCell<'a>,
>)
    ensures
        match r {
            Some(c) => cell_of(rows_view(rows@), key@) == Some(c@),
            None => cell_of(rows_view(rows@), key@) is None,
        },
{
    let ghost all = rows_view(rows@);
    let mut i: usize = 0;
    assert(all.skip(0) =~= all);
    while i < rows.len()
        invariant
            i <= rows@.len(),
            all == rows_view(rows@),
            cell_of(all, key@) == cell_of(all.skip(i as int), key@),
        decreases rows@.len() - i,
    {
        assert(all[i as int] == (rows@[i as int].0@, rows@[i as int].1@));
        assert(all.skip(i as int)[0] == all[i as int]);
        if text::same_text(rows[i].0.as_str(), key) {
            return Some(&rows[i].1);
        }
        assert(all.skip(i as int).skip(1) =~= all.skip(i + 1));
        i += 1;
    }
    None
}

fn load_err(table: &str, key: &str, message: String) -> (r: KeymapLoadError)
    ensures
        r@ == (KeymapLoadErrorView { table: table@, key: key@, message: message@ }),
{
    KeymapLoadError { table: table.to_owned(), key: key.to_owned(), message }
}

fn apply_row(
    keymap: &mut Keymap,
    table: KeymapTable,
    key: &str,
    cell: &TomlCell<'_>,
    warnings: &mut Vec<String>,
) -> (r: Result<(), KeymapLoadError>)
    requires
        old(keymap).wf(),
    ensures
        final(keymap).wf(),
        ({
            let (b, want) = row_applied(table, old(keymap)@.table(table), key@, cell@);
            final(keymap)@ == old(keymap)@.with(table, b) && match r {
                Ok(_) => want is Ok && text::texts(final(warnings)@) == text::texts(old(warnings)@)
                    + want->Ok_0,
                Err(e) => want == Err::<Seq<Seq<char>>, KeymapLoadErrorView>(e@),
            }
        }),
{
    assert(text::texts(warnings@) + seq![] =~= text::texts(warnings@));
    if text::same_text(key, "clear") {
        return Ok(());
    }
    let action_str = match cell {
        TomlCell::Text(s) => s.as_str(),
        _ => {
            return Err(
                load_err(table.name(), key, "value must be a string action".to_owned()),
            );
        },
    };
    let chord = match parse_chord(key) {
        Ok(c) => c,
        Err(e) => {
            let mut msg = "invalid key: ".to_owned();
            msg.append(e.to_string().as_str());
            return Err(load_err(table.name(), key, msg));
        },
    };
    let action = match parse_action(action_str) {
        Ok(a) => a,
        Err(e) => {
            let mut msg = "invalid action: ".to_owned();
            msg.append(e.to_string().as_str());
            return Err(load_err(table.name(), key, msg));
        },
    };
    if keymap.lookup(table, &chord).is_some() {
        let mut w = "[keymap.".to_owned();
        w.append(table.name());
        w.append("] ");
        w.append(key);
        w.append(" overrides previous binding");
        proof {
            text::lemma_texts_push(warnings@, w);
            assert(text::texts(warnings@).push(w@) =~= text::texts(warnings@) + seq![w@]);
        }
        warnings.push(w);
    }
    keymap.bind(table, chord, action);
    Ok(())
}

proof fn lemma_load_error_stays(
    table: KeymapTable,
    b: Bindings,
    rows: Seq<(Seq<char>, TomlCellView)>,
    i: nat,
    k: nat,
)
    requires
        i <= k,
        rows_applied(table, b, rows, i).1 is Err,
    ensures
        rows_applied(table, b, rows, k) == rows_applied(table, b, rows, i),
    decreases k - i,
{
    if i < k {
        lemma_load_error_stays(table, b, rows, i, (k - 1) as nat);
    }
}

/// Merges the rows of a user's table on top of a table of the key map. Returns
/// the warnings, or the first error.
pub fn apply_rows(
    keymap: &mut Keymap,
    table: KeymapTable,
    rows: &Vec<(String, TomlCell<'_>)>,
) -> (r: Result<Vec<String>, KeymapLoadError>)
    requires
        old(keymap).wf(),
    ensures
        final(keymap).wf(),
        ({
            let (b, want) = table_applied(table, old(keymap)@.table(table), rows_view(rows@));
            final(keymap)@ == old(keymap)@.with(table, b) && loads_as(r, want)
        }),
{
    let ghost all = rows_view(rows@);
    let ghost before = keymap@;
    match find_cell(rows, "clear") {
        Some(TomlCell::Flag(true)) => {
            keymap.clear(table);
        },
        Some(TomlCell::Flag(false)) => {},
        Some(_) => {
            return Err(load_err(table.name(), "clear", "must be a boolean".to_owned()));
        },
        None => {},
    }
    let ghost start = keymap@.table(table);
    let mut warnings: Vec<String> = Vec::new();
    assert(text::texts(warnings@) =~= seq![]);
    let mut i: usize = 0;
    while i < rows.len()
        invariant
            i <= rows@.len(),
            all == rows_view(rows@),
            keymap.wf(),
            before == old(keymap)@,
            keymap@ == before.with(table, rows_applied(table, start, all, i as nat).0),
            rows_applied(table, start, all, i as nat).1 == Ok::<
                Seq<Seq<char>>,
                KeymapLoadErrorView,
            >(text::texts(warnings@)),
            table_applied(table, before.table(table), all) == rows_applied(
                table,
                start,
                all,
                all.len(),
            ),
        decreases rows@.len() - i,
    {
        assert(all[i as int] == (rows@[i as int].0@, rows@[i as int].1@));
        match apply_row(keymap, table, rows[i].0.as_str(), &rows[i].1, &mut warnings) {
            Ok(_) => {},
            Err(e) => {
                proof {
                    lemma_load_error_stays(table, start, all, (i + 1) as nat, all.len());
                }
                return Err(e);
            },
        }
        i += 1;
    }
    Ok(warnings)
}

/// Merges a TOML table, such as the value of `[keymap.prefix]`, on top of a
/// table of the key map.
pub fn apply_table(keymap: &mut Keymap, table: KeymapTable, raw: &toml::Table) -> (r: Result<
    Vec<String>,
    KeymapLoadError,
>)
    requires
        old(keymap).wf(),
    ensures
        final(keymap).wf(),
        ({
            let (b, want) = table_applied(table, old(keymap)@.table(table), toml_rows(*raw));
            final(keymap)@ == old(keymap)@.with(table, b) && loads_as(r, want)
        }),
{
    let rows = table_rows(raw);
    apply_rows(keymap, table, &rows)
}

/// The key map after the sub-tables `..k` of a `[keymap]` section.
pub open spec fn section_applied(
    m: KeymapView,
    subs: Seq<(Seq<char>, TomlCellView)>,
    k: nat,
) -> (KeymapView, Result<Seq<Seq<char>>, KeymapLoadErrorView>)
    decreases k,
{
    if k == 0 {
        (m, Ok(seq![]))
    } else {
        let (m1, r1) = section_applied(m, subs, (k - 1) as nat);
        let name = subs[k - 1].0;
        match r1 {
            Err(e) => (m1, Err(e)),
            Ok(w1) => match table_of(name) {
                None => (
                    m1,
                    load_error(
                        name,
                        seq![],
                        "unknown keymap table (valid: prefix, normal, copy_mode)"@,
                    ),
                ),
                Some(table) => match subs[k - 1].1 {
                    TomlCellView::Table(t) => {
                        let (b, r2) = table_applied(table, m1.table(table), toml_rows(t));
                        match r2 {
                            Err(e) => (m1.with(table, b), Err(e)),
                            Ok(w2) => (m1.with(table, b), Ok(w1 + w2)),
                        }
                    },
                    _ => (m1, load_error(name, seq![], "must be a table"@)),
                },
            },
        }
    }
}

proof fn lemma_section_error_stays(
    m: KeymapView,
    subs: Seq<(Seq<char>, TomlCellView)>,
    i: nat,
    k: nat,
)
    requires
        i <= k,
        section_applied(m, subs, i).1 is Err,
    ensures
        section_applied(m, subs, k) == section_applied(m, subs, i),
    decreases k - i,
{
    if i < k {
        lemma_section_error_stays(m, subs, i, (k - 1) as nat);
    }
}

/// Merges the sub-tables of a `[keymap]` section, given by their rows, into
/// the key map.
pub fn apply_section_rows(
    keymap: &mut Keymap,
    subs: &Vec<(String, TomlCell<'_>)>,
) -> (r: Result<Vec<String>, KeymapLoadError>)
    requires
        old(keymap).wf(),
    ensures
        final(keymap).wf(),
        ({
            let (m, want) = section_applied(old(keymap)@, rows_view(subs@), subs@.len());
            final(keymap)@ == m && loads_as(r, want)
        }),
{
    let ghost all = rows_view(subs@);
    let ghost before = keymap@;
    let mut warnings: Vec<String> = Vec::new();
    assert(text::texts(warnings@) =~= seq![]);
    let mut i: usize = 0;
    while i < subs.len()
        invariant
            i <= subs@.len(),
            all == rows_view(subs@),
            before == old(keymap)@,
            keymap.wf(),
            keymap@ == section_applied(before, all, i as nat).0,
            section_applied(before, all, i as nat).1 == Ok::<
                Seq<Seq<char>>,
                KeymapLoadErrorView,
            >(text::texts(warnings@)),
        decreases subs@.len() - i,
    {
        assert(all[i as int] == (subs@[i as int].0@, subs@[i as int].1@));
        let name = subs[i].0.as_str();
        proof {
            reveal_strlit("");
            assert(""@ =~= seq![]);
            if section_applied(before, all, (i + 1) as nat).1 is Err {
                lemma_section_error_stays(before, all, (i + 1) as nat, all.len());
            }
        }
        let table = match KeymapTable::from_str(name) {
            Some(t) => t,
            None => {
                return Err(
                    load_err(
                        name,
                        "",
                        "unknown keymap table (valid: prefix, normal, copy_mode)".to_owned(),
                    ),
                );
            },
        };
        match &subs[i].1 {
            TomlCell::Table(t) => {
                match apply_table(keymap, table, t) {
                    Ok(mut more) => {
                        let ghost w1 = warnings@;
                        let ghost w2 = more@;
                        warnings.append(&mut more);
                        assert(text::texts(w1 + w2) =~= text::texts(w1) + text::texts(w2));
                    },
                    Err(e) => {
                        return Err(e);
                    },
                }
            },
            _ => {
                return Err(load_err(name, "", "must be a table".to_owned()));
            },
        }
        i += 1;
    }
    Ok(warnings)
}

/// Merges a `[keymap]` section into the key map. Each sub-table bears the name
/// of a table; a sub-table with another name is an error.
pub fn apply_keymap_section(keymap: &mut Keymap, raw: &toml::Table) -> (r: Result<
    Vec<String>,
    KeymapLoadError,
>)
    requires
        old(keymap).wf(),
    ensures
        final(keymap).wf(),
        ({
            let rows = toml_rows(*raw);
            let (m, want) = section_applied(old(keymap)@, rows, rows.len());
            final(keymap)@ == m && loads_as(r, want)
        }),
{
    let subs = table_rows(raw);
    apply_section_rows(keymap, &subs)
}

/// The key map of a document with `[keymap.*]` tables, if it has any and they
/// are sound.
pub open spec fn defaults_of(rows: Seq<(Seq<char>, TomlCellView)>) -> Option<KeymapView> {
    match cell_of(rows, "keymap"@) {
        Some(TomlCellView::Table(t)) => {
            let subs = toml_rows(t);
            let (m, r) = section_applied(KeymapView::unbound(), subs, subs.len());
            if r is Ok {
                Some(m)
            } else {
                None
            }
        },
        _ => None,
    }
}

/// Builds a key map from the rows of a document with `[keymap.*]` tables.
pub fn document_keymap(document: &toml::Table) -> (r: Option<Keymap>)
    ensures
        match r {
            Some(k) => k.wf() && defaults_of(toml_rows(*document)) == Some(k@),
            None => defaults_of(toml_rows(*document)) is None,
        },
{
    let rows = table_rows(document);
    match find_cell(&rows, "keymap") {
        Some(TomlCell::Table(t)) => {
            let mut keymap = Keymap::new();
            match apply_keymap_section(&mut keymap, t) {
                Ok(_) => Some(keymap),
                Err(_) => None,
            }
        },
        _ => None,
    }
}

/// Builds the default key map from the text of a document with `[keymap.*]`
/// tables. There is none where the text is no such document.
pub fn load_defaults(text: &str) -> (r: Option<Keymap>)
    ensures
        match toml_read(text@) {
            Ok(rows) => match r {
                Some(k) => k.wf() && defaults_of(rows) == Some(k@),
                None => defaults_of(rows) is None,
            },
            Err(_) => r is None,
        },
{
    match read_document(text) {
        Ok(document) => document_keymap(&document),
        Err(_) => None,
    }
}

/// The directions are named by their words and by their first letters.
pub proof fn directions_are_named()
    ensures
        dir_of("up"@) == Some(Dir::Up),
        dir_of("U"@) == Some(Dir::Up),
        dir_of("u"@) == Some(Dir::Up),
        dir_of("down"@) == Some(Dir::Down),
        dir_of("D"@) == Some(Dir::Down),
        dir_of("d"@) == Some(Dir::Down),
        dir_of("left"@) == Some(Dir::Left),
        dir_of("L"@) == Some(Dir::Left),
        dir_of("l"@) == Some(Dir::Left),
        dir_of("right"@) == Some(Dir::Right),
        dir_of("R"@) == Some(Dir::Right),
        dir_of("r"@) == Some(Dir::Right),
{
    reveal_strlit("up");
    reveal_strlit("U");
    reveal_strlit("u");
    reveal_strlit("down");
    reveal_strlit("D");
    reveal_strlit("d");
    reveal_strlit("left");
    reveal_strlit("L");
    reveal_strlit("l");
    reveal_strlit("right");
    reveal_strlit("R");
    reveal_strlit("r");
    assert("up"@.len() == 2);
    assert("up"@[0] == 'u');
    assert("up"@[1] == 'p');
    assert("U"@.len() == 1);
    assert("U"@[0] == 'U');
    assert("u"@.len() == 1);
    assert("u"@[0] == 'u');
    assert("down"@.len() == 4);
    assert("down"@[0] == 'd');
    assert("down"@[1] == 'o');
    assert("down"@[2] == 'w');
    assert("down"@[3] == 'n');
    assert("D"@.len() == 1);
    assert("D"@[0] == 'D');
    assert("d"@.len() == 1);
    assert("d"@[0] == 'd');
    assert("left"@.len() == 4);
    assert("left"@[0] == 'l');
    assert("left"@[1] == 'e');
    assert("left"@[2] == 'f');
    assert("left"@[3] == 't');
    assert("L"@.len() == 1);
    assert("L"@[0] == 'L');
    assert("l"@.len() == 1);
    assert("l"@[0] == 'l');
    assert("right"@.len() == 5);
    assert("right"@[0] == 'r');
    assert("right"@[1] == 'i');
    assert("right"@[2] == 'g');
    assert("right"@[3] == 'h');
    assert("right"@[4] == 't');
    assert("R"@.len() == 1);
    assert("R"@[0] == 'R');
    assert("r"@.len() == 1);
    assert("r"@[0] == 'r');
}

/// The keys are named as they are labelled, also in lower case and by their usual
/// short names.
#[verifier::rlimit(40)]
pub proof fn keys_are_named()
    ensures
        named_code("Enter"@) == Some(KeyCode::Enter),
        named_code("enter"@) == Some(KeyCode::Enter),
        named_code("Return"@) == Some(KeyCode::Enter),
        named_code("return"@) == Some(KeyCode::Enter),
        named_code("Esc"@) == Some(KeyCode::Esc),
        named_code("esc"@) == Some(KeyCode::Esc),
        named_code("Escape"@) == Some(KeyCode::Esc),
        named_code("escape"@) == Some(KeyCode::Esc),
        named_code("Tab"@) == Some(KeyCode::Tab),
        named_code("tab"@) == Some(KeyCode::Tab),
        named_code("BackTab"@) == Some(KeyCode::BackTab),
        named_code("backtab"@) == Some(KeyCode::BackTab),
        named_code("Backspace"@) == Some(KeyCode::Backspace),
        named_code("backspace"@) == Some(KeyCode::Backspace),
        named_code("BS"@) == Some(KeyCode::Backspace),
        named_code("Delete"@) == Some(KeyCode::Delete),
        named_code("delete"@) == Some(KeyCode::Delete),
        named_code("Del"@) == Some(KeyCode::Delete),
        named_code("Insert"@) == Some(KeyCode::Insert),
        named_code("insert"@) == Some(KeyCode::Insert),
        named_code("Ins"@) == Some(KeyCode::Insert),
        named_code("Home"@) == Some(KeyCode::Home),
        named_code("home"@) == Some(KeyCode::Home),
        named_code("End"@) == Some(KeyCode::End),
        named_code("end"@) == Some(KeyCode::End),
        named_code("PageUp"@) == Some(KeyCode::PageUp),
        named_code("pageup"@) == Some(KeyCode::PageUp),
        named_code("PgUp"@) == Some(KeyCode::PageUp),
        named_code("PageDown"@) == Some(KeyCode::PageDown),
        named_code("pagedown"@) == Some(KeyCode::PageDown),
        named_code("PgDn"@) == Some(KeyCode::PageDown),
        named_code("PgDown"@) == Some(KeyCode::PageDown),
        named_code("Up"@) == Some(KeyCode::Up),
        named_code("up"@) == Some(KeyCode::Up),
        named_code("Down"@) == Some(KeyCode::Down),
        named_code("down"@) == Some(KeyCode::Down),
        named_code("Left"@) == Some(KeyCode::Left),
        named_code("left"@) == Some(KeyCode::Left),
        named_code("Right"@) == Some(KeyCode::Right),
        named_code("right"@) == Some(KeyCode::Right),
        named_code("Space"@) == Some(KeyCode::Char(' ')),
        named_code("space"@) == Some(KeyCode::Char(' ')),
{
    reveal_strlit("Enter");
    reveal_strlit("enter");
    reveal_strlit("Return");
    reveal_strlit("return");
    reveal_strlit("Esc");
    reveal_strlit("esc");
    reveal_strlit("Escape");
    reveal_strlit("escape");
    reveal_strlit("Tab");
    reveal_strlit("tab");
    reveal_strlit("BackTab");
    reveal_strlit("backtab");
    reveal_strlit("Backspace");
    reveal_strlit("backspace");
    reveal_strlit("BS");
    reveal_strlit("Delete");
    reveal_strlit("delete");
    reveal_strlit("Del");
    reveal_strlit("Insert");
    reveal_strlit("insert");
    reveal_strlit("Ins");
    reveal_strlit("Home");
    reveal_strlit("home");
    reveal_strlit("End");
    reveal_strlit("end");
    reveal_strlit("PageUp");
    reveal_strlit("pageup");
    reveal_strlit("PgUp");
    reveal_strlit("PageDown");
    reveal_strlit("pagedown");
    reveal_strlit("PgDn");
    reveal_strlit("PgDown");
    reveal_strlit("Up");
    reveal_strlit("up");
    reveal_strlit("Down");
    reveal_strlit("down");
    reveal_strlit("Left");
    reveal_strlit("left");
    reveal_strlit("Right");
    reveal_strlit("right");
    reveal_strlit("Space");
    reveal_strlit("space");
    assert("Enter"@.len() == 5);
    assert("Enter"@[0] == 'E');
    assert("Enter"@[1] == 'n');
    assert("Enter"@[2] == 't');
    assert("Enter"@[3] == 'e');
    assert("Enter"@[4] == 'r');
    assert("enter"@.len() == 5);
    assert("enter"@[0] == 'e');
    assert("enter"@[1] == 'n');
    assert("enter"@[2] == 't');
    assert("enter"@[3] == 'e');
    assert("enter"@[4] == 'r');
    assert("Return"@.len() == 6);
    assert("Return"@[0] == 'R');
    assert("Return"@[1] == 'e');
    assert("Return"@[2] == 't');
    assert("Return"@[3] == 'u');
    assert("Return"@[4] == 'r');
    assert("Return"@[5] == 'n');
    assert("return"@.len() == 6);
    assert("return"@[0] == 'r');
    assert("return"@[1] == 'e');
    assert("return"@[2] == 't');
    assert("return"@[3] == 'u');
    assert("return"@[4] == 'r');
    assert("return"@[5] == 'n');
    assert("Esc"@.len() == 3);
    assert("Esc"@[0] == 'E');
    assert("Esc"@[1] == 's');
    assert("Esc"@[2] == 'c');
    assert("esc"@.len() == 3);
    assert("esc"@[0] == 'e');
    assert("esc"@[1] == 's');
    assert("esc"@[2] == 'c');
    assert("Escape"@.len() == 6);
    assert("Escape"@[0] == 'E');
    assert("Escape"@[1] == 's');
    assert("Escape"@[2] == 'c');
    assert("Escape"@[3] == 'a');
    assert("Escape"@[4] == 'p');
    assert("Escape"@[5] == 'e');
    assert("escape"@.len() == 6);
    assert("escape"@[0] == 'e');
    assert("escape"@[1] == 's');
    assert("escape"@[2] == 'c');
    assert("escape"@[3] == 'a');
    assert("escape"@[4] == 'p');
    assert("escape"@[5] == 'e');
    assert("Tab"@.len() == 3);
    assert("Tab"@[0] == 'T');
    assert("Tab"@[1] == 'a');
    assert("Tab"@[2] == 'b');
    assert("tab"@.len() == 3);
    assert("tab"@[0] == 't');
    assert("tab"@[1] == 'a');
    assert("tab"@[2] == 'b');
    assert("BackTab"@.len() == 7);
    assert("BackTab"@[0] == 'B');
    assert("BackTab"@[1] == 'a');
    assert("BackTab"@[2] == 'c');
    assert("BackTab"@[3] == 'k');
    assert("BackTab"@[4] == 'T');
    assert("BackTab"@[5] == 'a');
    assert("BackTab"@[6] == 'b');
    assert("backtab"@.len() == 7);
    assert("backtab"@[0] == 'b');
    assert("backtab"@[1] == 'a');
    assert("backtab"@[2] == 'c');
    assert("backtab"@[3] == 'k');
    assert("backtab"@[4] == 't');
    assert("backtab"@[5] == 'a');
    assert("backtab"@[6] == 'b');
    assert("Backspace"@.len() == 9);
    assert("Backspace"@[0] == 'B');
    assert("Backspace"@[1] == 'a');
    assert("Backspace"@[2] == 'c');
    assert("Backspace"@[3] == 'k');
    assert("Backspace"@[4] == 's');
    assert("Backspace"@[5] == 'p');
    assert("Backspace"@[6] == 'a');
    assert("Backspace"@[7] == 'c');
    assert("Backspace"@[8] == 'e');
    assert("backspace"@.len() == 9);
    assert("backspace"@[0] == 'b');
    assert("backspace"@[1] == 'a');
    assert("backspace"@[2] == 'c');
    assert("backspace"@[3] == 'k');
    assert("backspace"@[4] == 's');
    assert("backspace"@[5] == 'p');
    assert("backspace"@[6] == 'a');
    assert("backspace"@[7] == 'c');
    assert("backspace"@[8] == 'e');
    assert("BS"@.len() == 2);
    assert("BS"@[0] == 'B');
    assert("BS"@[1] == 'S');
    assert("Delete"@.len() == 6);
    assert("Delete"@[0] == 'D');
    assert("Delete"@[1] == 'e');
    assert("Delete"@[2] == 'l');
    assert("Delete"@[3] == 'e');
    assert("Delete"@[4] == 't');
    assert("Delete"@[5] == 'e');
    assert("delete"@.len() == 6);
    assert("delete"@[0] == 'd');
    assert("delete"@[1] == 'e');
    assert("delete"@[2] == 'l');
    assert("delete"@[3] == 'e');
    assert("delete"@[4] == 't');
    assert("delete"@[5] == 'e');
    assert("Del"@.len() == 3);
    assert("Del"@[0] == 'D');
    assert("Del"@[1] == 'e');
    assert("Del"@[2] == 'l');
    assert("Insert"@.len() == 6);
    assert("Insert"@[0] == 'I');
    assert("Insert"@[1] == 'n');
    assert("Insert"@[2] == 's');
    assert("Insert"@[3] == 'e');
    assert("Insert"@[4] == 'r');
    assert("Insert"@[5] == 't');
    assert("insert"@.len() == 6);
    assert("insert"@[0] == 'i');
    assert("insert"@[1] == 'n');
    assert("insert"@[2] == 's');
    assert("insert"@[3] == 'e');
    assert("insert"@[4] == 'r');
    assert("insert"@[5] == 't');
    assert("Ins"@.len() == 3);
    assert("Ins"@[0] == 'I');
    assert("Ins"@[1] == 'n');
    assert("Ins"@[2] == 's');
    assert("Home"@.len() == 4);
    assert("Home"@[0] == 'H');
    assert("Home"@[1] == 'o');
    assert("Home"@[2] == 'm');
    assert("Home"@[3] == 'e');
    assert("home"@.len() == 4);
    assert("home"@[0] == 'h');
    assert("home"@[1] == 'o');
    assert("home"@[2] == 'm');
    assert("home"@[3] == 'e');
    assert("End"@.len() == 3);
    assert("End"@[0] == 'E');
    assert("End"@[1] == 'n');
    assert("End"@[2] == 'd');
    assert("end"@.len() == 3);
    assert("end"@[0] == 'e');
    assert("end"@[1] == 'n');
    assert("end"@[2] == 'd');
    assert("PageUp"@.len() == 6);
    assert("PageUp"@[0] == 'P');
    assert("PageUp"@[1] == 'a');
    assert("PageUp"@[2] == 'g');
    assert("PageUp"@[3] == 'e');
    assert("PageUp"@[4] == 'U');
    assert("PageUp"@[5] == 'p');
    assert("pageup"@.len() == 6);
    assert("pageup"@[0] == 'p');
    assert("pageup"@[1] == 'a');
    assert("pageup"@[2] == 'g');
    assert("pageup"@[3] == 'e');
    assert("pageup"@[4] == 'u');
    assert("pageup"@[5] == 'p');
    assert("PgUp"@.len() == 4);
    assert("PgUp"@[0] == 'P');
    assert("PgUp"@[1] == 'g');
    assert("PgUp"@[2] == 'U');
    assert("PgUp"@[3] == 'p');
    assert("PageDown"@.len() == 8);
    assert("PageDown"@[0] == 'P');
    assert("PageDown"@[1] == 'a');
    assert("PageDown"@[2] == 'g');
    assert("PageDown"@[3] == 'e');
    assert("PageDown"@[4] == 'D');
    assert("PageDown"@[5] == 'o');
    assert("PageDown"@[6] == 'w');
    assert("PageDown"@[7] == 'n');
    assert("pagedown"@.len() == 8);
    assert("pagedown"@[0] == 'p');
    assert("pagedown"@[1] == 'a');
    assert("pagedown"@[2] == 'g');
    assert("pagedown"@[3] == 'e');
    assert("pagedown"@[4] == 'd');
    assert("pagedown"@[5] == 'o');
    assert("pagedown"@[6] == 'w');
    assert("pagedown"@[7] == 'n');
    assert("PgDn"@.len() == 4);
    assert("PgDn"@[0] == 'P');
    assert("PgDn"@[1] == 'g');
    assert("PgDn"@[2] == 'D');
    assert("PgDn"@[3] == 'n');
    assert("PgDown"@.len() == 6);
    assert("PgDown"@[0] == 'P');
    assert("PgDown"@[1] == 'g');
    assert("PgDown"@[2] == 'D');
    assert("PgDown"@[3] == 'o');
    assert("PgDown"@[4] == 'w');
    assert("PgDown"@[5] == 'n');
    assert("Up"@.len() == 2);
    assert("Up"@[0] == 'U');
    assert("Up"@[1] == 'p');
    assert("up"@.len() == 2);
    assert("up"@[0] == 'u');
    assert("up"@[1] == 'p');
    assert("Down"@.len() == 4);
    assert("Down"@[0] == 'D');
    assert("Down"@[1] == 'o');
    assert("Down"@[2] == 'w');
    assert("Down"@[3] == 'n');
    assert("down"@.len() == 4);
    assert("down"@[0] == 'd');
    assert("down"@[1] == 'o');
    assert("down"@[2] == 'w');
    assert("down"@[3] == 'n');
    assert("Left"@.len() == 4);
    assert("Left"@[0] == 'L');
    assert("Left"@[1] == 'e');
    assert("Left"@[2] == 'f');
    assert("Left"@[3] == 't');
    assert("left"@.len() == 4);
    assert("left"@[0] == 'l');
    assert("left"@[1] == 'e');
    assert("left"@[2] == 'f');
    assert("left"@[3] == 't');
    assert("Right"@.len() == 5);
    assert("Right"@[0] == 'R');
    assert("Right"@[1] == 'i');
    assert("Right"@[2] == 'g');
    assert("Right"@[3] == 'h');
    assert("Right"@[4] == 't');
    assert("right"@.len() == 5);
    assert("right"@[0] == 'r');
    assert("right"@[1] == 'i');
    assert("right"@[2] == 'g');
    assert("right"@[3] == 'h');
    assert("right"@[4] == 't');
    assert("Space"@.len() == 5);
    assert("Space"@[0] == 'S');
    assert("Space"@[1] == 'p');
    assert("Space"@[2] == 'a');
    assert("Space"@[3] == 'c');
    assert("Space"@[4] == 'e');
    assert("space"@.len() == 5);
    assert("space"@[0] == 's');
    assert("space"@[1] == 'p');
    assert("space"@[2] == 'a');
    assert("space"@[3] == 'c');
    assert("space"@[4] == 'e');
}

/// `C`, `M` and `S` add Ctrl, Alt and Shift, in upper or lower case, and nothing
/// else.
pub proof fn modifiers_are_lettered(m: KeyModifiers)
    ensures
        modified(m, 'C') == Some(KeyModifiers { control: true, ..m }),
        modified(m, 'M') == Some(KeyModifiers { alt: true, ..m }),
        modified(m, 'S') == Some(KeyModifiers { shift: true, ..m }),
        modified(m, 'c') == modified(m, 'C'),
        modified(m, 'm') == modified(m, 'M'),
        modified(m, 's') == modified(m, 'S'),
        forall|c: char|
            c != 'C' && c != 'M' && c != 'S' && c != 'c' && c != 'm' && c != 's' ==> (
            #[trigger] modified(m, c)) is None,
{
}

/// The actions on panes and tabs are named after what they do, and those with a
/// direction take it as their argument.
#[verifier::rlimit(60)]
pub proof fn actions_are_named(rest: Seq<char>)
    ensures
        named_action("split-window-h"@, rest) == plain(Action::SplitWindowH),
        named_action("split-window-v"@, rest) == plain(Action::SplitWindowV),
        named_action("kill-pane"@, rest) == plain(Action::KillPane),
        named_action("kill-window"@, rest) == plain(Action::KillWindow),
        named_action("next-window"@, rest) == plain(Action::NextWindow),
        named_action("previous-window"@, rest) == plain(Action::PreviousWindow),
        named_action("select-pane"@, "up"@) == plain(Action::SelectPane { dir: Dir::Up }),
        named_action("select-pane"@, "down"@) == plain(Action::SelectPane { dir: Dir::Down }),
        named_action("select-pane"@, "left"@) == plain(Action::SelectPane { dir: Dir::Left }),
        named_action("select-pane"@, "right"@) == plain(Action::SelectPane { dir: Dir::Right }),
        named_action("swap-pane"@, "up"@) == plain(Action::SwapPane { up: true }),
        named_action("swap-pane"@, "down"@) == plain(Action::SwapPane { up: false }),
        named_action("resize-pane"@, rest) == resize_pane_of(rest),
{
    directions_are_named();
    reveal_strlit("split-window-h");
    reveal_strlit("split-window-v");
    reveal_strlit("kill-pane");
    reveal_strlit("kill-window");
    reveal_strlit("new-window");
    reveal_strlit("rename-window");
    reveal_strlit("select-window");
    reveal_strlit("next-window");
    reveal_strlit("previous-window");
    reveal_strlit("select-pane");
    reveal_strlit("resize-pane");
    reveal_strlit("swap-pane");
    reveal_strlit("up");
    reveal_strlit("down");
    reveal_strlit("left");
    reveal_strlit("right");
    reveal_strlit("U");
    reveal_strlit("u");
    reveal_strlit("D");
    reveal_strlit("d");
    assert("split-window-h"@.len() == 14);
    assert("split-window-h"@[0] == 's');
    assert("split-window-h"@[1] == 'p');
    assert("split-window-h"@[2] == 'l');
    assert("split-window-h"@[3] == 'i');
    assert("split-window-h"@[4] == 't');
    assert("split-window-h"@[5] == '-');
    assert("split-window-h"@[6] == 'w');
    assert("split-window-h"@[7] == 'i');
    assert("split-window-h"@[8] == 'n');
    assert("split-window-h"@[9] == 'd');
    assert("split-window-h"@[10] == 'o');
    assert("split-window-h"@[11] == 'w');
    assert("split-window-h"@[12] == '-');
    assert("split-window-h"@[13] == 'h');
    assert("split-window-v"@.len() == 14);
    assert("split-window-v"@[0] == 's');
    assert("split-window-v"@[1] == 'p');
    assert("split-window-v"@[2] == 'l');
    assert("split-window-v"@[3] == 'i');
    assert("split-window-v"@[4] == 't');
    assert("split-window-v"@[5] == '-');
    assert("split-window-v"@[6] == 'w');
    assert("split-window-v"@[7] == 'i');
    assert("split-window-v"@[8] == 'n');
    assert("split-window-v"@[9] == 'd');
    assert("split-window-v"@[10] == 'o');
    assert("split-window-v"@[11] == 'w');
    assert("split-window-v"@[12] == '-');
    assert("split-window-v"@[13] == 'v');
    assert("kill-pane"@.len() == 9);
    assert("kill-pane"@[0] == 'k');
    assert("kill-pane"@[1] == 'i');
    assert("kill-pane"@[2] == 'l');
    assert("kill-pane"@[3] == 'l');
    assert("kill-pane"@[4] == '-');
    assert("kill-pane"@[5] == 'p');
    assert("kill-pane"@[6] == 'a');
    assert("kill-pane"@[7] == 'n');
    assert("kill-pane"@[8] == 'e');
    assert("kill-window"@.len() == 11);
    assert("kill-window"@[0] == 'k');
    assert("kill-window"@[1] == 'i');
    assert("kill-window"@[2] == 'l');
    assert("kill-window"@[3] == 'l');
    assert("kill-window"@[4] == '-');
    assert("kill-window"@[5] == 'w');
    assert("kill-window"@[6] == 'i');
    assert("kill-window"@[7] == 'n');
    assert("kill-window"@[8] == 'd');
    assert("kill-window"@[9] == 'o');
    assert("kill-window"@[10] == 'w');
    assert("new-window"@.len() == 10);
    assert("new-window"@[0] == 'n');
    assert("new-window"@[1] == 'e');
    assert("new-window"@[2] == 'w');
    assert("new-window"@[3] == '-');
    assert("new-window"@[4] == 'w');
    assert("new-window"@[5] == 'i');
    assert("new-window"@[6] == 'n');
    assert("new-window"@[7] == 'd');
    assert("new-window"@[8] == 'o');
    assert("new-window"@[9] == 'w');
    assert("rename-window"@.len() == 13);
    assert("rename-window"@[0] == 'r');
    assert("rename-window"@[1] == 'e');
    assert("rename-window"@[2] == 'n');
    assert("rename-window"@[3] == 'a');
    assert("rename-window"@[4] == 'm');
    assert("rename-window"@[5] == 'e');
    assert("rename-window"@[6] == '-');
    assert("rename-window"@[7] == 'w');
    assert("rename-window"@[8] == 'i');
    assert("rename-window"@[9] == 'n');
    assert("rename-window"@[10] == 'd');
    assert("rename-window"@[11] == 'o');
    assert("rename-window"@[12] == 'w');
    assert("select-window"@.len() == 13);
    assert("select-window"@[0] == 's');
    assert("select-window"@[1] == 'e');
    assert("select-window"@[2] == 'l');
    assert("select-window"@[3] == 'e');
    assert("select-window"@[4] == 'c');
    assert("select-window"@[5] == 't');
    assert("select-window"@[6] == '-');
    assert("select-window"@[7] == 'w');
    assert("select-window"@[8] == 'i');
    assert("select-window"@[9] == 'n');
    assert("select-window"@[10] == 'd');
    assert("select-window"@[11] == 'o');
    assert("select-window"@[12] == 'w');
    assert("next-window"@.len() == 11);
    assert("next-window"@[0] == 'n');
    assert("next-window"@[1] == 'e');
    assert("next-window"@[2] == 'x');
    assert("next-window"@[3] == 't');
    assert("next-window"@[4] == '-');
    assert("next-window"@[5] == 'w');
    assert("next-window"@[6] == 'i');
    assert("next-window"@[7] == 'n');
    assert("next-window"@[8] == 'd');
    assert("next-window"@[9] == 'o');
    assert("next-window"@[10] == 'w');
    assert("previous-window"@.len() == 15);
    assert("previous-window"@[0] == 'p');
    assert("previous-window"@[1] == 'r');
    assert("previous-window"@[2] == 'e');
    assert("previous-window"@[3] == 'v');
    assert("previous-window"@[4] == 'i');
    assert("previous-window"@[5] == 'o');
    assert("previous-window"@[6] == 'u');
    assert("previous-window"@[7] == 's');
    assert("previous-window"@[8] == '-');
    assert("previous-window"@[9] == 'w');
    assert("previous-window"@[10] == 'i');
    assert("previous-window"@[11] == 'n');
    assert("previous-window"@[12] == 'd');
    assert("previous-window"@[13] == 'o');
    assert("previous-window"@[14] == 'w');
    assert("select-pane"@.len() == 11);
    assert("select-pane"@[0] == 's');
    assert("select-pane"@[1] == 'e');
    assert("select-pane"@[2] == 'l');
    assert("select-pane"@[3] == 'e');
    assert("select-pane"@[4] == 'c');
    assert("select-pane"@[5] == 't');
    assert("select-pane"@[6] == '-');
    assert("select-pane"@[7] == 'p');
    assert("select-pane"@[8] == 'a');
    assert("select-pane"@[9] == 'n');
    assert("select-pane"@[10] == 'e');
    assert("resize-pane"@.len() == 11);
    assert("resize-pane"@[0] == 'r');
    assert("resize-pane"@[1] == 'e');
    assert("resize-pane"@[2] == 's');
    assert("resize-pane"@[3] == 'i');
    assert("resize-pane"@[4] == 'z');
    assert("resize-pane"@[5] == 'e');
    assert("resize-pane"@[6] == '-');
    assert("resize-pane"@[7] == 'p');
    assert("resize-pane"@[8] == 'a');
    assert("resize-pane"@[9] == 'n');
    assert("resize-pane"@[10] == 'e');
    assert("swap-pane"@.len() == 9);
    assert("swap-pane"@[0] == 's');
    assert("swap-pane"@[1] == 'w');
    assert("swap-pane"@[2] == 'a');
    assert("swap-pane"@[3] == 'p');
    assert("swap-pane"@[4] == '-');
    assert("swap-pane"@[5] == 'p');
    assert("swap-pane"@[6] == 'a');
    assert("swap-pane"@[7] == 'n');
    assert("swap-pane"@[8] == 'e');
    assert("up"@.len() == 2);
    assert("up"@[0] == 'u');
    assert("up"@[1] == 'p');
    assert("down"@.len() == 4);
    assert("down"@[0] == 'd');
    assert("down"@[1] == 'o');
    assert("down"@[2] == 'w');
    assert("down"@[3] == 'n');
    assert("left"@.len() == 4);
    assert("left"@[0] == 'l');
    assert("left"@[1] == 'e');
    assert("left"@[2] == 'f');
    assert("left"@[3] == 't');
    assert("right"@.len() == 5);
    assert("right"@[0] == 'r');
    assert("right"@[1] == 'i');
    assert("right"@[2] == 'g');
    assert("right"@[3] == 'h');
    assert("right"@[4] == 't');
    assert("U"@.len() == 1);
    assert("U"@[0] == 'U');
    assert("u"@.len() == 1);
    assert("u"@[0] == 'u');
    assert("D"@.len() == 1);
    assert("D"@[0] == 'D');
    assert("d"@.len() == 1);
    assert("d"@[0] == 'd');
}

} // verus!
