//! The command vocabulary shared by the command palette and the key tables.
//!
//! [`parse`] reads one command line: a name, of which most have an alias,
//! followed by its arguments.

use vstd::prelude::*;
use vstd::string::*;

use crate::layout::Direction;
use crate::text;

verus! {

/// One executable action.
#[derive(Clone, Debug, PartialEq, Eq)]
pub enum Action {
    /// Split the active pane.
    SplitWindow(Direction),
    /// Create a new tab.
    NewTab,
    /// Cycle to next tab.
    NextTab,
    /// Cycle to previous tab.
    PrevTab,
    /// Close the active pane.
    KillPane,
    /// Close the active tab.
    CloseTab,
    /// Rename the active tab.
    RenameTab(String),
    /// Apply a layout spec.
    SelectLayout(String),
    /// Equalise pane sizes.
    Equalize,
    /// Toggle zoom on the active pane.
    Zoom,
    /// Toggle broadcast mode.
    Broadcast,
    /// Focus a pane in the given direction.
    SelectPane(SelectDirection),
    /// Enter an input mode.
    EnterMode(EnterModeKind),
    /// Go back to the normal input mode.
    LeaveMode,
    /// Detach all clients.
    Detach,
    /// Kill the whole session.
    KillSession,
    /// Reload the configuration.
    ReloadConfig,
    /// Toggle an element of the chrome.
    Toggle(ToggleTarget),
    /// Open the command palette.
    CommandPalette,
}

/// Direction argument for `select-pane DIR`.
#[derive(Copy, Clone, Debug, Eq, PartialEq, Structural)]
pub enum SelectDirection {
    Up,
    Down,
    Left,
    Right,
    Next,
    Prev,
    Last,
}

/// Mode argument for `enter-mode MODE`.
#[derive(Copy, Clone, Debug, Eq, PartialEq, Structural)]
pub enum EnterModeKind {
    Prefix,
    Copy,
    Resize,
    PaneSelect,
    Help,
    CommandPalette,
}

/// Target of `toggle X`.
#[derive(Copy, Clone, Debug, Eq, PartialEq, Structural)]
pub enum ToggleTarget {
    StatusBar,
    Hints,
}

/// Why a command line is no action; the text is for the user.
#[derive(Clone, Debug)]
pub struct ParseError(pub String);

impl ParseError {
    /// The message shown to a user.
    pub fn to_string(&self) -> (r: String)
        ensures
            r@ == self.0@,
    {
        self.0.clone()
    }
}

/// An action, with its texts as sequences of characters.
#[verifier::ext_equal]
pub enum ActionView {
    RenameTab(Seq<char>),
    SelectLayout(Seq<char>),
    /// Any action that holds no text.
    Plain(Action),
}

impl View for Action {
    type V = ActionView;

    open spec fn view(&self) -> ActionView {
        match *self {
            Action::RenameTab(s) => ActionView::RenameTab(s@),
            Action::SelectLayout(s) => ActionView::SelectLayout(s@),
            other => ActionView::Plain(other),
        }
    }
}

// ─── What a command line means ─────────────────────────────

/// The direction of a split: vertical only where asked for.
pub open spec fn split_direction(arg: Option<Seq<char>>) -> Direction {
    if arg == Some("-v"@) || arg == Some("v"@) || arg == Some("vertical"@) {
        Direction::Vertical
    } else {
        Direction::Horizontal
    }
}

pub open spec fn select_direction(arg: Option<Seq<char>>) -> Option<SelectDirection> {
    if arg == Some("up"@) {
        Some(SelectDirection::Up)
    } else if arg == Some("down"@) {
        Some(SelectDirection::Down)
    } else if arg == Some("left"@) {
        Some(SelectDirection::Left)
    } else if arg == Some("right"@) {
        Some(SelectDirection::Right)
    } else if arg == Some("next"@) {
        Some(SelectDirection::Next)
    } else if arg == Some("prev"@) || arg == Some("previous"@) {
        Some(SelectDirection::Prev)
    } else if arg == Some("last"@) {
        Some(SelectDirection::Last)
    } else {
        None
    }
}

pub open spec fn mode_kind(arg: Option<Seq<char>>) -> Option<EnterModeKind> {
    if arg == Some("prefix"@) {
        Some(EnterModeKind::Prefix)
    } else if arg == Some("copy"@) || arg == Some("copy-mode"@) {
        Some(EnterModeKind::Copy)
    } else if arg == Some("resize"@) {
        Some(EnterModeKind::Resize)
    } else if arg == Some("pane-select"@) {
        Some(EnterModeKind::PaneSelect)
    } else if arg == Some("help"@) {
        Some(EnterModeKind::Help)
    } else if arg == Some("command-palette"@) || arg == Some("palette"@) {
        Some(EnterModeKind::CommandPalette)
    } else {
        None
    }
}

pub open spec fn toggle_target(arg: Option<Seq<char>>) -> Option<ToggleTarget> {
    if arg == Some("status-bar"@) || arg == Some("statusbar"@) {
        Some(ToggleTarget::StatusBar)
    } else if arg == Some("hints"@) {
        Some(ToggleTarget::Hints)
    } else {
        None
    }
}

pub open spec fn plain(a: Action) -> Result<ActionView, Seq<char>> {
    Ok(ActionView::Plain(a))
}

/// The action with the name `head`, whose first argument is `arg` and whose
/// arguments make up the text `rest`.
pub open spec fn named_action(
    head: Seq<char>,
    arg: Option<Seq<char>>,
    rest: Seq<char>,
) -> Result<ActionView, Seq<char>> {
    if head == "split-window"@ || head == "split"@ {
        plain(Action::SplitWindow(split_direction(arg)))
    } else if head == "new-window"@ || head == "new-tab"@ {
        plain(Action::NewTab)
    } else if head == "next-window"@ || head == "next-tab"@ {
        plain(Action::NextTab)
    } else if head == "prev-window"@ || head == "prev-tab"@ || head == "previous-window"@ {
        plain(Action::PrevTab)
    } else if head == "kill-pane"@ || head == "close-pane"@ {
        plain(Action::KillPane)
    } else if head == "kill-window"@ || head == "close-tab"@ {
        plain(Action::CloseTab)
    } else if head == "rename-window"@ || head == "rename-tab"@ {
        if rest.len() == 0 {
            Err("rename-tab requires a name"@)
        } else {
            Ok(ActionView::RenameTab(rest))
        }
    } else if head == "select-layout"@ || head == "layout"@ {
        if rest.len() == 0 {
            Err("select-layout requires a spec"@)
        } else {
            Ok(ActionView::SelectLayout(rest))
        }
    } else if head == "equalize"@ || head == "even"@ {
        plain(Action::Equalize)
    } else if head == "zoom"@ {
        plain(Action::Zoom)
    } else if head == "broadcast"@ {
        plain(Action::Broadcast)
    } else if head == "select-pane"@ {
        match select_direction(arg) {
            Some(d) => plain(Action::SelectPane(d)),
            None => Err("select-pane requires up|down|left|right|next|prev|last"@),
        }
    } else if head == "enter-mode"@ {
        match mode_kind(arg) {
            Some(k) => plain(Action::EnterMode(k)),
            None => Err("enter-mode requires a mode name"@),
        }
    } else if head == "leave-mode"@ {
        plain(Action::LeaveMode)
    } else if head == "detach"@ {
        plain(Action::Detach)
    } else if head == "kill-session"@ {
        plain(Action::KillSession)
    } else if head == "reload-config"@ || head == "reload"@ {
        plain(Action::ReloadConfig)
    } else if head == "toggle"@ {
        match toggle_target(arg) {
            Some(t) => plain(Action::Toggle(t)),
            None => Err("toggle requires status-bar|hints"@),
        }
    } else if head == "command-palette"@ || head == "palette"@ {
        plain(Action::CommandPalette)
    } else {
        Err("unknown action: "@ + head)
    }
}

/// The action that a command line names, or the message for one that is none.
pub open spec fn action_of(s: Seq<char>) -> Result<ActionView, Seq<char>> {
    let ws = text::words(s);
    if ws.len() == 0 {
        Err("empty action"@)
    } else {
        named_action(
            ws[0],
            if ws.len() > 1 {
                Some(ws[1])
            } else {
                None
            },
            text::join(ws.skip(1), " "@),
        )
    }
}

/// The first of the spellings of a command name.
pub open spec fn spelling(head: Seq<char>) -> Seq<char> {
    if head == "split"@ {
        "split-window"@
    } else if head == "new-tab"@ {
        "new-window"@
    } else if head == "next-tab"@ {
        "next-window"@
    } else if head == "prev-tab"@ {
        "prev-window"@
    } else if head == "previous-window"@ {
        "prev-window"@
    } else if head == "close-pane"@ {
        "kill-pane"@
    } else if head == "close-tab"@ {
        "kill-window"@
    } else if head == "rename-tab"@ {
        "rename-window"@
    } else if head == "layout"@ {
        "select-layout"@
    } else if head == "even"@ {
        "equalize"@
    } else if head == "reload"@ {
        "reload-config"@
    } else if head == "palette"@ {
        "command-palette"@
    } else {
        head
    }
}

#[verifier::spinoff_prover]
#[verifier::rlimit(60)]
proof fn lemma_spelling(head: Seq<char>, arg: Option<Seq<char>>, rest: Seq<char>)
    ensures
        named_action(spelling(head), arg, rest) == named_action(head, arg, rest),
{
    reveal_strlit("split-window");
    reveal_strlit("split");
    reveal_strlit("new-window");
    reveal_strlit("new-tab");
    reveal_strlit("next-window");
    reveal_strlit("next-tab");
    reveal_strlit("prev-window");
    reveal_strlit("prev-tab");
    reveal_strlit("previous-window");
    reveal_strlit("kill-pane");
    reveal_strlit("close-pane");
    reveal_strlit("kill-window");
    reveal_strlit("close-tab");
    reveal_strlit("rename-window");
    reveal_strlit("rename-tab");
    reveal_strlit("select-layout");
    reveal_strlit("layout");
    reveal_strlit("equalize");
    reveal_strlit("even");
    reveal_strlit("zoom");
    reveal_strlit("broadcast");
    reveal_strlit("select-pane");
    reveal_strlit("enter-mode");
    reveal_strlit("leave-mode");
    reveal_strlit("detach");
    reveal_strlit("kill-session");
    reveal_strlit("reload-config");
    reveal_strlit("reload");
    reveal_strlit("toggle");
    reveal_strlit("command-palette");
    reveal_strlit("palette");
    assert("split-window"@.len() == 12 && "split-window"@[0] == 's' && "split-window"@[2] == 'l');
    assert("split"@.len() == 5 && "split"@[0] == 's' && "split"@[2] == 'l');
    assert("new-window"@.len() == 10 && "new-window"@[0] == 'n' && "new-window"@[2] == 'w');
    assert("new-tab"@.len() == 7 && "new-tab"@[0] == 'n' && "new-tab"@[2] == 'w');
    assert("next-window"@.len() == 11 && "next-window"@[0] == 'n' && "next-window"@[2] == 'x');
    assert("next-tab"@.len() == 8 && "next-tab"@[0] == 'n' && "next-tab"@[2] == 'x');
    assert("prev-window"@.len() == 11 && "prev-window"@[0] == 'p' && "prev-window"@[2] == 'e');
    assert("prev-tab"@.len() == 8 && "prev-tab"@[0] == 'p' && "prev-tab"@[2] == 'e');
    assert("previous-window"@.len() == 15 && "previous-window"@[0] == 'p' && "previous-window"@[2] == 'e');
    assert("kill-pane"@.len() == 9 && "kill-pane"@[0] == 'k' && "kill-pane"@[2] == 'l');
    assert("close-pane"@.len() == 10 && "close-pane"@[0] == 'c' && "close-pane"@[2] == 'o');
    assert("kill-window"@.len() == 11 && "kill-window"@[0] == 'k' && "kill-window"@[2] == 'l');
    assert("close-tab"@.len() == 9 && "close-tab"@[0] == 'c' && "close-tab"@[2] == 'o');
    assert("rename-window"@.len() == 13 && "rename-window"@[0] == 'r' && "rename-window"@[2] == 'n');
    assert("rename-tab"@.len() == 10 && "rename-tab"@[0] == 'r' && "rename-tab"@[2] == 'n');
    assert("select-layout"@.len() == 13 && "select-layout"@[0] == 's' && "select-layout"@[2] == 'l');
    assert("layout"@.len() == 6 && "layout"@[0] == 'l' && "layout"@[2] == 'y');
    assert("equalize"@.len() == 8 && "equalize"@[0] == 'e' && "equalize"@[2] == 'u');
    assert("even"@.len() == 4 && "even"@[0] == 'e' && "even"@[2] == 'e');
    assert("zoom"@.len() == 4 && "zoom"@[0] == 'z' && "zoom"@[2] == 'o');
    assert("broadcast"@.len() == 9 && "broadcast"@[0] == 'b' && "broadcast"@[2] == 'o');
    assert("select-pane"@.len() == 11 && "select-pane"@[0] == 's' && "select-pane"@[2] == 'l');
    assert("enter-mode"@.len() == 10 && "enter-mode"@[0] == 'e' && "enter-mode"@[2] == 't');
    assert("leave-mode"@.len() == 10 && "leave-mode"@[0] == 'l' && "leave-mode"@[2] == 'a');
    assert("detach"@.len() == 6 && "detach"@[0] == 'd' && "detach"@[2] == 't');
    assert("kill-session"@.len() == 12 && "kill-session"@[0] == 'k' && "kill-session"@[2] == 'l');
    assert("reload-config"@.len() == 13 && "reload-config"@[0] == 'r' && "reload-config"@[2] == 'l');
    assert("reload"@.len() == 6 && "reload"@[0] == 'r' && "reload"@[2] == 'l');
    assert("toggle"@.len() == 6 && "toggle"@[0] == 't' && "toggle"@[2] == 'g');
    assert("command-palette"@.len() == 15 && "command-palette"@[0] == 'c' && "command-palette"@[2] == 'm');
    assert("palette"@.len() == 7 && "palette"@[0] == 'p' && "palette"@[2] == 'l');
}

/// Two command lines that differ in the spelling of the command alone mean the
/// same.
pub proof fn spellings_mean_the_same(a: Seq<char>, b: Seq<char>)
    requires
        text::words(a).len() > 0,
        text::words(b).len() > 0,
        spelling(text::words(a)[0]) == spelling(text::words(b)[0]),
        text::words(a).skip(1) == text::words(b).skip(1),
    ensures
        action_of(a) == action_of(b),
{
    let x = text::words(a);
    let y = text::words(b);
    assert(x.skip(1).len() == y.skip(1).len());
    if x.len() > 1 {
        assert(x.skip(1)[0] == x[1] && y.skip(1)[0] == y[1]);
    }
    let arg = if x.len() > 1 {
        Some(x[1])
    } else {
        None
    };
    lemma_spelling(x[0], arg, text::join(x.skip(1), " "@));
    lemma_spelling(y[0], arg, text::join(y.skip(1), " "@));
}

// ─── Reading a command line ────────────────────────────────

fn fail(msg: &str) -> (r: ParseError)
    ensures
        r.0@ == msg@,
{
    ParseError(msg.to_owned())
}

/// The first argument of a command.
pub open spec fn first_arg(arg: Option<&str>) -> Option<Seq<char>> {
    match arg {
        Some(a) => Some(a@),
        None => None,
    }
}

fn arg_is(arg: Option<&str>, name: &str) -> (r: bool)
    ensures
        r == (first_arg(arg) == Some(name@)),
{
    match arg {
        Some(a) => text::same_text(a, name),
        None => false,
    }
}

fn read_select_direction(arg: Option<&str>) -> (r: Option<SelectDirection>)
    ensures
        r == select_direction(first_arg(arg)),
{
    if arg_is(arg, "up") {
        Some(SelectDirection::Up)
    } else if arg_is(arg, "down") {
        Some(SelectDirection::Down)
    } else if arg_is(arg, "left") {
        Some(SelectDirection::Left)
    } else if arg_is(arg, "right") {
        Some(SelectDirection::Right)
    } else if arg_is(arg, "next") {
        Some(SelectDirection::Next)
    } else if arg_is(arg, "prev") || arg_is(arg, "previous") {
        Some(SelectDirection::Prev)
    } else if arg_is(arg, "last") {
        Some(SelectDirection::Last)
    } else {
        None
    }
}

fn read_mode_kind(arg: Option<&str>) -> (r: Option<EnterModeKind>)
    ensures
        r == mode_kind(first_arg(arg)),
{
    if arg_is(arg, "prefix") {
        Some(EnterModeKind::Prefix)
    } else if arg_is(arg, "copy") || arg_is(arg, "copy-mode") {
        Some(EnterModeKind::Copy)
    } else if arg_is(arg, "resize") {
        Some(EnterModeKind::Resize)
    } else if arg_is(arg, "pane-select") {
        Some(EnterModeKind::PaneSelect)
    } else if arg_is(arg, "help") {
        Some(EnterModeKind::Help)
    } else if arg_is(arg, "command-palette") || arg_is(arg, "palette") {
        Some(EnterModeKind::CommandPalette)
    } else {
        None
    }
}

fn read_toggle_target(arg: Option<&str>) -> (r: Option<ToggleTarget>)
    ensures
        r == toggle_target(first_arg(arg)),
{
    if arg_is(arg, "status-bar") || arg_is(arg, "statusbar") {
        Some(ToggleTarget::StatusBar)
    } else if arg_is(arg, "hints") {
        Some(ToggleTarget::Hints)
    } else {
        None
    }
}

/// Parse one command line into an [`Action`].
pub fn parse(s: &str) -> (r: Result<Action, ParseError>)
    ensures
        match r {
            Ok(a) => action_of(s@) == Ok::<ActionView, Seq<char>>(a@),
            Err(e) => action_of(s@) == Err::<ActionView, Seq<char>>(e.0@),
        },
{
    let parts = text::words_of(s);
    let ghost ws = text::texts(parts@);
    if parts.len() == 0 {
        return Err(fail("empty action"));
    }
    let head = parts[0].as_str();
    assert(ws[0] == head@);
    let arg: Option<&str> = if parts.len() > 1 {
        assert(ws[1] == parts@[1]@);
        Some(parts[1].as_str())
    } else {
        None
    };
    assert(first_arg(arg) == if ws.len() > 1 {
        Some(ws[1])
    } else {
        None
    });
    let rest = text::join_text(&parts, 1, " ");
    read_action(head, arg, rest)
}

fn read_action(head: &str, arg: Option<&str>, rest: String) -> (r: Result<Action, ParseError>)
    ensures
        match r {
            Ok(a) => named_action(head@, first_arg(arg), rest@) == Ok::<ActionView, Seq<char>>(a@),
            Err(e) => named_action(head@, first_arg(arg), rest@) == Err::<ActionView, Seq<char>>(
                e.0@,
            ),
        },
{
    if text::same_text(head, "split-window") || text::same_text(head, "split") {
        if arg_is(arg, "-v") || arg_is(arg, "v") || arg_is(arg, "vertical") {
            Ok(Action::SplitWindow(Direction::Vertical))
        } else {
            Ok(Action::SplitWindow(Direction::Horizontal))
        }
    } else if text::same_text(head, "new-window") || text::same_text(head, "new-tab") {
        Ok(Action::NewTab)
    } else if text::same_text(head, "next-window") || text::same_text(head, "next-tab") {
        Ok(Action::NextTab)
    } else if text::same_text(head, "prev-window") || text::same_text(head, "prev-tab")
        || text::same_text(head, "previous-window") {
        Ok(Action::PrevTab)
    } else if text::same_text(head, "kill-pane") || text::same_text(head, "close-pane") {
        Ok(Action::KillPane)
    } else if text::same_text(head, "kill-window") || text::same_text(head, "close-tab") {
        Ok(Action::CloseTab)
    } else if text::same_text(head, "rename-window") || text::same_text(head, "rename-tab") {
        if rest.as_str().is_empty() {
            Err(fail("rename-tab requires a name"))
        } else {
            Ok(Action::RenameTab(rest))
        }
    } else if text::same_text(head, "select-layout") || text::same_text(head, "layout") {
        if rest.as_str().is_empty() {
            Err(fail("select-layout requires a spec"))
        } else {
            Ok(Action::SelectLayout(rest))
        }
    } else if text::same_text(head, "equalize") || text::same_text(head, "even") {
        Ok(Action::Equalize)
    } else if text::same_text(head, "zoom") {
        Ok(Action::Zoom)
    } else if text::same_text(head, "broadcast") {
        Ok(Action::Broadcast)
    } else if text::same_text(head, "select-pane") {
        match read_select_direction(arg) {
            Some(d) => Ok(Action::SelectPane(d)),
            None => Err(fail("select-pane requires up|down|left|right|next|prev|last")),
        }
    } else if text::same_text(head, "enter-mode") {
        match read_mode_kind(arg) {
            Some(k) => Ok(Action::EnterMode(k)),
            None => Err(fail("enter-mode requires a mode name")),
        }
    } else if text::same_text(head, "leave-mode") {
        Ok(Action::LeaveMode)
    } else if text::same_text(head, "detach") {
        Ok(Action::Detach)
    } else if text::same_text(head, "kill-session") {
        Ok(Action::KillSession)
    } else if text::same_text(head, "reload-config") || text::same_text(head, "reload") {
        Ok(Action::ReloadConfig)
    } else if text::same_text(head, "toggle") {
        match read_toggle_target(arg) {
            Some(t) => Ok(Action::Toggle(t)),
            None => Err(fail("toggle requires status-bar|hints")),
        }
    } else if text::same_text(head, "command-palette") || text::same_text(head, "palette") {
        Ok(Action::CommandPalette)
    } else {
        let mut msg = "unknown action: ".to_owned();
        msg.append(head);
        Err(ParseError(msg))
    }
}

/// The panes to select are named by their direction or by their place in the
/// order.
pub proof fn selections_are_named()
    ensures
        select_direction(Some("up"@)) == Some(SelectDirection::Up),
        select_direction(Some("down"@)) == Some(SelectDirection::Down),
        select_direction(Some("left"@)) == Some(SelectDirection::Left),
        select_direction(Some("right"@)) == Some(SelectDirection::Right),
        select_direction(Some("next"@)) == Some(SelectDirection::Next),
        select_direction(Some("prev"@)) == Some(SelectDirection::Prev),
        select_direction(Some("previous"@)) == Some(SelectDirection::Prev),
        select_direction(Some("last"@)) == Some(SelectDirection::Last),
{
    reveal_strlit("up");
    reveal_strlit("down");
    reveal_strlit("left");
    reveal_strlit("right");
    reveal_strlit("next");
    reveal_strlit("prev");
    reveal_strlit("previous");
    reveal_strlit("last");
    assert("up"@.len() == 2);
    assert("up"@[0] == 'u');
    assert("up"@[1] == 'p');
    assert("down"@.len() == 4);
    assert("down"@[0] == 'd');
    assert("down"@[1] == 'o');
    assert("down"@[2] == 'w');
    assert("down"@[3] == 'n');
    assert("left"@.len() == 4);
    assert("left"@[0] == 'l');
    assert("left"@[1] == 'e');
    assert("left"@[2] == 'f');
    assert("left"@[3] == 't');
    assert("right"@.len() == 5);
    assert("right"@[0] == 'r');
    assert("right"@[1] == 'i');
    assert("right"@[2] == 'g');
    assert("right"@[3] == 'h');
    assert("right"@[4] == 't');
    assert("next"@.len() == 4);
    assert("next"@[0] == 'n');
    assert("next"@[1] == 'e');
    assert("next"@[2] == 'x');
    assert("next"@[3] == 't');
    assert("prev"@.len() == 4);
    assert("prev"@[0] == 'p');
    assert("prev"@[1] == 'r');
    assert("prev"@[2] == 'e');
    assert("prev"@[3] == 'v');
    assert("previous"@.len() == 8);
    assert("previous"@[0] == 'p');
    assert("previous"@[1] == 'r');
    assert("previous"@[2] == 'e');
    assert("previous"@[3] == 'v');
    assert("previous"@[4] == 'i');
    assert("previous"@[5] == 'o');
    assert("previous"@[6] == 'u');
    assert("previous"@[7] == 's');
    assert("last"@.len() == 4);
    assert("last"@[0] == 'l');
    assert("last"@[1] == 'a');
    assert("last"@[2] == 's');
    assert("last"@[3] == 't');
}

/// A split is vertical where it says so, and horizontal otherwise.
pub proof fn splits_are_named()
    ensures
        split_direction(Some("-v"@)) == Direction::Vertical,
        split_direction(Some("v"@)) == Direction::Vertical,
        split_direction(Some("vertical"@)) == Direction::Vertical,
        split_direction(Some("-h"@)) == Direction::Horizontal,
        split_direction(Some("h"@)) == Direction::Horizontal,
        split_direction(Some("horizontal"@)) == Direction::Horizontal,
        split_direction(None) == Direction::Horizontal,
{
    reveal_strlit("-v");
    reveal_strlit("v");
    reveal_strlit("vertical");
    reveal_strlit("-h");
    reveal_strlit("h");
    reveal_strlit("horizontal");
    assert("-v"@.len() == 2);
    assert("-v"@[0] == '-');
    assert("-v"@[1] == 'v');
    assert("v"@.len() == 1);
    assert("v"@[0] == 'v');
    assert("vertical"@.len() == 8);
    assert("vertical"@[0] == 'v');
    assert("vertical"@[1] == 'e');
    assert("vertical"@[2] == 'r');
    assert("vertical"@[3] == 't');
    assert("vertical"@[4] == 'i');
    assert("vertical"@[5] == 'c');
    assert("vertical"@[6] == 'a');
    assert("vertical"@[7] == 'l');
    assert("-h"@.len() == 2);
    assert("-h"@[0] == '-');
    assert("-h"@[1] == 'h');
    assert("h"@.len() == 1);
    assert("h"@[0] == 'h');
    assert("horizontal"@.len() == 10);
    assert("horizontal"@[0] == 'h');
    assert("horizontal"@[1] == 'o');
    assert("horizontal"@[2] == 'r');
    assert("horizontal"@[3] == 'i');
    assert("horizontal"@[4] == 'z');
    assert("horizontal"@[5] == 'o');
    assert("horizontal"@[6] == 'n');
    assert("horizontal"@[7] == 't');
    assert("horizontal"@[8] == 'a');
    assert("horizontal"@[9] == 'l');
}

} // verus!
