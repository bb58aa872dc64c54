//! The state that input changes, and the work that it asks for.

use std::collections::HashSet;

use vstd::prelude::*;
use vstd::string::*;

use crate::bytes;
use crate::keys::KeyEvent;
use crate::layout;
use crate::layout::{Direction, Layout, Rect, SepHit};
use crate::ratio;
use crate::ratio::Ratio;
use crate::settings::Settings;

verus! {

broadcast use vstd::std_specs::hash::group_hash_axioms;

// ─── What is to be drawn anew ──────────────────────────────

#[derive(Debug)]
pub struct RenderUpdate {
    pub dirty_panes: HashSet<usize>,
    pub full_redraw: bool,
    pub border_dirty: bool,
    pub status_dirty: bool,
    pub tabs_dirty: bool,
}

#[verifier::ext_equal]
pub struct UpdateView {
    pub dirty_panes: Set<usize>,
    pub full_redraw: bool,
    pub border_dirty: bool,
    pub status_dirty: bool,
    pub tabs_dirty: bool,
}

impl View for RenderUpdate {
    type V = UpdateView;

    open spec fn view(&self) -> UpdateView {
        UpdateView {
            dirty_panes: self.dirty_panes@,
            full_redraw: self.full_redraw,
            border_dirty: self.border_dirty,
            status_dirty: self.status_dirty,
            tabs_dirty: self.tabs_dirty,
        }
    }
}

/// Nothing is to be drawn.
pub open spec fn no_update() -> UpdateView {
    UpdateView {
        dirty_panes: Set::empty(),
        full_redraw: false,
        border_dirty: false,
        status_dirty: false,
        tabs_dirty: false,
    }
}

/// Every pane is to be drawn.
pub open spec fn all_marked(u: UpdateView, l: Layout) -> UpdateView {
    UpdateView {
        dirty_panes: u.dirty_panes + layout::ids(l.root).to_set(),
        full_redraw: true,
        ..u
    }
}

pub open spec fn render_needed(u: UpdateView) -> bool {
    u.full_redraw || u.border_dirty || u.status_dirty || u.tabs_dirty || u.dirty_panes
        != Set::<usize>::empty()
}

impl RenderUpdate {
    pub fn new() -> (r: RenderUpdate)
        ensures
            r@ == no_update(),
    {
        RenderUpdate {
            dirty_panes: HashSet::new(),
            full_redraw: false,
            border_dirty: false,
            status_dirty: false,
            tabs_dirty: false,
        }
    }

    /// Marks every pane of a layout.
    pub fn mark_all(&mut self, l: &Layout)
        ensures
            final(self)@ == all_marked(old(self)@, *l),
    {
        let all = l.pane_ids();
        self.full_redraw = true;
        let mut i: usize = 0;
        assert(all@.take(0).to_set() =~= Set::<usize>::empty());
        assert(self.dirty_panes@ =~= old(self).dirty_panes@ + all@.take(0).to_set());
        while i < all.len()
            invariant
                i <= all@.len(),
                all@ == layout::ids(l.root),
                self.dirty_panes@ == old(self).dirty_panes@ + all@.take(i as int).to_set(),
                self.full_redraw,
                self.border_dirty == old(self).border_dirty,
                self.status_dirty == old(self).status_dirty,
                self.tabs_dirty == old(self).tabs_dirty,
            decreases all@.len() - i,
        {
            let ghost before = all@.take(i as int);
            let id: usize = all[i];
            let _ = self.dirty_panes.insert(id);
            i += 1;
            proof {
                let after = all@.take(i as int);
                assert(after =~= before.push(id));
                assert forall|x: usize| after.contains(x) == (before.contains(x) || x == id) by {
                    if before.contains(x) {
                        let j = before.index_of(x);
                        assert(after[j] == x);
                    }
                    if x == id {
                        assert(after[i - 1] == x);
                    }
                    if after.contains(x) {
                        let j = after.index_of(x);
                        if j < i - 1 {
                            assert(before[j] == x);
                        }
                    }
                }
                assert(self.dirty_panes@ =~= old(self).dirty_panes@ + after.to_set());
            }
        }
        assert(all@.take(all@.len() as int) =~= all@);
    }

    /// Marks one pane.
    pub fn mark(&mut self, id: usize)
        ensures
            final(self)@ == (UpdateView {
                dirty_panes: old(self)@.dirty_panes.insert(id),
                ..old(self)@
            }),
    {
        let _ = self.dirty_panes.insert(id);
    }

    /// Tells whether anything is to be drawn.
    pub fn needs_render(&self) -> (r: bool)
        ensures
            r == render_needed(self@),
    {
        self.full_redraw || self.border_dirty || self.status_dirty || self.tabs_dirty
            || !self.dirty_panes.is_empty()
    }
}

// ─── Input modes ───────────────────────────────────────────

/// Where copy mode is on the screen of its pane.
#[derive(Clone, Copy, Debug, PartialEq, Eq, Structural)]
pub struct CopyModeState {
    pub cursor_row: u16,
    pub pane_rows: u16,
    pub pane_cols: u16,
}

/// What keys mean.
#[derive(Debug)]
pub enum InputMode {
    Normal,
    /// After the prefix key.
    Prefix { entered_at: u64 },
    CopyMode(CopyModeState),
    QuitConfirm,
    CloseConfirm,
    CloseTabConfirm,
    ResizeMode,
    PaneSelect,
    HelpOverlay,
    /// A new name for the tab is typed.
    RenameTab { buffer: String },
    /// A command is typed.
    CommandPalette { buffer: String },
}

#[verifier::ext_equal]
pub enum ModeView {
    Normal,
    Prefix { entered_at: u64 },
    CopyMode(CopyModeState),
    QuitConfirm,
    CloseConfirm,
    CloseTabConfirm,
    ResizeMode,
    PaneSelect,
    HelpOverlay,
    RenameTab { buffer: Seq<char> },
    CommandPalette { buffer: Seq<char> },
}

impl View for InputMode {
    type V = ModeView;

    open spec fn view(&self) -> ModeView {
        match *self {
            InputMode::Normal => ModeView::Normal,
            InputMode::Prefix { entered_at } => ModeView::Prefix { entered_at },
            InputMode::CopyMode(s) => ModeView::CopyMode(s),
            InputMode::QuitConfirm => ModeView::QuitConfirm,
            InputMode::CloseConfirm => ModeView::CloseConfirm,
            InputMode::CloseTabConfirm => ModeView::CloseTabConfirm,
            InputMode::ResizeMode => ModeView::ResizeMode,
            InputMode::PaneSelect => ModeView::PaneSelect,
            InputMode::HelpOverlay => ModeView::HelpOverlay,
            InputMode::RenameTab { buffer } => ModeView::RenameTab { buffer: buffer@ },
            InputMode::CommandPalette { buffer } => ModeView::CommandPalette { buffer: buffer@ },
        }
    }
}

/// What is asked of the tabs. The main loop carries it out.
#[derive(Debug)]
pub enum TabAction {
    Nothing,
    NewTab,
    NextTab,
    PrevTab,
    GoToTab(usize),
    CloseTab,
    Rename(String),
    KillSession,
}

#[verifier::ext_equal]
pub enum TabActionView {
    Nothing,
    NewTab,
    NextTab,
    PrevTab,
    GoToTab(usize),
    CloseTab,
    Rename(Seq<char>),
    KillSession,
}

impl View for TabAction {
    type V = TabActionView;

    open spec fn view(&self) -> TabActionView {
        match *self {
            TabAction::Nothing => TabActionView::Nothing,
            TabAction::NewTab => TabActionView::NewTab,
            TabAction::NextTab => TabActionView::NextTab,
            TabAction::PrevTab => TabActionView::PrevTab,
            TabAction::GoToTab(i) => TabActionView::GoToTab(i),
            TabAction::CloseTab => TabActionView::CloseTab,
            TabAction::Rename(s) => TabActionView::Rename(s@),
            TabAction::KillSession => TabActionView::KillSession,
        }
    }
}

/// Clipboard sequences of a pane that wait for the user's answer.
#[derive(Debug)]
pub struct Osc52ConfirmState {
    pub pane_id: usize,
    pub byte_count: usize,
    pub queued_payloads: Vec<Vec<u8>>,
}

#[verifier::ext_equal]
pub struct ConfirmView {
    pub pane_id: usize,
    pub byte_count: usize,
    pub queued_payloads: Seq<Seq<u8>>,
}

impl View for Osc52ConfirmState {
    type V = ConfirmView;

    open spec fn view(&self) -> ConfirmView {
        ConfirmView {
            pane_id: self.pane_id,
            byte_count: self.byte_count,
            queued_payloads: bytes::lists(self.queued_payloads@),
        }
    }
}

/// The command palette.
#[derive(Debug)]
pub struct Palette {
    pub query: String,
    pub selected: usize,
    /// The list of candidates is there.
    pub indexed: bool,
}

#[verifier::ext_equal]
pub struct PaletteView {
    pub query: Seq<char>,
    pub selected: usize,
    pub indexed: bool,
}

impl View for Palette {
    type V = PaletteView;

    open spec fn view(&self) -> PaletteView {
        PaletteView { query: self.query@, selected: self.selected, indexed: self.indexed }
    }
}

// ─── Selecting and dragging ────────────────────────────────

/// A selection in a pane that follows the mouse.
#[derive(Clone, Copy, Debug, PartialEq, Eq, Structural)]
pub struct TextSelection {
    pub pane_id: usize,
    pub start_row: u16,
    pub start_col: u16,
    pub end_row: u16,
    pub end_col: u16,
}

/// Tells whether a cell comes before another, or is it, in reading order.
pub open spec fn reads_before(r1: u16, c1: u16, r2: u16, c2: u16) -> bool {
    r1 < r2 || (r1 == r2 && c1 <= c2)
}

impl TextSelection {
    /// The first and the last cell of the selection in reading order.
    pub fn normalized(&self) -> (r: (u16, u16, u16, u16))
        ensures
            reads_before(r.0, r.1, r.2, r.3),
            r == if reads_before(self.start_row, self.start_col, self.end_row, self.end_col) {
                (self.start_row, self.start_col, self.end_row, self.end_col)
            } else {
                (self.end_row, self.end_col, self.start_row, self.start_col)
            },
    {
        if self.start_row < self.end_row || (self.start_row == self.end_row && self.start_col
            <= self.end_col) {
            (self.start_row, self.start_col, self.end_row, self.end_col)
        } else {
            (self.end_row, self.end_col, self.start_row, self.start_col)
        }
    }
}

/// A separator that is being dragged.
#[derive(Debug)]
pub struct DragState {
    pub path: Vec<bool>,
    pub direction: Direction,
    pub area: Rect,
}

/// The ratio of a separator that is dragged to `pos` in a run of `len` cells
/// that begins at `start`: the share of the cells before it, kept between one
/// tenth and nine tenths.
pub open spec fn dragged_ratio(pos: u16, start: u16, len: u16) -> Ratio {
    if len <= 1 {
        ratio::half()
    } else if pos <= start {
        ratio::low()
    } else if pos - start > len - 1 {
        ratio::high()
    } else {
        ratio::clamp(ratio::quotient(pos - start, len - 1))
    }
}

fn ratio_at(pos: u16, start: u16, len: u16) -> (r: Ratio)
    ensures
        r == dragged_ratio(pos, start, len),
        r.wf(),
{
    if len <= 1 {
        ratio::half()
    } else if pos <= start {
        ratio::low()
    } else if pos - start > len - 1 {
        ratio::high()
    } else {
        proof {
            ratio::small_counts_are_exact((pos - start) as nat, (len - 1) as nat);
        }
        let share = Ratio::of((pos - start) as u64, (len - 1) as u64);
        share.clamped()
    }
}

/// The ratio of a separator that is dragged to a cell.
pub open spec fn drag_ratio(direction: Direction, area: Rect, mx: u16, my: u16) -> Ratio {
    match direction {
        Direction::Horizontal => dragged_ratio(mx, area.x, area.w),
        Direction::Vertical => dragged_ratio(my, area.y, area.h),
    }
}

impl DragState {
    pub fn from_hit(hit: SepHit) -> (r: DragState)
        ensures
            (r.path@, r.direction, r.area) == hit.parts(),
    {
        DragState { path: hit.path, direction: hit.direction, area: hit.area }
    }

    pub fn path(&self) -> (r: &[bool])
        ensures
            r@ == self.path@,
    {
        self.path.as_slice()
    }

    /// The ratio of the separator with the mouse at a cell.
    pub fn calc_ratio(&self, mx: u16, my: u16) -> (r: Ratio)
        ensures
            r == drag_ratio(self.direction, self.area, mx, my),
            r.wf(),
    {
        match self.direction {
            Direction::Horizontal => ratio_at(mx, self.area.x, self.area.w),
            Direction::Vertical => ratio_at(my, self.area.y, self.area.h),
        }
    }
}

// ─── State ─────────────────────────────────────────────────

/// What input reads and changes.
#[derive(Debug)]
pub struct Ui {
    pub mode: InputMode,
    pub layout: Layout,
    pub active: usize,
    pub last_active: usize,
    pub settings: Settings,
    pub update: RenderUpdate,
    pub zoomed_pane: Option<usize>,
    pub broadcast: bool,
    pub detach_requested: bool,
    pub tab_action: TabAction,
    /// A transient message and when it was set (milliseconds).
    pub flash_message: Option<(String, u64)>,
    pub osc52_confirm: Option<Osc52ConfirmState>,
    pub palette: Palette,
    pub drag: Option<DragState>,
    /// When and where the last click was.
    pub last_click: Option<(u64, u16, u16)>,
    /// Pane, column and row where a selection began.
    pub selection_anchor: Option<(usize, u16, u16)>,
    pub text_selection: Option<TextSelection>,
}

#[verifier::ext_equal]
pub struct UiView {
    pub mode: ModeView,
    pub layout: Layout,
    pub active: usize,
    pub last_active: usize,
    pub settings: Settings,
    pub update: UpdateView,
    pub zoomed_pane: Option<usize>,
    pub broadcast: bool,
    pub detach_requested: bool,
    pub tab_action: TabActionView,
    pub flash_message: Option<(Seq<char>, u64)>,
    pub osc52_confirm: Option<ConfirmView>,
    pub palette: PaletteView,
    pub drag: Option<(Seq<bool>, Direction, Rect)>,
    pub last_click: Option<(u64, u16, u16)>,
    pub selection_anchor: Option<(usize, u16, u16)>,
    pub text_selection: Option<TextSelection>,
}

pub open spec fn flash_view(f: Option<(String, u64)>) -> Option<(Seq<char>, u64)> {
    match f {
        Some((s, t)) => Some((s@, t)),
        None => None,
    }
}

pub open spec fn confirm_view(c: Option<Osc52ConfirmState>) -> Option<ConfirmView> {
    match c {
        Some(s) => Some(s@),
        None => None,
    }
}

pub open spec fn drag_view(d: Option<DragState>) -> Option<(Seq<bool>, Direction, Rect)> {
    match d {
        Some(s) => Some((s.path@, s.direction, s.area)),
        None => None,
    }
}

impl View for Ui {
    type V = UiView;

    open spec fn view(&self) -> UiView {
        UiView {
            mode: self.mode@,
            layout: self.layout,
            active: self.active,
            last_active: self.last_active,
            settings: self.settings,
            update: self.update@,
            zoomed_pane: self.zoomed_pane,
            broadcast: self.broadcast,
            detach_requested: self.detach_requested,
            tab_action: self.tab_action@,
            flash_message: flash_view(self.flash_message),
            osc52_confirm: confirm_view(self.osc52_confirm),
            palette: self.palette@,
            drag: drag_view(self.drag),
            last_click: self.last_click,
            selection_anchor: self.selection_anchor,
            text_selection: self.text_selection,
        }
    }
}

impl UiView {
    pub open spec fn wf(self) -> bool {
        self.layout.wf() && self.settings.wf()
    }
}

impl Ui {
    pub open spec fn wf(self) -> bool {
        self@.wf()
    }

    /// The state of a new session.
    pub fn new(layout: Layout, active: usize, settings: Settings) -> (r: Ui)
        ensures
            r@ == (UiView {
                mode: ModeView::Normal,
                layout,
                active,
                last_active: active,
                settings,
                update: no_update(),
                zoomed_pane: None,
                broadcast: false,
                detach_requested: false,
                tab_action: TabActionView::Nothing,
                flash_message: None,
                osc52_confirm: None,
                palette: PaletteView { query: seq![], selected: 0, indexed: false },
                drag: None,
                last_click: None,
                selection_anchor: None,
                text_selection: None,
            }),
    {
        let query = String::new();
        assert(query@ =~= seq![]);
        Ui {
            mode: InputMode::Normal,
            layout,
            active,
            last_active: active,
            settings,
            update: RenderUpdate::new(),
            zoomed_pane: None,
            broadcast: false,
            detach_requested: false,
            tab_action: TabAction::Nothing,
            flash_message: None,
            osc52_confirm: None,
            palette: Palette { query, selected: 0, indexed: false },
            drag: None,
            last_click: None,
            selection_anchor: None,
            text_selection: None,
        }
    }
}

/// What input is read against: the size of the screen, the prefix key, the time
/// (milliseconds), and rows and columns of the active pane's screen.
#[derive(Clone, Copy, Debug)]
pub struct Env {
    pub tw: u16,
    pub th: u16,
    pub prefix_key: char,
    pub now: u64,
    pub screen: (u16, u16),
}

// ─── Work ──────────────────────────────────────────────────

/// How a key in copy mode scrolls its pane.
#[derive(Clone, Copy, Debug, PartialEq, Eq, Structural)]
pub enum CopyScroll {
    Stay,
    Up(u16),
    Down(u16),
    Top,
    Bottom,
}

/// Work that input asks for and that only the program around the library can
/// do, in the order in which it is to be done.
#[derive(Debug)]
pub enum Effect {
    /// Split a pane and start a shell in the new one.
    Split { target: usize, dir: Direction },
    /// Close a pane. The focus moves on where it was on that pane.
    ClosePane { target: usize },
    /// Give every pane the size of its place in the layout.
    ResizeAll,
    /// Give a pane the size of the whole screen.
    ResizeZoomed(usize),
    /// Mark every pane of the layout as it is then.
    MarkAll,
    /// Send a key to a pane.
    WriteKey { pane: usize, key: KeyEvent },
    /// Send a key to every pane whose program runs.
    BroadcastKey(KeyEvent),
    /// Send bytes to a pane.
    WriteBytes { pane: usize, bytes: Vec<u8> },
    /// Remember that a pane may write the clipboard, and forward what it wrote.
    AllowClipboard { pane: usize, forward: Vec<Vec<u8>> },
    /// Remember that a pane may not write the clipboard.
    DenyClipboard { pane: usize },
    /// Put clipboard sequences back in the queue of their pane.
    RequeueClipboard { pane: usize, payloads: Vec<Vec<u8>> },
    /// Start the program of a pane again.
    Respawn { pane: usize },
    /// Scroll a pane and hand a key to its copy mode.
    CopyKey { pane: usize, key: KeyEvent, scroll: CopyScroll },
    /// Gather the candidates of the command palette.
    BuildPalette,
    /// Look up the selected candidate of the command palette.
    CompletePalette { query: String, selected: usize },
    /// Remember a command line.
    PushHistory(String),
    /// Read a command line and execute it.
    RunCommand(String),
    /// Start the panes of a layout, then switch to it.
    SpawnLayout(Layout),
    /// Write a named buffer.
    SetBuffer { name: String, value: String },
    /// Paste a named buffer.
    PasteBuffer { name: Option<String> },
    /// Show the named buffers.
    ListBuffers,
    /// Scroll a pane back.
    ScrollUp { pane: usize, lines: usize },
    /// Scroll a pane forward.
    ScrollDown { pane: usize, lines: usize },
    /// Tell a pane about a mouse button.
    SendMouse { pane: usize, button: u16, col: u16, row: u16, release: bool },
    /// Tell a pane about a turn of the wheel.
    SendScroll { pane: usize, up: bool, col: u16, row: u16 },
    /// Copy a selection to the clipboard.
    CopySelection(TextSelection),
}

/// Work, with its texts and bytes as sequences.
#[verifier::ext_equal]
pub enum Work {
    WriteBytes { pane: usize, bytes: Seq<u8> },
    AllowClipboard { pane: usize, forward: Seq<Seq<u8>> },
    RequeueClipboard { pane: usize, payloads: Seq<Seq<u8>> },
    CompletePalette { query: Seq<char>, selected: usize },
    PushHistory(Seq<char>),
    RunCommand(Seq<char>),
    SetBuffer { name: Seq<char>, value: Seq<char> },
    PasteBuffer { name: Option<Seq<char>> },
    /// Work that holds neither text nor bytes.
    Plain(Effect),
}

impl View for Effect {
    type V = Work;

    open spec fn view(&self) -> Work {
        match *self {
            Effect::WriteBytes { pane, bytes } => Work::WriteBytes { pane, bytes: bytes@ },
            Effect::AllowClipboard { pane, forward } => Work::AllowClipboard {
                pane,
                forward: bytes::lists(forward@),
            },
            Effect::RequeueClipboard { pane, payloads } => Work::RequeueClipboard {
                pane,
                payloads: bytes::lists(payloads@),
            },
            Effect::CompletePalette { query, selected } => Work::CompletePalette {
                query: query@,
                selected,
            },
            Effect::PushHistory(s) => Work::PushHistory(s@),
            Effect::RunCommand(s) => Work::RunCommand(s@),
            Effect::SetBuffer { name, value } => Work::SetBuffer { name: name@, value: value@ },
            Effect::PasteBuffer { name } => Work::PasteBuffer {
                name: crate::keymap::text_view(name),
            },
            other => Work::Plain(other),
        }
    }
}

/// The work of a list.
pub open spec fn work(v: Seq<Effect>) -> Seq<Work> {
    v.map_values(|e: Effect| e@)
}

/// Adds one piece of work.
pub fn ask(v: &mut Vec<Effect>, e: Effect)
    ensures
        work(final(v)@) == work(old(v)@).push(e@),
{
    v.push(e);
    assert(work(v@) =~= work(old(v)@).push(e@));
}

pub open spec fn plain(e: Effect) -> Work {
    Work::Plain(e)
}

// ─── Changes that occur in many places ─────────────────────

/// Everything is to be drawn.
pub open spec fn redrawn(v: UiView) -> UiView {
    UiView { update: UpdateView { full_redraw: true, ..v.update }, ..v }
}

/// The borders are to be worked out anew.
pub open spec fn with_border_dirty(v: UiView) -> UiView {
    UiView { update: UpdateView { border_dirty: true, ..v.update }, ..v }
}

/// Every pane and the borders are to be drawn.
pub open spec fn marked(v: UiView) -> UiView {
    with_border_dirty(UiView { update: all_marked(v.update, v.layout), ..v })
}

/// A pane is to be drawn.
pub open spec fn pane_marked(v: UiView, id: usize) -> UiView {
    UiView {
        update: UpdateView { dirty_panes: v.update.dirty_panes.insert(id), ..v.update },
        ..v
    }
}

/// A reload of the configuration was asked for.
pub open spec fn reload_asked(v: UiView) -> UiView {
    UiView { settings: Settings { reload_request: true, ..v.settings }, ..v }
}

/// The command palette without a query.
pub open spec fn palette_reset(v: UiView, indexed: bool) -> UiView {
    UiView { palette: PaletteView { query: seq![], selected: 0, indexed }, ..v }
}

pub open spec fn in_mode(v: UiView, mode: ModeView) -> UiView {
    UiView { mode, ..v }
}

impl Ui {
    pub fn mark_layout(&mut self)
        ensures
            final(self)@ == marked(old(self)@),
    {
        self.update.mark_all(&self.layout);
        self.update.border_dirty = true;
    }

    pub fn redraw(&mut self)
        ensures
            final(self)@ == redrawn(old(self)@),
    {
        self.update.full_redraw = true;
    }

    pub fn set_border_dirty(&mut self)
        ensures
            final(self)@ == with_border_dirty(old(self)@),
    {
        self.update.border_dirty = true;
    }

    pub fn mark_pane(&mut self, id: usize)
        ensures
            final(self)@ == pane_marked(old(self)@, id),
    {
        self.update.mark(id);
    }

    pub fn set_mode(&mut self, mode: InputMode)
        ensures
            final(self)@ == in_mode(old(self)@, mode@),
    {
        self.mode = mode;
    }

    pub fn set_tab_action(&mut self, action: TabAction)
        ensures
            final(self)@ == (UiView { tab_action: action@, ..old(self)@ }),
    {
        self.tab_action = action;
    }

    pub fn set_active(&mut self, id: usize)
        ensures
            final(self)@ == (UiView { active: id, ..old(self)@ }),
    {
        self.active = id;
    }

    pub fn set_broadcast(&mut self, on: bool)
        ensures
            final(self)@ == (UiView { broadcast: on, ..old(self)@ }),
    {
        self.broadcast = on;
    }

    pub fn set_zoomed(&mut self, pane: Option<usize>)
        ensures
            final(self)@ == (UiView { zoomed_pane: pane, ..old(self)@ }),
    {
        self.zoomed_pane = pane;
    }

    pub fn ask_detach(&mut self)
        ensures
            final(self)@ == (UiView { detach_requested: true, ..old(self)@ }),
    {
        self.detach_requested = true;
    }

    pub fn ask_reload(&mut self)
        ensures
            final(self)@ == reload_asked(old(self)@),
    {
        self.settings.reload_request = true;
    }

    /// Empties the command palette.
    pub fn reset_palette(&mut self, indexed: bool)
        ensures
            final(self)@ == palette_reset(old(self)@, indexed),
    {
        self.palette.query = String::new();
        self.palette.selected = 0;
        self.palette.indexed = indexed;
        assert(self.palette.query@ =~= seq![]);
    }

    /// Sets a transient message.
    pub fn flash(&mut self, text: String, now: u64)
        ensures
            final(self)@ == (UiView { flash_message: Some((text@, now)), ..old(self)@ }),
    {
        self.flash_message = Some((text, now));
    }
}

/// In reading order the row decides, and the column only within a row.
pub proof fn rows_decide_the_reading_order(r1: u16, c1: u16, r2: u16, c2: u16)
    ensures
        r1 < r2 ==> reads_before(r1, c1, r2, c2) && !reads_before(r2, c2, r1, c1),
        r1 == r2 ==> (reads_before(r1, c1, r2, c2) <==> c1 <= c2),
{
}

} // verus!
