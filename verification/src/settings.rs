//! The settings panel, transient messages and reloading of the configuration.

use vstd::prelude::*;
use vstd::string::*;

use crate::keymap;
use crate::keys::{KeyCode, KeyEvent};
use crate::paths;
use crate::render::BorderStyle;
use crate::text;

pub mod meanings;
pub mod panel;

verus! {

/// Width of the panel.
pub const W: u16 = 52;

/// Height of the panel.
pub const H: u16 = 20;

/// Number of items of the panel.
pub const ITEM_COUNT: usize = 9;

/// The part of the configuration that a running session holds.
#[derive(Clone, Debug)]
pub struct EzpnConfig {
    pub border: BorderStyle,
    pub shell: String,
    pub scrollback: usize,
    pub show_status_bar: bool,
    pub show_tab_bar: bool,
    pub prefix_key: char,
}

/// How a transient message is shown.
#[derive(Debug, Clone, Copy, PartialEq, Eq, Structural)]
pub enum FlashKind {
    /// Success, for one second.
    Info,
    /// Failure, for three seconds.
    Error,
}

/// How long a transient message stays (milliseconds).
pub open spec fn flash_time(kind: FlashKind) -> u64 {
    match kind {
        FlashKind::Info => 1_000,
        FlashKind::Error => 3_000,
    }
}

impl FlashKind {
    pub fn duration(self) -> (r: u64)
        ensures
            r == flash_time(self),
    {
        match self {
            FlashKind::Info => 1_000,
            FlashKind::Error => 3_000,
        }
    }
}

#[derive(Clone, Debug)]
pub struct Settings {
    pub visible: bool,
    pub border_style: BorderStyle,
    pub show_status_bar: bool,
    pub show_tab_bar: bool,
    /// The item of the panel that has the focus.
    pub focused: usize,
    /// The configuration that was loaded last.
    pub runtime: Option<EzpnConfig>,
    /// A reload was asked for.
    pub reload_request: bool,
    /// A reload changed what is drawn.
    pub reload_dirty: bool,
    /// A transient message, its kind and when it was set (milliseconds).
    pub flash_message: Option<(String, FlashKind, u64)>,
}

/// What the panel asks of the caller.
#[derive(Clone, Copy, Debug, PartialEq, Eq, Structural)]
pub enum SettingsAction {
    Nothing,
    Close,
    Changed,
    BroadcastToggle,
}

/// The item of a border style.
pub open spec fn border_item(style: BorderStyle) -> usize {
    match style {
        BorderStyle::Single => 0,
        BorderStyle::Rounded => 1,
        BorderStyle::Heavy => 2,
        BorderStyle::Double => 3,
        BorderStyle::Blank => 4,
    }
}

/// The border style of an item.
pub open spec fn item_border(item: int) -> BorderStyle {
    if item == 0 {
        BorderStyle::Single
    } else if item == 1 {
        BorderStyle::Rounded
    } else if item == 2 {
        BorderStyle::Heavy
    } else if item == 3 {
        BorderStyle::Double
    } else {
        BorderStyle::Blank
    }
}

/// The five border styles and their items stand for each other.
pub proof fn border_items_agree(style: BorderStyle)
    ensures
        border_item(style) < 5,
        item_border(border_item(style) as int) == style,
{
}

pub open spec fn with_border(s: Settings, item: int) -> Settings {
    Settings { border_style: item_border(item), focused: item as usize, ..s }
}

/// The panel after an item was activated, and what is asked of the caller.
pub open spec fn activated(s: Settings, item: int) -> (Settings, SettingsAction) {
    if 0 <= item < 5 {
        (with_border(s, item), SettingsAction::Changed)
    } else if item == 5 {
        (Settings { show_status_bar: !s.show_status_bar, ..s }, SettingsAction::Changed)
    } else if item == 6 {
        (Settings { show_tab_bar: !s.show_tab_bar, ..s }, SettingsAction::Changed)
    } else if item == 7 {
        (s, SettingsAction::BroadcastToggle)
    } else if item == 8 {
        (Settings { visible: false, ..s }, SettingsAction::Close)
    } else {
        (s, SettingsAction::Nothing)
    }
}

/// The panel after a step left or right: on a border style the step goes to
/// the style before or after the one in force, all around.
pub open spec fn adjusted(s: Settings, right: bool) -> (Settings, SettingsAction) {
    if s.focused < 5 {
        let i = border_item(s.border_style) as int;
        let n = if right {
            (i + 1) % 5
        } else {
            (i + 4) % 5
        };
        (with_border(s, n), SettingsAction::Changed)
    } else if s.focused < 8 {
        activated(s, s.focused as int)
    } else {
        (s, SettingsAction::Nothing)
    }
}

/// The panel shown or hidden. When it is shown, the focus goes to the border
/// style in force.
pub open spec fn toggled(s: Settings) -> Settings {
    Settings {
        visible: !s.visible,
        focused: if s.visible {
            s.focused
        } else {
            border_item(s.border_style)
        },
        ..s
    }
}

/// The panel after a key.
pub open spec fn key_handled(s: Settings, code: KeyCode) -> (Settings, SettingsAction) {
    match code {
        KeyCode::Esc => (Settings { visible: false, ..s }, SettingsAction::Close),
        KeyCode::Up | KeyCode::BackTab => moved_up(s),
        KeyCode::Down | KeyCode::Tab => moved_down(s),
        KeyCode::Left => adjusted(s, false),
        KeyCode::Right => adjusted(s, true),
        KeyCode::Enter => activated(s, s.focused as int),
        KeyCode::Char(c) => if c == 'q' {
            (Settings { visible: false, ..s }, SettingsAction::Close)
        } else if c == 'k' {
            moved_up(s)
        } else if c == 'j' {
            moved_down(s)
        } else if c == 'h' {
            adjusted(s, false)
        } else if c == 'l' {
            adjusted(s, true)
        } else if '1' <= c <= '5' {
            (with_border(s, c as int - '1' as int), SettingsAction::Changed)
        } else if c == ' ' {
            activated(s, s.focused as int)
        } else {
            (s, SettingsAction::Nothing)
        },
        _ => (s, SettingsAction::Nothing),
    }
}

pub open spec fn moved_up(s: Settings) -> (Settings, SettingsAction) {
    (
        Settings {
            focused: if s.focused == 0 {
                0
            } else {
                (s.focused - 1) as usize
            },
            ..s
        },
        SettingsAction::Nothing,
    )
}

pub open spec fn moved_down(s: Settings) -> (Settings, SettingsAction) {
    (
        Settings {
            focused: if s.focused >= 8 {
                8
            } else {
                (s.focused + 1) as usize
            },
            ..s
        },
        SettingsAction::Nothing,
    )
}

/// The row of an item within the panel.
pub open spec fn item_row(item: int) -> int {
    if item < 5 {
        5 + item
    } else if item < 8 {
        7 + item
    } else {
        16
    }
}

/// The item on a row of the panel.
pub open spec fn row_item(row: int) -> Option<int> {
    if 5 <= row <= 9 {
        Some(row - 5)
    } else if 12 <= row <= 14 {
        Some(row - 7)
    } else if row == 16 {
        Some(8)
    } else {
        None
    }
}

/// Rows and items agree.
pub proof fn rows_and_items_agree(item: int)
    requires
        0 <= item < 9,
    ensures
        row_item(item_row(item)) == Some(item),
{
}

/// The top left cell of the panel, which stands in the middle of the screen.
pub open spec fn panel_origin(tw: u16, th: u16) -> (int, int) {
    (
        if tw >= 52 {
            (tw - 52) / 2
        } else {
            0
        },
        if th >= 20 {
            (th - 20) / 2
        } else {
            0
        },
    )
}

/// The panel after a click: one outside closes it, one on an item gives it the
/// focus and activates it.
pub open spec fn click_handled(s: Settings, mx: u16, my: u16, tw: u16, th: u16) -> (
    Settings,
    SettingsAction,
) {
    let (ox, oy) = panel_origin(tw, th);
    if mx < ox || mx >= ox + 52 || my < oy || my >= oy + 20 {
        (Settings { visible: false, ..s }, SettingsAction::Close)
    } else {
        match row_item(my - oy) {
            Some(i) => activated(Settings { focused: i as usize, ..s }, i),
            None => (s, SettingsAction::Nothing),
        }
    }
}

pub fn origin(tw: u16, th: u16) -> (r: (u16, u16))
    ensures
        (r.0 as int, r.1 as int) == panel_origin(tw, th),
{
    let x: u16 = if tw >= W {
        (tw - W) / 2
    } else {
        0
    };
    let y: u16 = if th >= H {
        (th - H) / 2
    } else {
        0
    };
    (x, y)
}

impl Settings {
    /// The focus is on an item of the panel.
    pub open spec fn wf(self) -> bool {
        self.focused < 9
    }

    pub fn new(border: BorderStyle) -> (r: Settings)
        ensures
            r == (Settings {
                visible: false,
                border_style: border,
                show_status_bar: true,
                show_tab_bar: true,
                focused: 1,
                runtime: None,
                reload_request: false,
                reload_dirty: false,
                flash_message: None,
            }),
            r.wf(),
    {
        Settings {
            visible: false,
            border_style: border,
            show_status_bar: true,
            show_tab_bar: true,
            focused: 1,
            runtime: None,
            reload_request: false,
            reload_dirty: false,
            flash_message: None,
        }
    }

    /// Holds a loaded configuration, which a reload is compared with.
    pub fn bind_runtime(&mut self, config: EzpnConfig)
        ensures
            *final(self) == (Settings { runtime: Some(config), ..*old(self) }),
    {
        self.runtime = Some(config);
    }

    /// The configuration that was loaded last.
    pub fn config(&self) -> (r: &EzpnConfig)
        requires
            self.runtime is Some,
        ensures
            self.runtime == Some(*r),
    {
        self.runtime.as_ref().unwrap()
    }

    /// Sets a transient message in place of any other.
    pub fn set_flash(&mut self, msg: &str, kind: FlashKind, now: u64)
        ensures
            final(self).flash_message matches Some((m, k, t)) && m@ == msg@ && k == kind && t
                == now,
            *final(self) == (Settings {
                flash_message: final(self).flash_message,
                ..*old(self)
            }),
    {
        self.flash_message = Some((msg.to_owned(), kind, now));
    }

    /// Drops the transient message when its time is over.
    pub fn tick_flash(&mut self, now: u64)
        ensures
            *final(self) == match old(self).flash_message {
                Some((_, kind, started)) => if now >= started && now - started >= flash_time(kind) {
                    Settings { flash_message: None, ..*old(self) }
                } else {
                    *old(self)
                },
                None => *old(self),
            },
    {
        let over = match &self.flash_message {
            Some((_, kind, started)) => now >= *started && now - *started >= kind.duration(),
            None => false,
        };
        if over {
            self.flash_message = None;
        }
    }

    /// Shows or hides the panel. When it is shown, the focus goes to the border
    /// style in force.
    pub fn toggle(&mut self)
        requires
            old(self).wf(),
        ensures
            final(self).wf(),
            *final(self) == toggled(*old(self)),
    {
        self.visible = !self.visible;
        if self.visible {
            self.focused = match self.border_style {
                BorderStyle::Single => 0,
                BorderStyle::Rounded => 1,
                BorderStyle::Heavy => 2,
                BorderStyle::Double => 3,
                BorderStyle::Blank => 4,
            };
        }
    }

    /// Handles a key while the panel is shown.
    pub fn handle_key(&mut self, key: KeyEvent) -> (r: SettingsAction)
        requires
            old(self).wf(),
        ensures
            final(self).wf(),
            (*final(self), r) == key_handled(*old(self), key.code),
    {
        match key.code {
            KeyCode::Esc | KeyCode::Char('q') => {
                self.visible = false;
                SettingsAction::Close
            },
            KeyCode::Up | KeyCode::BackTab | KeyCode::Char('k') => {
                if self.focused > 0 {
                    self.focused = self.focused - 1;
                }
                SettingsAction::Nothing
            },
            KeyCode::Down | KeyCode::Tab | KeyCode::Char('j') => {
                if self.focused < ITEM_COUNT - 1 {
                    self.focused = self.focused + 1;
                }
                SettingsAction::Nothing
            },
            KeyCode::Left | KeyCode::Char('h') => self.adjust(false),
            KeyCode::Right | KeyCode::Char('l') => self.adjust(true),
            KeyCode::Char('1') => self.set_border(BorderStyle::Single, 0),
            KeyCode::Char('2') => self.set_border(BorderStyle::Rounded, 1),
            KeyCode::Char('3') => self.set_border(BorderStyle::Heavy, 2),
            KeyCode::Char('4') => self.set_border(BorderStyle::Double, 3),
            KeyCode::Char('5') => self.set_border(BorderStyle::Blank, 4),
            KeyCode::Enter | KeyCode::Char(' ') => self.activate(self.focused),
            _ => SettingsAction::Nothing,
        }
    }

    /// Handles a click while the panel is shown.
    pub fn handle_click(&mut self, mx: u16, my: u16, tw: u16, th: u16) -> (r: SettingsAction)
        requires
            old(self).wf(),
        ensures
            final(self).wf(),
            (*final(self), r) == click_handled(*old(self), mx, my, tw, th),
    {
        let (ox, oy) = origin(tw, th);
        if mx < ox || mx >= ox + W || my < oy || my >= oy + H {
            self.visible = false;
            return SettingsAction::Close;
        }
        let row: u16 = my - oy;
        let item: usize = if 5 <= row && row <= 9 {
            (row - 5) as usize
        } else if 12 <= row && row <= 14 {
            (row - 7) as usize
        } else if row == 16 {
            8
        } else {
            return SettingsAction::Nothing;
        };
        self.focused = item;
        self.activate(item)
    }

    fn adjust(&mut self, right: bool) -> (r: SettingsAction)
        requires
            old(self).wf(),
        ensures
            final(self).wf(),
            (*final(self), r) == adjusted(*old(self), right),
    {
        if self.focused < 5 {
            let i: usize = match self.border_style {
                BorderStyle::Single => 0,
                BorderStyle::Rounded => 1,
                BorderStyle::Heavy => 2,
                BorderStyle::Double => 3,
                BorderStyle::Blank => 4,
            };
            let n: usize = if right {
                (i + 1) % 5
            } else {
                (i + 4) % 5
            };
            let style = if n == 0 {
                BorderStyle::Single
            } else if n == 1 {
                BorderStyle::Rounded
            } else if n == 2 {
                BorderStyle::Heavy
            } else if n == 3 {
                BorderStyle::Double
            } else {
                BorderStyle::Blank
            };
            self.set_border(style, n)
        } else if self.focused < 8 {
            self.activate(self.focused)
        } else {
            SettingsAction::Nothing
        }
    }

    fn activate(&mut self, item: usize) -> (r: SettingsAction)
        requires
            old(self).wf(),
        ensures
            final(self).wf(),
            (*final(self), r) == activated(*old(self), item as int),
    {
        if item == 0 {
            self.set_border(BorderStyle::Single, 0)
        } else if item == 1 {
            self.set_border(BorderStyle::Rounded, 1)
        } else if item == 2 {
            self.set_border(BorderStyle::Heavy, 2)
        } else if item == 3 {
            self.set_border(BorderStyle::Double, 3)
        } else if item == 4 {
            self.set_border(BorderStyle::Blank, 4)
        } else if item == 5 {
            self.show_status_bar = !self.show_status_bar;
            SettingsAction::Changed
        } else if item == 6 {
            self.show_tab_bar = !self.show_tab_bar;
            SettingsAction::Changed
        } else if item == 7 {
            SettingsAction::BroadcastToggle
        } else if item == 8 {
            self.visible = false;
            SettingsAction::Close
        } else {
            SettingsAction::Nothing
        }
    }

    fn set_border(&mut self, style: BorderStyle, focused: usize) -> (r: SettingsAction)
        requires
            focused < 9,
        ensures
            final(self).wf(),
            *final(self) == (Settings { border_style: style, focused, ..*old(self) }),
            r == SettingsAction::Changed,
    {
        self.border_style = style;
        self.focused = focused;
        SettingsAction::Changed
    }
}

// ─── Reloading ─────────────────────────────────────────────

/// Outcome of an attempt to reload the configuration.
#[derive(Debug)]
pub enum ReloadOutcome {
    /// Reloaded. The fields listed changed, but only a restart applies them.
    Reloaded { non_reloadable_changed: Vec<&'static str> },
    /// The configuration could not be read and the one before stays.
    Error(String),
}

pub open spec fn reloadable(field: Seq<char>) -> bool {
    field == "border"@ || field == "status_bar"@ || field == "tab_bar"@ || field == "prefix"@
}

/// Tells whether a running session can take over a changed field.
pub fn is_reloadable(field: &str) -> (r: bool)
    ensures
        r == reloadable(field@),
{
    text::same_text(field, "border") || text::same_text(field, "status_bar") || text::same_text(
        field,
        "tab_bar",
    ) || text::same_text(field, "prefix")
}

/// A line that begins a table: `[`, but not `[[`.
pub open spec fn is_header(line: Seq<char>) -> bool {
    let t = text::trim_start(line);
    t.len() > 0 && t[0] == '[' && !(t.len() > 1 && t[1] == '[')
}

pub open spec fn has_header(contents: Seq<char>) -> bool {
    let lines = text::split_on(contents, '\n');
    exists|i: int| 0 <= i < lines.len() && is_header(#[trigger] lines[i])
}

/// Tells whether any line begins a TOML table.
pub fn has_toml_table_header(contents: &str) -> (r: bool)
    ensures
        r == has_header(contents@),
{
    let lines = text::split_text(contents, '\n');
    let ghost all = text::texts(lines@);
    let mut i: usize = 0;
    while i < lines.len()
        invariant
            i <= lines@.len(),
            all == text::texts(lines@),
            all == text::split_on(contents@, '\n'),
            forall|j: int| 0 <= j < i ==> !is_header(#[trigger] all[j]),
        decreases lines@.len() - i,
    {
        assert(all[i as int] == lines@[i as int]@);
        let t = text::trim_start_text(lines[i].as_str());
        let n: usize = t.unicode_len();
        if n > 0 && t.get_char(0) == '[' && !(n > 1 && t.get_char(1) == '[') {
            assert(is_header(all[i as int]));
            return true;
        }
        i += 1;
    }
    false
}

/// The shell and the scrollback that a new configuration is compared with.
pub open spec fn previous(s: Settings, default_shell: Seq<char>, default_scrollback: usize) -> (
    Seq<char>,
    usize,
) {
    match s.runtime {
        Some(c) => (c.shell@, c.scrollback),
        None => (default_shell, default_scrollback),
    }
}

/// The fields that changed and that only a restart applies.
pub open spec fn restart_fields(prev: (Seq<char>, usize), c: EzpnConfig) -> Seq<Seq<char>> {
    (if c.shell@ != prev.0 {
        seq!["shell"@]
    } else {
        seq![]
    }) + (if c.scrollback != prev.1 {
        seq!["scrollback"@]
    } else {
        seq![]
    })
}

/// The settings after a configuration was taken over.
pub open spec fn config_applied(s: Settings, c: EzpnConfig) -> Settings {
    Settings {
        border_style: c.border,
        show_status_bar: c.show_status_bar,
        show_tab_bar: c.show_tab_bar,
        runtime: Some(c),
        reload_dirty: s.reload_dirty || s.border_style != c.border || s.show_status_bar
            != c.show_status_bar || s.show_tab_bar != c.show_tab_bar,
        ..s
    }
}

/// The error of a file that could not be reloaded: it could not be read, or it
/// has tables and is not TOML.
pub open spec fn reload_error(path: Seq<char>, read: Result<Seq<char>, Seq<char>>) -> Option<
    Seq<char>,
> {
    match read {
        Err(e) => Some("read "@ + path + ": "@ + e),
        Ok(contents) => match keymap::toml_read(contents) {
            Err(m) if has_header(contents) => Some(m),
            _ => None,
        },
    }
}

pub open spec fn read_view(read: Result<String, String>) -> Result<Seq<char>, Seq<char>> {
    match read {
        Ok(s) => Ok(s@),
        Err(e) => Err(e@),
    }
}

impl Settings {
    /// Takes over a configuration that was read anew. The names of the fields
    /// that changed and need a restart are returned.
    pub fn apply_config(
        &mut self,
        config: EzpnConfig,
        default_shell: &str,
        default_scrollback: usize,
    ) -> (r: Vec<&'static str>)
        ensures
            *final(self) == config_applied(*old(self), config),
            r@.map_values(|s: &'static str| s@) == restart_fields(
                previous(*old(self), default_shell@, default_scrollback),
                config,
            ),
    {
        let mut changed: Vec<&'static str> = Vec::new();
        let (prev_shell, prev_scrollback): (String, usize) = match &self.runtime {
            Some(c) => (c.shell.clone(), c.scrollback),
            None => (default_shell.to_owned(), default_scrollback),
        };
        if !text::same_text(config.shell.as_str(), prev_shell.as_str()) {
            changed.push("shell");
        }
        if config.scrollback != prev_scrollback {
            changed.push("scrollback");
        }
        assert(changed@.map_values(|s: &'static str| s@) =~= restart_fields(
            previous(*old(self), default_shell@, default_scrollback),
            config,
        ));
        if self.border_style != config.border || self.show_status_bar != config.show_status_bar
            || self.show_tab_bar != config.show_tab_bar {
            self.reload_dirty = true;
        }
        self.border_style = config.border;
        self.show_status_bar = config.show_status_bar;
        self.show_tab_bar = config.show_tab_bar;
        self.runtime = Some(config);
        changed
    }

    /// Reloads the configuration from what was read at `path`. `config` is the
    /// configuration that the file gives. After an error nothing has changed.
    pub fn reload_config(
        &mut self,
        path: &str,
        read: Result<String, String>,
        config: EzpnConfig,
        default_shell: &str,
        default_scrollback: usize,
    ) -> (r: ReloadOutcome)
        ensures
            match reload_error(path@, read_view(read)) {
                Some(m) => *final(self) == *old(self) && (r matches ReloadOutcome::Error(e) && e@
                    == m),
                None => *final(self) == config_applied(*old(self), config) && (
                r matches ReloadOutcome::Reloaded { non_reloadable_changed: v } && v@.map_values(
                    |s: &'static str| s@,
                ) == restart_fields(
                    previous(*old(self), default_shell@, default_scrollback),
                    config,
                )),
            },
    {
        let contents = match read {
            Ok(s) => s,
            Err(e) => {
                let mut msg = "read ".to_owned();
                msg.append(path);
                msg.append(": ");
                msg.append(e.as_str());
                return ReloadOutcome::Error(msg);
            },
        };
        if has_toml_table_header(contents.as_str()) {
            match keymap::read_document(contents.as_str()) {
                Err(m) => {
                    return ReloadOutcome::Error(m);
                },
                Ok(_) => {},
            }
        }
        let changed = self.apply_config(config, default_shell, default_scrollback);
        ReloadOutcome::Reloaded { non_reloadable_changed: changed }
    }
}

/// The directory that configuration files are looked for in.
pub open spec fn config_dir(xdg: Option<Seq<char>>, home: Option<Seq<char>>) -> Seq<char> {
    match xdg {
        Some(d) => d,
        None => paths::joined(
            match home {
                Some(h) => h,
                None => "/tmp"@,
            },
            ".config"@,
        ),
    }
}

/// The path of the configuration file, from the values of `XDG_CONFIG_HOME` and
/// `HOME`.
pub fn config_path(xdg: Option<&str>, home: Option<&str>) -> (r: String)
    ensures
        r@ == paths::joined(
            paths::joined(config_dir(paths::text_of(xdg), paths::text_of(home)), "ezpn"@),
            "config.toml"@,
        ),
{
    let dir = match xdg {
        Some(d) => d.to_owned(),
        None => paths::join_path(
            match home {
                Some(h) => h,
                None => "/tmp",
            },
            ".config",
        ),
    };
    let sub = paths::join_path(dir.as_str(), "ezpn");
    paths::join_path(sub.as_str(), "config.toml")
}

} // verus!
