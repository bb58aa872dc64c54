//! What the multiplexer keeps track of for the terminal of each pane.

use vstd::prelude::*;
use vstd::string::*;

use crate::bytes;

verus! {

// ─── Mouse reporting ───────────────────────────────────────

/// Which mouse events the program in the pane asked for.
#[derive(Clone, Copy, Debug, PartialEq, Eq, Structural)]
pub enum MouseProtocol {
    Off,
    /// `?1000`: button presses and releases.
    X10,
    /// `?1002`: also motion while a button is down.
    Btn,
    /// `?1003`: any motion.
    Any,
}

/// How mouse events are written to the program.
#[derive(Clone, Copy, Debug, PartialEq, Eq, Structural)]
pub enum MouseEncoding {
    X10,
    /// `?1006`.
    Sgr,
}

#[derive(Clone, Copy, Debug, PartialEq, Eq, Structural)]
pub struct MouseMode {
    pub protocol: MouseProtocol,
    pub encoding: MouseEncoding,
}

impl MouseMode {
    pub fn is_off(&self) -> (r: bool)
        ensures
            r == (self.protocol == MouseProtocol::Off),
    {
        self.protocol == MouseProtocol::Off
    }
}

// ─── Kitty keyboard protocol ───────────────────────────────

/// Flags of the Kitty keyboard protocol. No flag means the legacy encoding.
#[derive(Clone, Copy, Debug, PartialEq, Eq, Structural)]
pub struct KittyKbdFlags(pub u8);

/// All flags that the protocol defines.
pub const KITTY_ALL: u8 = 0x1f;

impl KittyKbdFlags {
    pub fn bits(self) -> (r: u8)
        ensures
            r == self.0,
    {
        self.0
    }
}

/// The stack of flags that a program pushes and pops.
#[derive(Clone, Debug)]
pub struct KittyKbdStack {
    flags: Vec<u8>,
}

impl View for KittyKbdStack {
    type V = Seq<u8>;

    closed spec fn view(&self) -> Seq<u8> {
        self.flags@
    }
}

/// The flags in force: those at the top of the stack.
pub open spec fn kitty_active(stack: Seq<u8>) -> u8 {
    if stack.len() == 0 {
        0
    } else {
        stack.last()
    }
}

/// The stack without its top `n` entries. A program that gives no number, or
/// zero, takes one entry off.
pub open spec fn kitty_popped(stack: Seq<u8>, n: nat) -> Seq<u8> {
    let n = if n == 0 {
        1
    } else {
        n as int
    };
    if n >= stack.len() {
        seq![]
    } else {
        stack.take(stack.len() - n)
    }
}

/// Flags after a change: mode 1 sets them, mode 2 adds to them, mode 3 takes
/// from them. Any other mode leaves them.
pub open spec fn kitty_changed(old_flags: u8, flags: u8, mode: u8) -> u8 {
    if mode == 1 {
        flags
    } else if mode == 2 {
        old_flags | flags
    } else if mode == 3 {
        old_flags & !flags
    } else {
        old_flags
    }
}

/// The stack with its top changed. On an empty stack the change makes an entry.
pub open spec fn kitty_modified(stack: Seq<u8>, flags: u8, mode: u8) -> Seq<u8> {
    let top = kitty_changed(kitty_active(stack), flags, mode);
    if stack.len() == 0 {
        seq![top]
    } else {
        stack.drop_last().push(top)
    }
}

/// A pop takes back what a push put on the stack.
pub proof fn pop_undoes_push(stack: Seq<u8>, flags: u8)
    ensures
        kitty_popped(stack.push(flags), 1) == stack,
        kitty_active(stack.push(flags)) == flags,
{
    assert(kitty_popped(stack.push(flags), 1) =~= stack);
}

impl KittyKbdStack {
    pub fn new() -> (r: KittyKbdStack)
        ensures
            r@ == Seq::<u8>::empty(),
    {
        KittyKbdStack { flags: Vec::new() }
    }

    pub fn push(&mut self, flags: KittyKbdFlags)
        ensures
            final(self)@ == old(self)@.push(flags.0),
    {
        self.flags.push(flags.0);
    }

    pub fn pop(&mut self, n: usize)
        ensures
            final(self)@ == kitty_popped(old(self)@, n as nat),
    {
        let n: usize = if n == 0 {
            1
        } else {
            n
        };
        let len: usize = self.flags.len();
        if n >= len {
            self.flags.clear();
            assert(self.flags@ =~= seq![]);
        } else {
            self.flags.truncate(len - n);
            assert(self.flags@ =~= old(self).flags@.take(len - n));
        }
    }

    pub fn modify_top(&mut self, flags: KittyKbdFlags, mode: u8)
        ensures
            final(self)@ == kitty_modified(old(self)@, flags.0, mode),
    {
        let current: u8 = self.active().0;
        let top: u8 = if mode == 1 {
            flags.0
        } else if mode == 2 {
            current | flags.0
        } else if mode == 3 {
            current & !flags.0
        } else {
            current
        };
        let _ = self.flags.pop();
        self.flags.push(top);
        assert(self.flags@ =~= kitty_modified(old(self)@, flags.0, mode));
    }

    pub fn active(&self) -> (r: KittyKbdFlags)
        ensures
            r.0 == kitty_active(self@),
    {
        let n: usize = self.flags.len();
        if n == 0 {
            KittyKbdFlags(0)
        } else {
            KittyKbdFlags(self.flags[n - 1])
        }
    }

    pub fn depth(&self) -> (r: usize)
        ensures
            r == self@.len(),
    {
        self.flags.len()
    }
}

// ─── Clipboard policy ──────────────────────────────────────

/// What happens when a program sets the clipboard.
#[derive(Clone, Copy, Debug, PartialEq, Eq, Structural)]
pub enum Osc52SetPolicy {
    Allow,
    Deny,
    Confirm,
}

/// What happens when a program reads the clipboard.
#[derive(Clone, Copy, Debug, PartialEq, Eq, Structural)]
pub enum Osc52GetPolicy {
    Allow,
    Deny,
}

/// What the user answered for a pane.
#[derive(Clone, Copy, Debug, PartialEq, Eq, Structural)]
pub enum Osc52Decision {
    Pending,
    Allowed,
    Denied,
}

#[derive(Clone, Copy, Debug, PartialEq, Eq, Structural)]
pub struct ClipboardPolicy {
    pub set: Osc52SetPolicy,
    pub get: Osc52GetPolicy,
    /// Longest clipboard payload that is let through.
    pub max_bytes: usize,
}

impl Default for ClipboardPolicy {
    /// Setting the clipboard needs a confirmation, reading it is denied.
    fn default() -> (r: ClipboardPolicy)
        ensures
            r.set == Osc52SetPolicy::Confirm,
            r.get == Osc52GetPolicy::Deny,
            r.max_bytes == 1_048_576,
    {
        ClipboardPolicy {
            set: Osc52SetPolicy::Confirm,
            get: Osc52GetPolicy::Deny,
            max_bytes: 1_048_576,
        }
    }
}

// ─── Theme ─────────────────────────────────────────────────

#[derive(Clone, Copy, Debug, PartialEq, Eq, Structural)]
pub struct Rgb {
    pub r: u8,
    pub g: u8,
    pub b: u8,
}

pub open spec fn hex_digit(n: u8) -> char {
    if n < 10 {
        ((0x30 + n) as u8) as char
    } else {
        ((0x61 + n - 10) as u8) as char
    }
}

/// A colour component as four hexadecimal digits: its two, twice.
pub open spec fn hex_pair_twice(b: u8) -> Seq<char> {
    seq![hex_digit(b / 16), hex_digit(b % 16), hex_digit(b / 16), hex_digit(b % 16)]
}

pub open spec fn xterm_rgb(c: Rgb) -> Seq<char> {
    "rgb:"@ + hex_pair_twice(c.r) + seq!['/'] + hex_pair_twice(c.g) + seq!['/'] + hex_pair_twice(
        c.b,
    )
}

fn hex_char(n: u8) -> (r: char)
    requires
        n < 16,
    ensures
        r == hex_digit(n),
{
    if n < 10 {
        (0x30 + n) as char
    } else {
        (0x61 + (n - 10)) as char
    }
}

fn push_hex(out: &mut String, b: u8)
    ensures
        final(out)@ == old(out)@ + hex_pair_twice(b),
{
    out.push(hex_char(b / 16));
    out.push(hex_char(b % 16));
    out.push(hex_char(b / 16));
    out.push(hex_char(b % 16));
    assert(out@ =~= old(out)@ + hex_pair_twice(b));
}

impl Rgb {
    pub fn new(r: u8, g: u8, b: u8) -> (c: Rgb)
        ensures
            c == (Rgb { r, g, b }),
    {
        Rgb { r, g, b }
    }

    /// The colour as X11 writes it: `rgb:rrrr/gggg/bbbb`.
    pub fn to_xterm_rgb_str(self) -> (r: String)
        ensures
            r@ == xterm_rgb(self),
    {
        let mut out = "rgb:".to_owned();
        push_hex(&mut out, self.r);
        out.push('/');
        push_hex(&mut out, self.g);
        out.push('/');
        push_hex(&mut out, self.b);
        assert(out@ =~= xterm_rgb(self));
        out
    }
}

/// The colours of the active theme. Where none is set, colour queries are left
/// to the host terminal.
#[derive(Clone, Debug)]
pub struct ThemePalette {
    pub fg: Option<Rgb>,
    pub bg: Option<Rgb>,
    pub cursor: Option<Rgb>,
    /// The colours by index.
    pub palette: Vec<Option<Rgb>>,
}

impl Default for ThemePalette {
    fn default() -> (r: ThemePalette)
        ensures
            r.wf(),
            !r.active(),
            r.fg is None && r.bg is None && r.cursor is None,
            forall|i: int| 0 <= i < 256 ==> r.palette@[i] is None,
    {
        let mut palette: Vec<Option<Rgb>> = Vec::new();
        let mut i: usize = 0;
        while i < 256
            invariant
                i <= 256,
                palette@.len() == i,
                forall|j: int| 0 <= j < i ==> palette@[j] is None,
            decreases 256 - i,
        {
            palette.push(None);
            i += 1;
        }
        ThemePalette { fg: None, bg: None, cursor: None, palette }
    }
}

impl ThemePalette {
    /// There is an entry for each of the 256 indices.
    pub open spec fn wf(self) -> bool {
        self.palette@.len() == 256
    }

    pub open spec fn active(self) -> bool {
        self.fg is Some || self.bg is Some || self.cursor is Some || exists|i: int|
            0 <= i < self.palette@.len() && (#[trigger] self.palette@[i]) is Some
    }

    /// Tells whether any colour is set.
    pub fn is_active(&self) -> (r: bool)
        ensures
            r == self.active(),
    {
        if self.fg.is_some() || self.bg.is_some() || self.cursor.is_some() {
            return true;
        }
        let mut i: usize = 0;
        while i < self.palette.len()
            invariant
                i <= self.palette@.len(),
                self.fg is None && self.bg is None && self.cursor is None,
                forall|j: int| 0 <= j < i ==> (#[trigger] self.palette@[j]) is None,
            decreases self.palette@.len() - i,
        {
            if self.palette[i].is_some() {
                return true;
            }
            i += 1;
        }
        false
    }
}

// ─── State of one pane ─────────────────────────────────────

#[derive(Clone, Debug)]
pub struct PaneTerminalState {
    /// `?2004`.
    pub bracketed_paste: bool,
    /// `?1004`.
    pub focus_reporting: bool,
    pub mouse_mode: MouseMode,
    pub kitty_kbd: KittyKbdStack,
    /// The directory that the shell reported last, and when (milliseconds).
    pub reported_cwd: Option<(String, u64)>,
    pub osc52_decision: Osc52Decision,
    /// Clipboard sequences that wait for the user's answer.
    pub osc52_pending_confirm: Vec<Vec<u8>>,
}

#[verifier::ext_equal]
pub struct PaneTerminalView {
    pub bracketed_paste: bool,
    pub focus_reporting: bool,
    pub mouse_mode: MouseMode,
    pub kitty_kbd: Seq<u8>,
    pub reported_cwd: Option<(Seq<char>, u64)>,
    pub osc52_decision: Osc52Decision,
    pub osc52_pending_confirm: Seq<Seq<u8>>,
}

pub open spec fn cwd_view(cwd: Option<(String, u64)>) -> Option<(Seq<char>, u64)> {
    match cwd {
        Some((p, t)) => Some((p@, t)),
        None => None,
    }
}

impl View for PaneTerminalState {
    type V = PaneTerminalView;

    open spec fn view(&self) -> PaneTerminalView {
        PaneTerminalView {
            bracketed_paste: self.bracketed_paste,
            focus_reporting: self.focus_reporting,
            mouse_mode: self.mouse_mode,
            kitty_kbd: self.kitty_kbd@,
            reported_cwd: cwd_view(self.reported_cwd),
            osc52_decision: self.osc52_decision,
            osc52_pending_confirm: bytes::lists(self.osc52_pending_confirm@),
        }
    }
}

/// The state of a terminal that nothing was written to.
pub open spec fn fresh_terminal() -> PaneTerminalView {
    PaneTerminalView {
        bracketed_paste: false,
        focus_reporting: false,
        mouse_mode: MouseMode { protocol: MouseProtocol::Off, encoding: MouseEncoding::X10 },
        kitty_kbd: seq![],
        reported_cwd: None,
        osc52_decision: Osc52Decision::Pending,
        osc52_pending_confirm: seq![],
    }
}

impl PaneTerminalState {
    pub fn new() -> (r: PaneTerminalState)
        ensures
            r@ == fresh_terminal(),
    {
        let pending: Vec<Vec<u8>> = Vec::new();
        assert(bytes::lists(pending@) =~= seq![]);
        PaneTerminalState {
            bracketed_paste: false,
            focus_reporting: false,
            mouse_mode: MouseMode { protocol: MouseProtocol::Off, encoding: MouseEncoding::X10 },
            kitty_kbd: KittyKbdStack::new(),
            reported_cwd: None,
            osc52_decision: Osc52Decision::Pending,
            osc52_pending_confirm: pending,
        }
    }
}

/// A colour is written red, green, blue, each as its two hexadecimal digits
/// twice.
pub proof fn colors_are_written_in_order(c: Rgb)
    ensures
        ({
            let t = xterm_rgb(c);
            &&& t.len() == 18
            &&& t[0] == 'r' && t[1] == 'g' && t[2] == 'b' && t[3] == ':' && t[8] == '/' && t[13]
                == '/'
            &&& t[4] == hex_digit(c.r / 16) && t[5] == hex_digit(c.r % 16)
            &&& t[9] == hex_digit(c.g / 16) && t[10] == hex_digit(c.g % 16)
            &&& t[14] == hex_digit(c.b / 16) && t[15] == hex_digit(c.b % 16)
            &&& t.subrange(4, 6) == t.subrange(6, 8)
            &&& t.subrange(9, 11) == t.subrange(11, 13)
            &&& t.subrange(14, 16) == t.subrange(16, 18)
        }),
        hex_digit(0) == '0' && hex_digit(9) == '9' && hex_digit(10) == 'a' && hex_digit(15) == 'f',
{
    reveal_strlit("rgb:");
    let t = xterm_rgb(c);
    assert(t.subrange(4, 6) =~= t.subrange(6, 8));
    assert(t.subrange(9, 11) =~= t.subrange(11, 13));
    assert(t.subrange(14, 16) =~= t.subrange(16, 18));
}

} // verus!
