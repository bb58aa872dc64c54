//! Interception of the escape sequences that the multiplexer owns.
//!
//! The output of a pane is scanned for clipboard sequences (OSC 52), reports
//! of the working directory (OSC 7), colour queries (OSC 4, 10, 11 and 12), the
//! Kitty keyboard protocol (`CSI ... u`) and private modes (`CSI ? ... h`). The
//! terminal emulator still sees every byte.

use vstd::prelude::*;
use vstd::string::*;

use crate::bytes;
use crate::protocol::{copy_bytes, push_bytes};
use crate::terminal_state;
use crate::terminal_state::{
    ClipboardPolicy, KittyKbdFlags, MouseEncoding, MouseMode, MouseProtocol, Osc52Decision,
    Osc52GetPolicy, Osc52SetPolicy, PaneTerminalState, PaneTerminalView, ThemePalette,
};
use crate::text;

verus! {

/// What interception reads and writes.
#[derive(Clone, Debug)]
pub struct InterceptCtx {
    pub state: PaneTerminalState,
    /// Clipboard sequences to be forwarded to the clients.
    pub osc52_pending: Vec<Vec<u8>>,
    /// An OSC sequence that the last chunk broke off.
    pub osc_carry: Vec<u8>,
    /// A CSI sequence that the last chunk broke off.
    pub csi_carry: Vec<u8>,
    /// Answers to be written to the program in the pane.
    pub replies: Vec<u8>,
}

#[verifier::ext_equal]
pub struct CtxView {
    pub state: PaneTerminalView,
    pub osc52_pending: Seq<Seq<u8>>,
    pub osc_carry: Seq<u8>,
    pub csi_carry: Seq<u8>,
    pub replies: Seq<u8>,
}

impl View for InterceptCtx {
    type V = CtxView;

    open spec fn view(&self) -> CtxView {
        CtxView {
            state: self.state@,
            osc52_pending: bytes::lists(self.osc52_pending@),
            osc_carry: self.osc_carry@,
            csi_carry: self.csi_carry@,
            replies: self.replies@,
        }
    }
}

impl InterceptCtx {
    /// The start of interception, with nothing pending.
    pub fn new() -> (r: InterceptCtx)
        ensures
            r@ == (CtxView {
                state: terminal_state::fresh_terminal(),
                osc52_pending: seq![],
                osc_carry: seq![],
                csi_carry: seq![],
                replies: seq![],
            }),
    {
        let pending: Vec<Vec<u8>> = Vec::new();
        assert(bytes::lists(pending@) =~= seq![]);
        InterceptCtx {
            state: PaneTerminalState::new(),
            osc52_pending: pending,
            osc_carry: Vec::new(),
            csi_carry: Vec::new(),
            replies: Vec::new(),
        }
    }
}

// ─── Where a sequence ends ─────────────────────────────────

/// Tells whether an OSC terminator (BEL, or ESC and a backslash) stands at the
/// front of `s`.
pub open spec fn osc_stops(s: Seq<u8>) -> bool {
    s.len() > 0 && (s[0] == 0x07 || (s[0] == 0x1b && s.len() > 1 && s[1] == 0x5c))
}

/// The length of the OSC payload at the front of `s`: up to its terminator, or
/// all of `s` where there is none.
pub open spec fn osc_len(s: Seq<u8>) -> nat
    decreases s.len(),
{
    if s.len() == 0 || osc_stops(s) {
        0
    } else {
        1 + osc_len(s.skip(1))
    }
}

/// The final byte of a CSI sequence.
pub open spec fn csi_final(b: u8) -> bool {
    0x40 <= b <= 0x7e
}

/// The length of the CSI body at the front of `s`: up to its final byte, or
/// all of `s` where there is none.
pub open spec fn csi_len(s: Seq<u8>) -> nat
    decreases s.len(),
{
    if s.len() == 0 || csi_final(s[0]) {
        0
    } else {
        1 + csi_len(s.skip(1))
    }
}

pub proof fn lemma_osc_len(s: Seq<u8>)
    ensures
        osc_len(s) <= s.len(),
        osc_len(s) < s.len() ==> osc_stops(s.skip(osc_len(s) as int)),
    decreases s.len(),
{
    if s.len() > 0 && !osc_stops(s) {
        lemma_osc_len(s.skip(1));
        assert(s.skip(1).skip(osc_len(s.skip(1)) as int) =~= s.skip(osc_len(s) as int));
    } else {
        assert(s.skip(0) =~= s);
    }
}

pub proof fn lemma_csi_len(s: Seq<u8>)
    ensures
        csi_len(s) <= s.len(),
        csi_len(s) < s.len() ==> csi_final(s[csi_len(s) as int]),
    decreases s.len(),
{
    if s.len() > 0 && !csi_final(s[0]) {
        lemma_csi_len(s.skip(1));
    }
}

pub enum ScanOsc {
    Complete { end: usize },
    Incomplete,
}

/// Find the OSC terminator from `at` on. `end` is the length of the payload.
pub fn scan_osc_terminator(tail: &[u8], at: usize) -> (r: ScanOsc)
    requires
        at <= tail@.len(),
    ensures
        match r {
            ScanOsc::Complete { end } => at + end < tail@.len() && end == osc_len(
                tail@.skip(at as int),
            ),
            ScanOsc::Incomplete => osc_len(tail@.skip(at as int)) == tail@.len() - at,
        },
{
    let n: usize = tail.len();
    let mut i: usize = at;
    while i < n
        invariant
            at <= i <= n,
            n == tail@.len(),
            osc_len(tail@.skip(at as int)) == i - at + osc_len(tail@.skip(i as int)),
        decreases n - i,
    {
        let ghost s = tail@.skip(i as int);
        if tail[i] == 0x07 {
            return ScanOsc::Complete { end: i - at };
        }
        if tail[i] == 0x1b && i + 1 < n && tail[i + 1] == 0x5c {
            return ScanOsc::Complete { end: i - at };
        }
        assert(s.skip(1) =~= tail@.skip(i + 1));
        i += 1;
    }
    ScanOsc::Incomplete
}

pub enum ScanCsi {
    Complete { end: usize, final_byte: u8 },
    Incomplete,
}

/// Find the CSI final byte from `at` on. `end` is the length of the body.
pub fn scan_csi_terminator(tail: &[u8], at: usize) -> (r: ScanCsi)
    requires
        at <= tail@.len(),
    ensures
        match r {
            ScanCsi::Complete { end, final_byte } => at + end < tail@.len() && end == csi_len(
                tail@.skip(at as int),
            ) && final_byte == tail@[at + end],
            ScanCsi::Incomplete => csi_len(tail@.skip(at as int)) == tail@.len() - at,
        },
{
    let n: usize = tail.len();
    let mut i: usize = at;
    while i < n
        invariant
            at <= i <= n,
            n == tail@.len(),
            csi_len(tail@.skip(at as int)) == i - at + csi_len(tail@.skip(i as int)),
        decreases n - i,
    {
        let b: u8 = tail[i];
        if 0x40 <= b && b <= 0x7e {
            return ScanCsi::Complete { end: i - at, final_byte: b };
        }
        assert(tail@.skip(i as int).skip(1) =~= tail@.skip(i + 1));
        i += 1;
    }
    ScanCsi::Incomplete
}

// ─── Private modes ─────────────────────────────────────────

/// The state after one private mode was switched on or off. Switching a mouse
/// protocol off has an effect only while it is the active one.
pub open spec fn decset(v: PaneTerminalView, num: nat, on: bool) -> PaneTerminalView {
    let switched = |p: MouseProtocol|
        PaneTerminalView {
            mouse_mode: MouseMode {
                protocol: if on {
                    p
                } else if v.mouse_mode.protocol == p {
                    MouseProtocol::Off
                } else {
                    v.mouse_mode.protocol
                },
                ..v.mouse_mode
            },
            ..v
        };
    if num == 2004 {
        PaneTerminalView { bracketed_paste: on, ..v }
    } else if num == 1004 {
        PaneTerminalView { focus_reporting: on, ..v }
    } else if num == 1000 {
        switched(MouseProtocol::X10)
    } else if num == 1002 {
        switched(MouseProtocol::Btn)
    } else if num == 1003 {
        switched(MouseProtocol::Any)
    } else if num == 1006 {
        PaneTerminalView {
            mouse_mode: MouseMode {
                encoding: if on {
                    MouseEncoding::Sgr
                } else {
                    MouseEncoding::X10
                },
                ..v.mouse_mode
            },
            ..v
        }
    } else {
        v
    }
}

/// The state after the modes written in the pieces `..k`. A piece that is no
/// number is passed over.
pub open spec fn decset_all(v: PaneTerminalView, pieces: Seq<Seq<u8>>, k: nat, on: bool) -> PaneTerminalView
    decreases k,
{
    if k == 0 {
        v
    } else {
        let w = decset_all(v, pieces, (k - 1) as nat, on);
        match bytes::number(pieces[k - 1], 0xffff_ffff) {
            Some(n) => decset(w, n, on),
            None => w,
        }
    }
}

/// The position of the `h` or `l` that ends a mode sequence, or the length.
pub open spec fn mode_len(s: Seq<u8>) -> nat
    decreases s.len(),
{
    if s.len() == 0 || s[0] == 0x68 || s[0] == 0x6c {
        0
    } else {
        1 + mode_len(s.skip(1))
    }
}

/// The state after the mode sequences `ESC [ ? n ; ... h` (or `l`) of a chunk.
/// One that the chunk breaks off is passed over.
#[verifier::opaque]
pub open spec fn dec_modes(v: PaneTerminalView, s: Seq<u8>) -> PaneTerminalView
    decreases s.len(),
{
    if s.len() <= 3 {
        v
    } else if s[0] != 0x1b || s[1] != 0x5b || s[2] != 0x3f {
        dec_modes(v, s.skip(1))
    } else {
        let body = s.skip(3);
        let n = mode_len(body) as int;
        if n >= body.len() {
            v
        } else {
            let pieces = bytes::split(body.take(n), 0x3b);
            dec_modes(
                decset_all(v, pieces, pieces.len(), body[n] == 0x68),
                body.skip(n + 1),
            )
        }
    }
}

/// Switches one private mode.
pub fn apply_decset(state: &mut PaneTerminalState, num: u32, on: bool)
    ensures
        final(state)@ == decset(old(state)@, num as nat, on),
{
    if num == 2004 {
        state.bracketed_paste = on;
    } else if num == 1004 {
        state.focus_reporting = on;
    } else if num == 1000 {
        switch_protocol(&mut state.mouse_mode, MouseProtocol::X10, on);
    } else if num == 1002 {
        switch_protocol(&mut state.mouse_mode, MouseProtocol::Btn, on);
    } else if num == 1003 {
        switch_protocol(&mut state.mouse_mode, MouseProtocol::Any, on);
    } else if num == 1006 {
        state.mouse_mode.encoding = if on {
            MouseEncoding::Sgr
        } else {
            MouseEncoding::X10
        };
    }
}

fn switch_protocol(mode: &mut MouseMode, p: MouseProtocol, on: bool)
    ensures
        final(mode).encoding == old(mode).encoding,
        final(mode).protocol == if on {
            p
        } else if old(mode).protocol == p {
            MouseProtocol::Off
        } else {
            old(mode).protocol
        },
{
    if on {
        mode.protocol = p;
    } else if mode.protocol == p {
        mode.protocol = MouseProtocol::Off;
    }
}

/// Follows the private modes that a chunk switches.
pub fn track_dec_modes(chunk: &[u8], state: &mut PaneTerminalState)
    ensures
        final(state)@ == dec_modes(old(state)@, chunk@),
{
    proof {
        reveal_with_fuel(dec_modes, 2);
    }
    let n: usize = chunk.len();
    let mut i: usize = 0;
    assert(chunk@.skip(0) =~= chunk@);
    while n - i > 3
        invariant
            i <= n,
            n == chunk@.len(),
            dec_modes(state@, chunk@.skip(i as int)) == dec_modes(old(state)@, chunk@),
        decreases n - i,
    {
        proof {
            reveal_with_fuel(dec_modes, 2);
        }
        let ghost s = chunk@.skip(i as int);
        assert(s.len() > 3 && s[0] == chunk@[i as int] && s[1] == chunk@[i + 1] && s[2] == chunk@[i
            + 2]);
        if chunk[i] != 0x1b || chunk[i + 1] != 0x5b || chunk[i + 2] != 0x3f {
            assert(s.skip(1) =~= chunk@.skip(i + 1));
            i += 1;
            continue;
        }
        let start: usize = i + 3;
        let ghost body = s.skip(3);
        assert(body =~= chunk@.skip(start as int));
        let mut j: usize = start;
        while j < n && chunk[j] != 0x68 && chunk[j] != 0x6c
            invariant
                start <= j <= n,
                n == chunk@.len(),
                mode_len(chunk@.skip(start as int)) == j - start + mode_len(chunk@.skip(j as int)),
            decreases n - j,
        {
            assert(chunk@.skip(j as int).skip(1) =~= chunk@.skip(j + 1));
            j += 1;
        }
        if j == n {
            return;
        }
        let on = chunk[j] == 0x68;
        let inner = copy_bytes(chunk, start, j);
        assert(inner@ =~= body.take(j - start));
        assert(body[j - start] == chunk@[j as int]);
        let pieces = bytes::split_bytes(inner.as_slice(), 0x3b);
        let ghost all = bytes::lists(pieces@);
        let ghost before = state@;
        let mut k: usize = 0;
        while k < pieces.len()
            invariant
                k <= pieces@.len(),
                all == bytes::lists(pieces@),
                state@ == decset_all(before, all, k as nat, on),
            decreases pieces@.len() - k,
        {
            assert(all[k as int] == pieces@[k as int]@);
            match bytes::parse_u32(pieces[k].as_slice()) {
                Some(num) => apply_decset(state, num, on),
                None => {},
            }
            k += 1;
        }
        assert(body.skip(j - start + 1) =~= chunk@.skip(j + 1));
        i = j + 1;
    }
}

// ─── Working directory reports ─────────────────────────────

/// The text of bytes in UTF-8, with what is no UTF-8 replaced.
pub uninterp spec fn lossy_text(b: Seq<u8>) -> Seq<char>;

/// Calls `String::from_utf8_lossy`: bytes that are UTF-8 give their text. What
/// other bytes are replaced by is left to the name `lossy_text`.
#[verifier::external_body]
pub(crate) fn utf8_lossy(b: &[u8]) -> (r: String)
    ensures
        r@ == lossy_text(b@),
        vstd::utf8::valid_utf8(b@) ==> r@ == vstd::utf8::decode_utf8(b@),
{
    String::from_utf8_lossy(b).into_owned()
}

/// Calls `std::str::from_utf8`: the text of bytes that are UTF-8, and nothing
/// for any others.
#[verifier::external_body]
pub(crate) fn utf8_text(b: &[u8]) -> (r: Option<&str>)
    ensures
        match r {
            Some(s) => vstd::utf8::valid_utf8(b@) && s@ == vstd::utf8::decode_utf8(b@),
            None => !vstd::utf8::valid_utf8(b@),
        },
{
    std::str::from_utf8(b).ok()
}

pub open spec fn hex_value(b: u8) -> Option<u8> {
    if 0x30 <= b <= 0x39 {
        Some((b - 0x30) as u8)
    } else if 0x61 <= b <= 0x66 {
        Some((b - 0x61 + 10) as u8)
    } else if 0x41 <= b <= 0x46 {
        Some((b - 0x41 + 10) as u8)
    } else {
        None
    }
}

/// Tells whether an escape `%XX` stands at the front of `s`.
pub open spec fn escaped(s: Seq<u8>) -> bool {
    s.len() > 2 && s[0] == 0x25 && hex_value(s[1]) is Some && hex_value(s[2]) is Some
}

/// The bytes with each escape `%XX` replaced by the byte that it writes.
pub open spec fn unescaped(s: Seq<u8>) -> Seq<u8>
    decreases s.len(),
{
    if s.len() == 0 {
        seq![]
    } else if escaped(s) {
        seq![(hex_value(s[1])->Some_0 * 16 + hex_value(s[2])->Some_0) as u8] + unescaped(s.skip(3))
    } else {
        seq![s[0]] + unescaped(s.skip(1))
    }
}

/// Bytes without a percent sign stay as they are.
pub proof fn plain_bytes_stay(s: Seq<u8>)
    requires
        !s.contains(0x25),
    ensures
        unescaped(s) == s,
    decreases s.len(),
{
    if s.len() > 0 {
        assert(s[0] != 0x25);
        assert forall|i: int| 0 <= i < s.skip(1).len() implies s.skip(1)[i] != 0x25 by {
            assert(s.skip(1)[i] == s[i + 1]);
        }
        plain_bytes_stay(s.skip(1));
        assert(seq![s[0]] + s.skip(1) =~= s);
    }
}

pub fn hex_val(b: u8) -> (r: Option<u8>)
    ensures
        r == hex_value(b),
        r matches Some(n) ==> n < 16,
{
    if 0x30 <= b && b <= 0x39 {
        Some(b - 0x30)
    } else if 0x61 <= b && b <= 0x66 {
        Some(b - 0x61 + 10)
    } else if 0x41 <= b && b <= 0x46 {
        Some(b - 0x41 + 10)
    } else {
        None
    }
}

/// Decodes the escapes `%XX` of a text and leaves anything else alone.
pub fn percent_decode(s: &str) -> (r: String)
    ensures
        r@ == lossy_text(unescaped(vstd::utf8::encode_utf8(s@))),
{
    let b = s.as_bytes();
    let n: usize = b.len();
    let mut out: Vec<u8> = Vec::new();
    let mut i: usize = 0;
    assert(b@.skip(0) =~= b@);
    assert(out@ + unescaped(b@) =~= unescaped(b@));
    while i < n
        invariant
            i <= n,
            n == b@.len(),
            out@ + unescaped(b@.skip(i as int)) == unescaped(b@),
        decreases n - i,
    {
        let ghost t = b@.skip(i as int);
        assert(t[0] == b@[i as int]);
        if b[i] == 0x25 && n - i > 2 {
            assert(t[1] == b@[i + 1] && t[2] == b@[i + 2]);
            match (hex_val(b[i + 1]), hex_val(b[i + 2])) {
                (Some(h), Some(l)) => {
                    assert(t.skip(3) =~= b@.skip(i + 3));
                    let ghost before = out@;
                    let byte: u8 = h * 16 + l;
                    out.push(byte);
                    assert(out@ + unescaped(t.skip(3)) =~= before + (seq![byte] + unescaped(
                        t.skip(3),
                    )));
                    i += 3;
                    continue;
                },
                _ => {},
            }
        }
        assert(!escaped(t));
        assert(t.skip(1) =~= b@.skip(i + 1));
        let ghost before = out@;
        out.push(b[i]);
        assert(out@ + unescaped(t.skip(1)) =~= before + (seq![t[0]] + unescaped(t.skip(1))));
        i += 1;
    }
    assert(b@.skip(n as int) =~= seq![]);
    assert(out@ + seq![] =~= out@);
    utf8_lossy(out.as_slice())
}

/// The part of a text from its first slash on, or all of it where it has none.
pub open spec fn from_slash(s: Seq<char>) -> Seq<char> {
    let n = text::until(s, '/') as int;
    if n < s.len() {
        s.skip(n)
    } else {
        s
    }
}

/// The directory that a report `file://host/path` names.
pub open spec fn reported_dir(rest: Seq<u8>) -> Option<Seq<char>> {
    let s = vstd::utf8::decode_utf8(rest);
    if !vstd::utf8::valid_utf8(rest) || !text::starts_with(s, "file://"@) {
        None
    } else {
        let path = from_slash(s.skip("file://"@.len() as int));
        let dir = lossy_text(unescaped(vstd::utf8::encode_utf8(path)));
        if dir.len() == 0 {
            None
        } else {
            Some(dir)
        }
    }
}

pub open spec fn osc7(v: CtxView, rest: Seq<u8>, now: u64) -> CtxView {
    match reported_dir(rest) {
        Some(dir) => CtxView {
            state: PaneTerminalView { reported_cwd: Some((dir, now)), ..v.state },
            ..v
        },
        None => v,
    }
}

fn handle_osc7(ctx: &mut InterceptCtx, rest: &[u8], now: u64)
    ensures
        final(ctx)@ == osc7(old(ctx)@, rest@, now),
{
    let s = match utf8_text(rest) {
        Some(s) => s,
        None => {
            return;
        },
    };
    let after_scheme = match text::strip_prefix_text(s, "file://") {
        Some(t) => t,
        None => {
            return;
        },
    };
    let path = slash_tail(after_scheme);
    let decoded = percent_decode(path);
    if decoded.as_str().is_empty() {
        return;
    }
    ctx.state.reported_cwd = Some((decoded, now));
}

fn slash_tail(s: &str) -> (r: &str)
    ensures
        r@ == from_slash(s@),
{
    let n: usize = s.unicode_len();
    let mut i: usize = 0;
    assert(s@.skip(0) =~= s@);
    while i < n && s.get_char(i) != '/'
        invariant
            i <= n,
            n == s@.len(),
            text::until(s@, '/') == i + text::until(s@.skip(i as int), '/'),
        decreases n - i,
    {
        assert(s@.skip(i as int).skip(1) =~= s@.skip(i + 1));
        i += 1;
    }
    if i < n {
        let t = s.substring_char(i, n);
        assert(t@ =~= s@.skip(i as int));
        t
    } else {
        s
    }
}

// ─── Clipboard ─────────────────────────────────────────────

/// A payload in its envelope: `ESC ] payload BEL`.
pub open spec fn envelope(payload: Seq<u8>) -> Seq<u8> {
    seq![0x1bu8, 0x5d] + payload + seq![0x07u8]
}

/// The data of a clipboard sequence: what follows the name of the selection.
pub open spec fn osc52_data(rest: Seq<u8>) -> Seq<u8> {
    let p = bytes::position(rest, 0x3b) as int;
    if p < rest.len() {
        rest.skip(p + 1)
    } else {
        seq![]
    }
}

/// The policy in force for a pane: what the user answered, else the
/// configured one.
pub open spec fn set_policy(decision: Osc52Decision, policy: ClipboardPolicy) -> Osc52SetPolicy {
    match decision {
        Osc52Decision::Allowed => Osc52SetPolicy::Allow,
        Osc52Decision::Denied => Osc52SetPolicy::Deny,
        Osc52Decision::Pending => policy.set,
    }
}

/// A clipboard sequence: a read goes through where reading is allowed. A write
/// within the size limit goes through, waits for the user (at most 8 do), or
/// is dropped.
pub open spec fn osc52(v: CtxView, policy: ClipboardPolicy, payload: Seq<u8>, rest: Seq<u8>) -> CtxView {
    let data = osc52_data(rest);
    let env = envelope(payload);
    if data == seq![0x3fu8] {
        if policy.get == Osc52GetPolicy::Allow {
            CtxView { osc52_pending: v.osc52_pending.push(env), ..v }
        } else {
            v
        }
    } else if data.len() > policy.max_bytes {
        v
    } else {
        match set_policy(v.state.osc52_decision, policy) {
            Osc52SetPolicy::Allow => CtxView { osc52_pending: v.osc52_pending.push(env), ..v },
            Osc52SetPolicy::Deny => v,
            Osc52SetPolicy::Confirm => if v.state.osc52_pending_confirm.len() < 8 {
                CtxView {
                    state: PaneTerminalView {
                        osc52_pending_confirm: v.state.osc52_pending_confirm.push(env),
                        ..v.state
                    },
                    ..v
                }
            } else {
                v
            },
        }
    }
}

/// Where writing and reading the clipboard are denied, no clipboard sequence
/// goes through or waits.
pub proof fn denied_clipboard_is_dropped(
    v: CtxView,
    policy: ClipboardPolicy,
    payload: Seq<u8>,
    rest: Seq<u8>,
)
    requires
        policy.get == Osc52GetPolicy::Deny,
        set_policy(v.state.osc52_decision, policy) == Osc52SetPolicy::Deny,
    ensures
        osc52(v, policy, payload, rest) == v,
{
}

fn wrap_envelope(payload: &[u8]) -> (r: Vec<u8>)
    ensures
        r@ == envelope(payload@),
{
    let mut env: Vec<u8> = vec![0x1b, 0x5d];
    push_bytes(&mut env, payload);
    env.push(0x07);
    assert(env@ =~= envelope(payload@));
    env
}

fn is_query(data: &[u8]) -> (r: bool)
    ensures
        r == (data@ == seq![0x3fu8]),
{
    if data.len() == 1 && data[0] == 0x3f {
        assert(data@ =~= seq![0x3fu8]);
        true
    } else {
        assert(data@ != seq![0x3fu8]) by {
            if data@ == seq![0x3fu8] {
                assert(data@.len() == 1 && data@[0] == 0x3f);
            }
        }
        false
    }
}

fn handle_osc52(ctx: &mut InterceptCtx, policy: &ClipboardPolicy, payload: &[u8], from: usize)
    requires
        from <= payload@.len(),
    ensures
        final(ctx)@ == osc52(old(ctx)@, *policy, payload@, payload@.skip(from as int)),
{
    let n: usize = payload.len();
    let p = bytes::find_from(payload, from, 0x3b);
    let ghost rest = payload@.skip(from as int);
    let data = if p < n {
        copy_bytes(payload, p + 1, n)
    } else {
        Vec::new()
    };
    proof {
        if p < n {
            assert(data@ =~= rest.skip(p - from + 1));
        } else {
            assert(data@ =~= seq![]);
        }
    }
    let env = wrap_envelope(payload);
    if is_query(data.as_slice()) {
        if policy.get == Osc52GetPolicy::Allow {
            proof {
                bytes::lemma_lists_push(ctx.osc52_pending@, env);
            }
            ctx.osc52_pending.push(env);
        }
        return;
    }
    if data.len() > policy.max_bytes {
        return;
    }
    let effective = match ctx.state.osc52_decision {
        Osc52Decision::Allowed => Osc52SetPolicy::Allow,
        Osc52Decision::Denied => Osc52SetPolicy::Deny,
        Osc52Decision::Pending => policy.set,
    };
    match effective {
        Osc52SetPolicy::Allow => {
            proof {
                bytes::lemma_lists_push(ctx.osc52_pending@, env);
            }
            ctx.osc52_pending.push(env);
        },
        Osc52SetPolicy::Deny => {},
        Osc52SetPolicy::Confirm => {
            if ctx.state.osc52_pending_confirm.len() < 8 {
                proof {
                    bytes::lemma_lists_push(ctx.state.osc52_pending_confirm@, env);
                }
                ctx.state.osc52_pending_confirm.push(env);
            }
        },
    }
}

// ─── Colour queries ────────────────────────────────────────

/// The answer to a query of one colour.
pub open spec fn color_reply(number: Seq<char>, c: terminal_state::Rgb) -> Seq<u8> {
    vstd::utf8::encode_utf8(
        "\x1b]"@ + number + ";"@ + terminal_state::xterm_rgb(c) + "\x07"@,
    )
}

/// A query of the foreground, background or cursor colour, which is answered
/// where the theme sets that colour.
pub open spec fn osc_color(v: CtxView, number: Seq<char>, value: Option<terminal_state::Rgb>, rest: Seq<u8>) -> CtxView {
    match value {
        Some(c) => if rest == seq![0x3fu8] {
            CtxView { replies: v.replies + color_reply(number, c), ..v }
        } else {
            v
        },
        None => v,
    }
}

/// A query of a colour by index.
pub open spec fn osc4(v: CtxView, palette: ThemePalette, rest: Seq<u8>) -> CtxView {
    let p = bytes::position(rest, 0x3b) as int;
    let spec_part = osc52_data(rest);
    if spec_part != seq![0x3fu8] {
        v
    } else {
        match bytes::number(rest.take(p), 0xffff_ffff) {
            Some(n) => if n < 256 {
                match palette.palette@[n as int] {
                    Some(c) => CtxView {
                        replies: v.replies + color_reply("4;"@ + text::decimal(n), c),
                        ..v
                    },
                    None => v,
                }
            } else {
                v
            },
            None => v,
        }
    }
}

fn push_color_reply(out: &mut Vec<u8>, number: &str, c: terminal_state::Rgb)
    ensures
        final(out)@ == old(out)@ + color_reply(number@, c),
{
    let mut s = "\x1b]".to_owned();
    s.append(number);
    s.append(";");
    s.append(c.to_xterm_rgb_str().as_str());
    s.append("\x07");
    push_bytes(out, s.as_str().as_bytes());
}

fn handle_osc_color(
    ctx: &mut InterceptCtx,
    number: &str,
    value: Option<terminal_state::Rgb>,
    payload: &[u8],
    from: usize,
)
    requires
        from <= payload@.len(),
    ensures
        final(ctx)@ == osc_color(old(ctx)@, number@, value, payload@.skip(from as int)),
{
    let rest = copy_bytes(payload, from, payload.len());
    assert(rest@ =~= payload@.skip(from as int));
    if !is_query(rest.as_slice()) {
        return;
    }
    match value {
        Some(c) => push_color_reply(&mut ctx.replies, number, c),
        None => {},
    }
}

fn handle_osc4(ctx: &mut InterceptCtx, palette: &ThemePalette, payload: &[u8], from: usize)
    requires
        palette.wf(),
        from <= payload@.len(),
    ensures
        final(ctx)@ == osc4(old(ctx)@, *palette, payload@.skip(from as int)),
{
    let n: usize = payload.len();
    let p = bytes::find_from(payload, from, 0x3b);
    let ghost rest = payload@.skip(from as int);
    let idx_bytes = copy_bytes(payload, from, p);
    assert(idx_bytes@ =~= rest.take(p - from));
    if p == n {
        assert(osc52_data(rest) =~= seq![]);
        assert(seq![0x3fu8].len() == 1);
        return;
    }
    let spec_part = copy_bytes(payload, p + 1, n);
    assert(spec_part@ =~= rest.skip(p - from + 1));
    if !is_query(spec_part.as_slice()) {
        return;
    }
    match bytes::parse_u32(idx_bytes.as_slice()) {
        Some(idx) => {
            if idx < 256 {
                match palette.palette[idx as usize] {
                    Some(c) => {
                        let mut number = "4;".to_owned();
                        number.append(text::decimal_text(idx as u128).as_str());
                        push_color_reply(&mut ctx.replies, number.as_str(), c);
                    },
                    None => {},
                }
            }
        },
        None => {},
    }
}

// ─── Dispatch ──────────────────────────────────────────────

/// The effect of an OSC sequence with the given payload. One that the
/// multiplexer does not own (hyperlinks among them) has none.
#[verifier::opaque]
pub open spec fn osc(
    v: CtxView,
    policy: ClipboardPolicy,
    palette: ThemePalette,
    payload: Seq<u8>,
    now: u64,
) -> CtxView {
    if bytes::starts_with(payload, seq![0x35u8, 0x32, 0x3b]) {
        osc52(v, policy, payload, payload.skip(3))
    } else if bytes::starts_with(payload, seq![0x37u8, 0x3b]) {
        osc7(v, payload.skip(2), now)
    } else if bytes::starts_with(payload, seq![0x31u8, 0x30, 0x3b]) {
        osc_color(v, "10"@, palette.fg, payload.skip(3))
    } else if bytes::starts_with(payload, seq![0x31u8, 0x31, 0x3b]) {
        osc_color(v, "11"@, palette.bg, payload.skip(3))
    } else if bytes::starts_with(payload, seq![0x31u8, 0x32, 0x3b]) {
        osc_color(v, "12"@, palette.cursor, payload.skip(3))
    } else if bytes::starts_with(payload, seq![0x34u8, 0x3b]) {
        osc4(v, palette, payload.skip(2))
    } else {
        v
    }
}

/// A hyperlink (OSC 8) is passed through untouched.
pub proof fn hyperlinks_pass_through(
    v: CtxView,
    policy: ClipboardPolicy,
    palette: ThemePalette,
    payload: Seq<u8>,
    now: u64,
)
    requires
        bytes::starts_with(payload, seq![0x38u8, 0x3b]),
    ensures
        osc(v, policy, palette, payload, now) == v,
{
    reveal(osc);
    assert(payload.take(2)[0] == 0x38);
    if bytes::starts_with(payload, seq![0x35u8, 0x32, 0x3b]) {
        assert(payload.take(3)[0] == 0x35);
    }
    if bytes::starts_with(payload, seq![0x37u8, 0x3b]) {
        assert(payload.take(2)[0] == 0x37);
    }
    if bytes::starts_with(payload, seq![0x31u8, 0x30, 0x3b]) {
        assert(payload.take(3)[0] == 0x31);
    }
    if bytes::starts_with(payload, seq![0x31u8, 0x31, 0x3b]) {
        assert(payload.take(3)[0] == 0x31);
    }
    if bytes::starts_with(payload, seq![0x31u8, 0x32, 0x3b]) {
        assert(payload.take(3)[0] == 0x31);
    }
    if bytes::starts_with(payload, seq![0x34u8, 0x3b]) {
        assert(payload.take(2)[0] == 0x34);
    }
}

fn handle_osc(
    ctx: &mut InterceptCtx,
    policy: &ClipboardPolicy,
    palette: &ThemePalette,
    payload: &[u8],
    now: u64,
)
    requires
        palette.wf(),
    ensures
        final(ctx)@ == osc(old(ctx)@, *policy, *palette, payload@, now),
{
    proof {
        reveal(osc);
    }
    assert(payload@.skip(0) =~= payload@);
    let p52: Vec<u8> = vec![0x35, 0x32, 0x3b];
    assert(p52@ =~= seq![0x35u8, 0x32, 0x3b]);
    if bytes::has_bytes_at(payload, 0, &p52) {
        handle_osc52(ctx, policy, payload, 3);
        return;
    }
    let p7: Vec<u8> = vec![0x37, 0x3b];
    assert(p7@ =~= seq![0x37u8, 0x3b]);
    if bytes::has_bytes_at(payload, 0, &p7) {
        let rest = copy_bytes(payload, 2, payload.len());
        assert(rest@ =~= payload@.skip(2));
        handle_osc7(ctx, rest.as_slice(), now);
        return;
    }
    let p10: Vec<u8> = vec![0x31, 0x30, 0x3b];
    assert(p10@ =~= seq![0x31u8, 0x30, 0x3b]);
    if bytes::has_bytes_at(payload, 0, &p10) {
        handle_osc_color(ctx, "10", palette.fg, payload, 3);
        return;
    }
    let p11: Vec<u8> = vec![0x31, 0x31, 0x3b];
    assert(p11@ =~= seq![0x31u8, 0x31, 0x3b]);
    if bytes::has_bytes_at(payload, 0, &p11) {
        handle_osc_color(ctx, "11", palette.bg, payload, 3);
        return;
    }
    let p12: Vec<u8> = vec![0x31, 0x32, 0x3b];
    assert(p12@ =~= seq![0x31u8, 0x32, 0x3b]);
    if bytes::has_bytes_at(payload, 0, &p12) {
        handle_osc_color(ctx, "12", palette.cursor, payload, 3);
        return;
    }
    let p4: Vec<u8> = vec![0x34, 0x3b];
    assert(p4@ =~= seq![0x34u8, 0x3b]);
    if bytes::has_bytes_at(payload, 0, &p4) {
        handle_osc4(ctx, palette, payload, 2);
    }
}

/// A number of 8 bits, or `default` where there is none.
pub open spec fn number_or(s: Seq<u8>, default: u8) -> u8 {
    match bytes::number(s, 0xff) {
        Some(n) => n as u8,
        None => default,
    }
}

pub open spec fn with_kitty(v: CtxView, stack: Seq<u8>) -> CtxView {
    CtxView { state: PaneTerminalView { kitty_kbd: stack, ..v.state }, ..v }
}

/// The effect of a sequence `CSI body u`: `>` pushes flags, `<` pops entries,
/// `=` changes the top, `?` asks for the flags in force.
#[verifier::opaque]
pub open spec fn csi_u(v: CtxView, body: Seq<u8>) -> CtxView {
    let stack = v.state.kitty_kbd;
    if body.len() == 0 {
        v
    } else {
        let rest = body.skip(1);
        if body[0] == 0x3e {
            with_kitty(v, stack.push(number_or(rest, 0) & 0x1f))
        } else if body[0] == 0x3c {
            with_kitty(v, terminal_state::kitty_popped(stack, number_or(rest, 0) as nat))
        } else if body[0] == 0x3d {
            let parts = bytes::split(rest, 0x3b);
            let mode = if parts.len() > 1 {
                number_or(parts[1], 1)
            } else {
                1
            };
            with_kitty(
                v,
                terminal_state::kitty_modified(stack, number_or(parts[0], 0) & 0x1f, mode),
            )
        } else if body[0] == 0x3f {
            CtxView {
                replies: v.replies + vstd::utf8::encode_utf8(
                    "\x1b[?"@ + text::decimal(terminal_state::kitty_active(stack) as nat) + "u"@,
                ),
                ..v
            }
        } else {
            v
        }
    }
}

fn read_number_or(s: &[u8], default: u8) -> (r: u8)
    ensures
        r == number_or(s@, default),
{
    match bytes::parse_u8(s) {
        Some(n) => n,
        None => default,
    }
}

fn handle_csi_u(ctx: &mut InterceptCtx, body: &[u8])
    ensures
        final(ctx)@ == csi_u(old(ctx)@, body@),
{
    proof {
        reveal(csi_u);
    }
    let n: usize = body.len();
    if n == 0 {
        return;
    }
    let rest = copy_bytes(body, 1, n);
    assert(rest@ =~= body@.skip(1));
    let sigil: u8 = body[0];
    if sigil == 0x3e {
        let flags: u8 = read_number_or(rest.as_slice(), 0);
        ctx.state.kitty_kbd.push(KittyKbdFlags(flags & 0x1f));
    } else if sigil == 0x3c {
        let count: u8 = read_number_or(rest.as_slice(), 0);
        ctx.state.kitty_kbd.pop(count as usize);
    } else if sigil == 0x3d {
        let parts = bytes::split_bytes(rest.as_slice(), 0x3b);
        let ghost all = bytes::lists(parts@);
        assert(all[0] == parts@[0]@);
        let flags: u8 = read_number_or(parts[0].as_slice(), 0);
        let mode: u8 = if parts.len() > 1 {
            assert(all[1] == parts@[1]@);
            read_number_or(parts[1].as_slice(), 1)
        } else {
            1
        };
        ctx.state.kitty_kbd.modify_top(KittyKbdFlags(flags & 0x1f), mode);
    } else if sigil == 0x3f {
        let active: u8 = ctx.state.kitty_kbd.active().bits();
        let mut s = "\x1b[?".to_owned();
        s.append(text::decimal_text(active as u128).as_str());
        s.append("u");
        push_bytes(&mut ctx.replies, s.as_str().as_bytes());
    }
}

// ─── Scanning a chunk ──────────────────────────────────────

/// The effect of the sequences in `buf`. A sequence that `buf` breaks off is
/// carried over to the next chunk, unless it is longer than 8192 bytes (OSC)
/// or 256 bytes (CSI).
pub open spec fn scanned(
    v: CtxView,
    policy: ClipboardPolicy,
    palette: ThemePalette,
    buf: Seq<u8>,
    now: u64,
) -> CtxView
    decreases buf.len(),
{
    if buf.len() < 2 {
        v
    } else if buf[0] != 0x1b || (buf[1] != 0x5d && buf[1] != 0x5b) {
        scanned(v, policy, palette, buf.skip(1), now)
    } else if buf[1] == 0x5d {
        let tail = buf.skip(2);
        let n = osc_len(tail) as int;
        if n < tail.len() {
            let stop = if tail[n] == 0x07 {
                1int
            } else {
                2int
            };
            proof {
                lemma_osc_len(tail);
            }
            scanned(
                osc(v, policy, palette, tail.take(n), now),
                policy,
                palette,
                tail.skip(n + stop),
                now,
            )
        } else if buf.len() <= 8192 {
            CtxView { osc_carry: v.osc_carry + buf, ..v }
        } else {
            v
        }
    } else {
        let tail = buf.skip(2);
        let n = csi_len(tail) as int;
        if n < tail.len() {
            scanned(
                if tail[n] == 0x75 {
                    csi_u(v, tail.take(n))
                } else {
                    v
                },
                policy,
                palette,
                tail.skip(n + 1),
                now,
            )
        } else if buf.len() <= 256 {
            CtxView { csi_carry: v.csi_carry + buf, ..v }
        } else {
            v
        }
    }
}

/// The context with nothing carried over.
pub open spec fn without_carry(v: CtxView) -> CtxView {
    CtxView { osc_carry: seq![], csi_carry: seq![], ..v }
}

/// The effect of a chunk of output: the modes that it switches, then the
/// sequences of what was carried over followed by the chunk.
pub open spec fn intercepted(
    v: CtxView,
    policy: ClipboardPolicy,
    palette: ThemePalette,
    chunk: Seq<u8>,
    now: u64,
) -> CtxView {
    scanned(
        without_carry(CtxView { state: dec_modes(v.state, chunk), ..v }),
        policy,
        palette,
        v.osc_carry + v.csi_carry + chunk,
        now,
    )
}

/// Scans a chunk of a pane's output.
pub fn intercept_chunk(
    ctx: &mut InterceptCtx,
    policy: &ClipboardPolicy,
    palette: &ThemePalette,
    chunk: &[u8],
    now: u64,
)
    requires
        palette.wf(),
    ensures
        final(ctx)@ == intercepted(old(ctx)@, *policy, *palette, chunk@, now),
{
    track_dec_modes(chunk, &mut ctx.state);
    let mut buf: Vec<u8> = Vec::new();
    push_bytes(&mut buf, ctx.osc_carry.as_slice());
    push_bytes(&mut buf, ctx.csi_carry.as_slice());
    push_bytes(&mut buf, chunk);
    ctx.osc_carry.clear();
    ctx.csi_carry.clear();
    let n: usize = buf.len();
    let mut i: usize = 0;
    assert(buf@ =~= old(ctx)@.osc_carry + old(ctx)@.csi_carry + chunk@);
    assert(buf@.skip(0) =~= buf@);
    assert(ctx@ =~= without_carry(
        CtxView { state: dec_modes(old(ctx)@.state, chunk@), ..old(ctx)@ },
    ));
    while n - i >= 2
        invariant
            i <= n,
            n == buf@.len(),
            palette.wf(),
            ctx@.osc_carry.len() == 0,
            ctx@.csi_carry.len() == 0,
            scanned(ctx@, *policy, *palette, buf@.skip(i as int), now) == intercepted(
                old(ctx)@,
                *policy,
                *palette,
                chunk@,
                now,
            ),
        decreases n - i,
    {
        let ghost s = buf@.skip(i as int);
        let ghost tail = s.skip(2);
        assert(s[0] == buf@[i as int] && s[1] == buf@[i + 1]);
        assert(tail =~= buf@.skip(i + 2));
        if buf[i] != 0x1b || (buf[i + 1] != 0x5d && buf[i + 1] != 0x5b) {
            assert(s.skip(1) =~= buf@.skip(i + 1));
            i += 1;
            continue;
        }
        if buf[i + 1] == 0x5d {
            match scan_osc_terminator(buf.as_slice(), i + 2) {
                ScanOsc::Complete { end } => {
                    let payload = copy_bytes(buf.as_slice(), i + 2, i + 2 + end);
                    proof {
                        lemma_osc_len(tail);
                        assert(payload@ =~= tail.take(end as int));
                        assert(tail.skip(end as int)[0] == tail[end as int]);
                        assert(tail[end as int] == buf@[i + 2 + end]);
                        lemma_osc_keeps_carry(ctx@, *policy, *palette, payload@, now);
                    }
                    handle_osc(ctx, policy, palette, payload.as_slice(), now);
                    let stop: usize = if buf[i + 2 + end] == 0x07 {
                        1
                    } else {
                        2
                    };
                    assert(tail.skip(end + stop) =~= buf@.skip(i + 2 + end + stop));
                    i = i + 2 + end + stop;
                },
                ScanOsc::Incomplete => {
                    if n - i <= 8192 {
                        let rest = copy_bytes(buf.as_slice(), i, n);
                        assert(rest@ =~= s);
                        push_bytes(&mut ctx.osc_carry, rest.as_slice());
                    }
                    return;
                },
            }
        } else {
            match scan_csi_terminator(buf.as_slice(), i + 2) {
                ScanCsi::Complete { end, final_byte } => {
                    assert(tail[end as int] == buf@[i + 2 + end]);
                    if final_byte == 0x75 {
                        let body = copy_bytes(buf.as_slice(), i + 2, i + 2 + end);
                        assert(body@ =~= tail.take(end as int));
                        proof {
                            lemma_csi_u_keeps_carry(ctx@, body@);
                        }
                        handle_csi_u(ctx, body.as_slice());
                    }
                    assert(tail.skip(end + 1) =~= buf@.skip(i + 2 + end + 1));
                    i = i + 2 + end + 1;
                },
                ScanCsi::Incomplete => {
                    if n - i <= 256 {
                        let rest = copy_bytes(buf.as_slice(), i, n);
                        assert(rest@ =~= s);
                        push_bytes(&mut ctx.csi_carry, rest.as_slice());
                    }
                    return;
                },
            }
        }
    }
}

proof fn lemma_osc_keeps_carry(
    v: CtxView,
    policy: ClipboardPolicy,
    palette: ThemePalette,
    payload: Seq<u8>,
    now: u64,
)
    ensures
        osc(v, policy, palette, payload, now).osc_carry == v.osc_carry,
        osc(v, policy, palette, payload, now).csi_carry == v.csi_carry,
{
    reveal(osc);
}

proof fn lemma_csi_u_keeps_carry(v: CtxView, body: Seq<u8>)
    ensures
        csi_u(v, body).osc_carry == v.osc_carry,
        csi_u(v, body).csi_carry == v.csi_carry,
{
    reveal(csi_u);
}

proof fn lemma_osc_len_longer(s: Seq<u8>, t: Seq<u8>)
    requires
        osc_len(s) < s.len(),
    ensures
        osc_len(s + t) == osc_len(s),
    decreases s.len(),
{
    if osc_stops(s) {
        assert((s + t)[0] == s[0]);
        if s.len() > 1 {
            assert((s + t)[1] == s[1]);
        }
    } else {
        lemma_osc_len_longer(s.skip(1), t);
        assert((s + t).skip(1) =~= s.skip(1) + t);
        assert(s.skip(1).len() > 0);
        assert((s + t)[0] == s[0] && (s + t)[1] == s[1]);
    }
}

proof fn lemma_csi_len_longer(s: Seq<u8>, t: Seq<u8>)
    requires
        csi_len(s) < s.len(),
    ensures
        csi_len(s + t) == csi_len(s),
    decreases s.len(),
{
    assert((s + t)[0] == s[0]);
    if !csi_final(s[0]) {
        lemma_csi_len_longer(s.skip(1), t);
        assert((s + t).skip(1) =~= s.skip(1) + t);
    }
}

/// A sequence that one chunk breaks off and the next one goes on with has the
/// effect that it has in one piece: scanning `a` and then what was carried over
/// with `b` is scanning `a` followed by `b`.
pub proof fn broken_off_sequences_are_joined(
    v: CtxView,
    policy: ClipboardPolicy,
    palette: ThemePalette,
    a: Seq<u8>,
    b: Seq<u8>,
    now: u64,
)
    requires
        v.osc_carry.len() == 0,
        v.csi_carry.len() == 0,
        ({
            let w = scanned(v, policy, palette, a, now);
            w.osc_carry.len() + w.csi_carry.len() > 0
        }),
    ensures
        ({
            let w = scanned(v, policy, palette, a, now);
            scanned(v, policy, palette, a + b, now) == scanned(
                without_carry(w),
                policy,
                palette,
                w.osc_carry + w.csi_carry + b,
                now,
            )
        }),
    decreases a.len(),
{
    let w = scanned(v, policy, palette, a, now);
    if a.len() >= 2 {
        assert((a + b)[0] == a[0] && (a + b)[1] == a[1]);
        let tail = a.skip(2);
        assert((a + b).skip(2) =~= tail + b);
        if a[0] != 0x1b || (a[1] != 0x5d && a[1] != 0x5b) {
            assert((a + b).skip(1) =~= a.skip(1) + b);
            broken_off_sequences_are_joined(v, policy, palette, a.skip(1), b, now);
        } else if a[1] == 0x5d {
            let n = osc_len(tail) as int;
            lemma_osc_len(tail);
            if n < tail.len() {
                lemma_osc_len_longer(tail, b);
                let stop = if tail[n] == 0x07 {
                    1int
                } else {
                    2int
                };
                assert(tail.skip(n)[0] == tail[n]);
                assert((tail + b)[n] == tail[n]);
                assert((tail + b).take(n) =~= tail.take(n));
                assert((tail + b).skip(n + stop) =~= tail.skip(n + stop) + b);
                let u = osc(v, policy, palette, tail.take(n), now);
                lemma_osc_keeps_carry(v, policy, palette, tail.take(n), now);
                broken_off_sequences_are_joined(u, policy, palette, tail.skip(n + stop), b, now);
            } else {
                assert(v.osc_carry + a =~= a);
                assert(w.osc_carry + w.csi_carry + b =~= a + b);
                assert(without_carry(w) =~= v);
            }
        } else {
            let n = csi_len(tail) as int;
            lemma_csi_len(tail);
            if n < tail.len() {
                lemma_csi_len_longer(tail, b);
                assert((tail + b)[n] == tail[n]);
                assert((tail + b).take(n) =~= tail.take(n));
                assert((tail + b).skip(n + 1) =~= tail.skip(n + 1) + b);
                let u = if tail[n] == 0x75 {
                    csi_u(v, tail.take(n))
                } else {
                    v
                };
                lemma_csi_u_keeps_carry(v, tail.take(n));
                broken_off_sequences_are_joined(u, policy, palette, tail.skip(n + 1), b, now);
            } else {
                assert(v.csi_carry + a =~= a);
                assert(w.osc_carry + w.csi_carry + b =~= a + b);
                assert(without_carry(w) =~= v);
            }
        }
    }
}

/// The private modes: 2004 brackets pasted text, 1004 reports the focus, 1000,
/// 1002 and 1003 report the mouse (clicks, drags, every motion), and 1006 reports
/// it in the SGR form. Each changes nothing else.
pub proof fn modes_switch_what_they_name(v: PaneTerminalView, on: bool)
    ensures
        decset(v, 2004, on) == (PaneTerminalView { bracketed_paste: on, ..v }),
        decset(v, 1004, on) == (PaneTerminalView { focus_reporting: on, ..v }),
        decset(v, 1000, true).mouse_mode.protocol == MouseProtocol::X10,
        decset(v, 1002, true).mouse_mode.protocol == MouseProtocol::Btn,
        decset(v, 1003, true).mouse_mode.protocol == MouseProtocol::Any,
        decset(decset(v, 1000, true), 1000, false).mouse_mode.protocol == MouseProtocol::Off,
        decset(decset(v, 1002, true), 1002, false).mouse_mode.protocol == MouseProtocol::Off,
        decset(decset(v, 1003, true), 1003, false).mouse_mode.protocol == MouseProtocol::Off,
        decset(v, 1006, true).mouse_mode.encoding == MouseEncoding::Sgr,
        decset(v, 1006, false).mouse_mode.encoding == MouseEncoding::X10,
        forall|n: nat|
            #![trigger decset(v, n, on)]
            n != 2004 && n != 1004 ==> decset(v, n, on).bracketed_paste == v.bracketed_paste
                && decset(v, n, on).focus_reporting == v.focus_reporting,
        forall|n: nat|
            #![trigger decset(v, n, on)]
            n != 1006 ==> decset(v, n, on).mouse_mode.encoding == v.mouse_mode.encoding,
        forall|n: nat|
            #![trigger decset(v, n, on)]
            n != 1000 && n != 1002 && n != 1003 ==> decset(v, n, on).mouse_mode.protocol
                == v.mouse_mode.protocol,
{
}

/// A query of a colour, `?` after 10, 11 or 12, is answered with the foreground,
/// the background or the cursor colour of the theme, where it sets one.
pub proof fn color_queries_are_answered(
    v: CtxView,
    policy: ClipboardPolicy,
    palette: ThemePalette,
    now: u64,
)
    ensures
        osc(v, policy, palette, seq![0x31u8, 0x30, 0x3b, 0x3f], now) == osc_color(
            v,
            "10"@,
            palette.fg,
            seq![0x3fu8],
        ),
        osc(v, policy, palette, seq![0x31u8, 0x31, 0x3b, 0x3f], now) == osc_color(
            v,
            "11"@,
            palette.bg,
            seq![0x3fu8],
        ),
        osc(v, policy, palette, seq![0x31u8, 0x32, 0x3b, 0x3f], now) == osc_color(
            v,
            "12"@,
            palette.cursor,
            seq![0x3fu8],
        ),
{
    reveal(osc);
    let p10 = seq![0x31u8, 0x30, 0x3b, 0x3f];
    let p11 = seq![0x31u8, 0x31, 0x3b, 0x3f];
    let p12 = seq![0x31u8, 0x32, 0x3b, 0x3f];
    assert(p10.skip(3) =~= seq![0x3fu8]);
    assert(p11.skip(3) =~= seq![0x3fu8]);
    assert(p12.skip(3) =~= seq![0x3fu8]);
    assert(p10.take(3) =~= seq![0x31u8, 0x30, 0x3b]);
    assert(p11.take(3) =~= seq![0x31u8, 0x31, 0x3b]);
    assert(p12.take(3) =~= seq![0x31u8, 0x32, 0x3b]);
    assert(p10.take(3)[1] == 0x30);
    assert(p11.take(3)[1] == 0x31);
    assert(p12.take(3)[1] == 0x32);
    assert(p10.take(2)[1] == 0x30 && p11.take(2)[1] == 0x31 && p12.take(2)[1] == 0x32);
    assert(seq![0x35u8, 0x32, 0x3b][0] == 0x35);
    assert(seq![0x37u8, 0x3b][0] == 0x37);
    assert(seq![0x31u8, 0x30, 0x3b][1] == 0x30);
    assert(seq![0x31u8, 0x31, 0x3b][1] == 0x31);
    assert(p10.take(3)[0] == 0x31 && p11.take(3)[0] == 0x31 && p12.take(3)[0] == 0x31);
    assert(p10.take(2)[0] == 0x31 && p11.take(2)[0] == 0x31 && p12.take(2)[0] == 0x31);
}

/// A program that writes the clipboard gets its way where the user allowed it,
/// and nothing happens where the user did not. Without an answer the configured
/// policy decides: the write goes on, is dropped, or waits for the user.
pub proof fn the_users_answer_decides(
    v: CtxView,
    policy: ClipboardPolicy,
    payload: Seq<u8>,
    rest: Seq<u8>,
)
    requires
        osc52_data(rest) != seq![0x3fu8],
        osc52_data(rest).len() <= policy.max_bytes,
    ensures
        ({
            let now = osc52(v, policy, payload, rest);
            let answer = v.state.osc52_decision;
            let sent = seq![0x1bu8, 0x5d] + payload + seq![0x07u8];
            let open = answer is Pending;
            let waiting = v.state.osc52_pending_confirm;
            &&& answer is Allowed || (open && policy.set is Allow) ==> now.osc52_pending
                == v.osc52_pending.push(sent) && now.state == v.state
            &&& answer is Denied || (open && policy.set is Deny) ==> now == v
            &&& open && policy.set is Confirm ==> now.osc52_pending == v.osc52_pending
            &&& open && policy.set is Confirm && waiting.len() < 8
                ==> now.state.osc52_pending_confirm == waiting.push(sent)
        }),
{
}

} // verus!
