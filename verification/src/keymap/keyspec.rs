//! Key specs: text → the bytes that pressing the keys sends to a terminal.
//!
//! ```text
//! KeySpec  ← Chord (WS Chord)*
//! Chord    ← (Modifier '-')* Atom
//! Modifier ← 'C' / 'M' / 'S'
//! Atom     ← Named / Char+
//! Named    ← Enter | Tab | Esc | Space | Backspace | Delete
//!          | Up | Down | Left | Right
//!          | Home | End | PageUp | PageDown
//!          | F1 .. F12
//! ```
//!
//! `Enter` is `\r` and `Backspace` is DEL, as an unmodified terminal sends
//! them. A modifier on a named key is supported for `S-Tab` and for Alt alone.

use vstd::prelude::*;
use vstd::string::*;

use crate::keys::{KeyCode, KeyEvent, KeyEventKind, KeyModifiers};
use crate::pane::encode;
use crate::protocol::push_bytes;
use crate::text;

verus! {

/// Why a key spec could not be compiled; the text is for the user.
#[derive(Debug, Clone)]
pub struct ParseError {
    msg: String,
}

impl View for ParseError {
    type V = Seq<char>;

    closed spec fn view(&self) -> Seq<char> {
        self.msg@
    }
}

impl ParseError {
    /// The message shown to a user.
    pub fn to_string(&self) -> (r: String)
        ensures
            r@ == self@,
    {
        self.msg.clone()
    }
}

// ─── Named keys ────────────────────────────────────────────

/// The bytes of a named key.
pub open spec fn named_bytes(name: Seq<char>) -> Option<Seq<u8>> {
    if name == "Enter"@ {
        Some(seq![0x0d])
    } else if name == "Tab"@ {
        Some(seq![0x09])
    } else if name == "Esc"@ {
        Some(seq![0x1b])
    } else if name == "Space"@ {
        Some(seq![0x20])
    } else if name == "Backspace"@ {
        Some(seq![0x7f])
    } else if name == "Delete"@ {
        Some(seq![0x1b, 0x5b, 0x33, 0x7e])
    } else if name == "Up"@ {
        Some(seq![0x1b, 0x5b, 0x41])
    } else if name == "Down"@ {
        Some(seq![0x1b, 0x5b, 0x42])
    } else if name == "Left"@ {
        Some(seq![0x1b, 0x5b, 0x44])
    } else if name == "Right"@ {
        Some(seq![0x1b, 0x5b, 0x43])
    } else if name == "Home"@ {
        Some(seq![0x1b, 0x5b, 0x48])
    } else if name == "End"@ {
        Some(seq![0x1b, 0x5b, 0x46])
    } else if name == "PageUp"@ {
        Some(seq![0x1b, 0x5b, 0x35, 0x7e])
    } else if name == "PageDown"@ {
        Some(seq![0x1b, 0x5b, 0x36, 0x7e])
    } else if name == "F1"@ {
        Some(seq![0x1b, 0x4f, 0x50])
    } else if name == "F2"@ {
        Some(seq![0x1b, 0x4f, 0x51])
    } else if name == "F3"@ {
        Some(seq![0x1b, 0x4f, 0x52])
    } else if name == "F4"@ {
        Some(seq![0x1b, 0x4f, 0x53])
    } else if name == "F5"@ {
        Some(seq![0x1b, 0x5b, 0x31, 0x35, 0x7e])
    } else if name == "F6"@ {
        Some(seq![0x1b, 0x5b, 0x31, 0x37, 0x7e])
    } else if name == "F7"@ {
        Some(seq![0x1b, 0x5b, 0x31, 0x38, 0x7e])
    } else if name == "F8"@ {
        Some(seq![0x1b, 0x5b, 0x31, 0x39, 0x7e])
    } else if name == "F9"@ {
        Some(seq![0x1b, 0x5b, 0x32, 0x30, 0x7e])
    } else if name == "F10"@ {
        Some(seq![0x1b, 0x5b, 0x32, 0x31, 0x7e])
    } else if name == "F11"@ {
        Some(seq![0x1b, 0x5b, 0x32, 0x33, 0x7e])
    } else if name == "F12"@ {
        Some(seq![0x1b, 0x5b, 0x32, 0x34, 0x7e])
    } else {
        None
    }
}

/// The three bytes of an escape sequence.
fn esc3(a: u8, b: u8) -> (r: Vec<u8>)
    ensures
        r@ == seq![0x1bu8, a, b],
{
    let mut out: Vec<u8> = Vec::new();
    out.push(0x1b);
    out.push(a);
    out.push(b);
    assert(out@ =~= seq![0x1bu8, a, b]);
    out
}

/// The bytes of `ESC [ a b ~`.
fn tilde2(a: u8, b: u8) -> (r: Vec<u8>)
    ensures
        r@ == seq![0x1bu8, 0x5b, a, b, 0x7e],
{
    let mut out = esc3(0x5b, a);
    out.push(b);
    out.push(0x7e);
    assert(out@ =~= seq![0x1bu8, 0x5b, a, b, 0x7e]);
    out
}

/// The bytes of `ESC [ a ~`.
fn tilde1(a: u8) -> (r: Vec<u8>)
    ensures
        r@ == seq![0x1bu8, 0x5b, a, 0x7e],
{
    let mut out = esc3(0x5b, a);
    out.push(0x7e);
    assert(out@ =~= seq![0x1bu8, 0x5b, a, 0x7e]);
    out
}

fn single(a: u8) -> (r: Vec<u8>)
    ensures
        r@ == seq![a],
{
    let mut out: Vec<u8> = Vec::new();
    out.push(a);
    assert(out@ =~= seq![a]);
    out
}

fn lookup_named(name: &str) -> (r: Option<Vec<u8>>)
    ensures
        match r {
            Some(b) => named_bytes(name@) == Some(b@),
            None => named_bytes(name@) is None,
        },
{
    if text::same_text(name, "Enter") {
        Some(single(0x0d))
    } else if text::same_text(name, "Tab") {
        Some(single(0x09))
    } else if text::same_text(name, "Esc") {
        Some(single(0x1b))
    } else if text::same_text(name, "Space") {
        Some(single(0x20))
    } else if text::same_text(name, "Backspace") {
        Some(single(0x7f))
    } else if text::same_text(name, "Delete") {
        Some(tilde1(0x33))
    } else if text::same_text(name, "Up") {
        Some(esc3(0x5b, 0x41))
    } else if text::same_text(name, "Down") {
        Some(esc3(0x5b, 0x42))
    } else if text::same_text(name, "Left") {
        Some(esc3(0x5b, 0x44))
    } else if text::same_text(name, "Right") {
        Some(esc3(0x5b, 0x43))
    } else if text::same_text(name, "Home") {
        Some(esc3(0x5b, 0x48))
    } else if text::same_text(name, "End") {
        Some(esc3(0x5b, 0x46))
    } else if text::same_text(name, "PageUp") {
        Some(tilde1(0x35))
    } else if text::same_text(name, "PageDown") {
        Some(tilde1(0x36))
    } else if text::same_text(name, "F1") {
        Some(esc3(0x4f, 0x50))
    } else if text::same_text(name, "F2") {
        Some(esc3(0x4f, 0x51))
    } else if text::same_text(name, "F3") {
        Some(esc3(0x4f, 0x52))
    } else if text::same_text(name, "F4") {
        Some(esc3(0x4f, 0x53))
    } else if text::same_text(name, "F5") {
        Some(tilde2(0x31, 0x35))
    } else if text::same_text(name, "F6") {
        Some(tilde2(0x31, 0x37))
    } else if text::same_text(name, "F7") {
        Some(tilde2(0x31, 0x38))
    } else if text::same_text(name, "F8") {
        Some(tilde2(0x31, 0x39))
    } else if text::same_text(name, "F9") {
        Some(tilde2(0x32, 0x30))
    } else if text::same_text(name, "F10") {
        Some(tilde2(0x32, 0x31))
    } else if text::same_text(name, "F11") {
        Some(tilde2(0x32, 0x33))
    } else if text::same_text(name, "F12") {
        Some(tilde2(0x32, 0x34))
    } else {
        None
    }
}

/// Tells whether `token` would compile as a named key.
pub fn is_named_key(token: &str) -> (r: bool)
    ensures
        r == (named_bytes(token@) is Some),
{
    lookup_named(token).is_some()
}

// ─── Chords ────────────────────────────────────────────────

pub open spec fn modifier(s: Seq<char>) -> bool {
    s == seq!['C'] || s == seq!['M'] || s == seq!['S']
}

/// The first letters of the parts `..k`, each of which must be a modifier, or
/// the message for the first that is not.
pub open spec fn modifiers(parts: Seq<Seq<char>>, k: nat) -> Result<Seq<char>, Seq<char>>
    decreases k,
{
    if k == 0 {
        Ok(seq![])
    } else {
        match modifiers(parts, (k - 1) as nat) {
            Err(e) => Err(e),
            Ok(before) => {
                let m = parts[k - 1];
                if m.len() == 0 {
                    Err("malformed chord (empty modifier)"@)
                } else if !modifier(m) {
                    Err("unknown modifier '"@ + m + "'"@)
                } else {
                    Ok(before.push(m[0]))
                }
            },
        }
    }
}

/// A token read as a chord: its modifiers and its atom. `None` where it is no
/// chord because it has no `-` or does not begin with a modifier.
pub open spec fn chord(token: Seq<char>) -> Result<Option<(Seq<char>, Seq<char>)>, Seq<char>> {
    let parts = text::split_on(token, '-');
    if parts.len() < 2 || !modifier(parts[0]) {
        Ok(None)
    } else {
        match modifiers(parts, (parts.len() - 1) as nat) {
            Err(e) => Err(e),
            Ok(mods) => if parts.last().len() == 0 {
                Err("incomplete chord (no atom)"@)
            } else {
                Ok(Some((mods, parts.last())))
            },
        }
    }
}

pub open spec fn upper_byte(b: u8) -> u8 {
    if 0x61 <= b <= 0x7a {
        (b - 0x20) as u8
    } else {
        b
    }
}

/// The byte of an ASCII character under Shift and Ctrl.
pub open spec fn modified_byte(c: char, shift: bool, ctrl: bool) -> u8 {
    let b = if shift {
        upper_byte(c as u8)
    } else {
        c as u8
    };
    if ctrl {
        b & 0x1f
    } else {
        b
    }
}

/// The bytes of an atom under modifiers, or the message for a combination that
/// is not supported.
pub open spec fn chord_bytes(mods: Seq<char>, atom: Seq<char>) -> Result<Seq<u8>, Seq<char>> {
    let alt = mods.contains('M');
    let ctrl = mods.contains('C');
    let shift = mods.contains('S');
    match named_bytes(atom) {
        Some(bytes) => if atom == "Tab"@ && shift && !ctrl && !alt {
            Ok(seq![0x1bu8, 0x5b, 0x5a])
        } else if !shift && !ctrl && alt {
            Ok(seq![0x1bu8] + bytes)
        } else if !shift && !ctrl {
            Ok(bytes)
        } else {
            Err("unsupported modifier on named key '"@ + atom + "'"@)
        },
        None => if atom.len() != 1 {
            Err("modifier prefix valid on single-char atom or Named only; got '"@ + atom + "'"@)
        } else if atom[0] as u32 > 0x7f {
            Err("non-ASCII atom in chord: '"@ + atom + "'"@)
        } else {
            let b = modified_byte(atom[0], shift, ctrl);
            if alt {
                Ok(seq![0x1bu8, b])
            } else {
                Ok(seq![b])
            }
        },
    }
}

/// The bytes of one token, or the message for a bad one. A token that is
/// neither a chord nor a named key stands for its own text.
pub open spec fn token_bytes(token: Seq<char>) -> Result<Seq<u8>, Seq<char>> {
    if token.len() == 0 {
        Err("empty chord"@)
    } else if token.contains('\n') {
        Err("newline in non-literal token; use 'Enter' or --literal"@)
    } else {
        match chord(token) {
            Err(e) => Err(e),
            Ok(Some((mods, atom))) => chord_bytes(mods, atom),
            Ok(None) => match named_bytes(token) {
                Some(bytes) => Ok(bytes),
                None => Ok(vstd::utf8::encode_utf8(token)),
            },
        }
    }
}

proof fn lemma_all_modifiers(parts: Seq<Seq<char>>, k: nat, i: int)
    requires
        modifiers(parts, k) is Ok,
        0 <= i < k,
    ensures
        modifier(parts[i]),
    decreases k,
{
    if i < k - 1 {
        lemma_all_modifiers(parts, (k - 1) as nat, i);
    }
}

/// A chord has a line end only in its atom.
proof fn lemma_chord_newline(token: Seq<char>, mods: Seq<char>, atom: Seq<char>)
    requires
        chord(token) == Ok::<Option<(Seq<char>, Seq<char>)>, Seq<char>>(Some((mods, atom))),
    ensures
        token.contains('\n') == atom.contains('\n'),
        token.len() > 0,
{
    let parts = text::split_on(token, '-');
    let n = parts.len() - 1;
    text::lemma_split_contains(token, '-', '\n');
    if token.contains('\n') {
        let i = choose|i: int| 0 <= i < parts.len() && (#[trigger] parts[i]).contains('\n');
        if i < n {
            lemma_all_modifiers(parts, n as nat, i);
            let k = parts[i].index_of('\n');
            assert(parts[i][k] == '\n');
            assert(seq!['C'][0] == 'C' && seq!['M'][0] == 'M' && seq!['S'][0] == 'S');
        }
    }
    if atom.contains('\n') {
        assert(parts[n].contains('\n'));
    }
    if token.len() == 0 {
        assert(parts.len() == 1);
    }
}

/// The order of the modifiers of a chord and their repetition do not matter:
/// two tokens with the same atom under the same modifiers stand for the same
/// bytes.
pub proof fn modifiers_may_stand_in_any_order(
    a: Seq<char>,
    b: Seq<char>,
    a_mods: Seq<char>,
    b_mods: Seq<char>,
    atom: Seq<char>,
)
    requires
        chord(a) == Ok::<Option<(Seq<char>, Seq<char>)>, Seq<char>>(Some((a_mods, atom))),
        chord(b) == Ok::<Option<(Seq<char>, Seq<char>)>, Seq<char>>(Some((b_mods, atom))),
        a_mods.to_set() == b_mods.to_set(),
    ensures
        token_bytes(a) == token_bytes(b),
{
    lemma_chord_newline(a, a_mods, atom);
    lemma_chord_newline(b, b_mods, atom);
    assert forall|c: char| a_mods.contains(c) == b_mods.contains(c) by {
        assert(a_mods.to_set().contains(c) == a_mods.contains(c));
        assert(b_mods.to_set().contains(c) == b_mods.contains(c));
    }
}

/// The bytes of the tokens `..k` one after the other, or the message for the
/// first bad token.
pub open spec fn tokens_bytes(tokens: Seq<Seq<char>>, k: nat) -> Result<Seq<u8>, Seq<char>>
    decreases k,
{
    if k == 0 {
        Ok(seq![])
    } else {
        match tokens_bytes(tokens, (k - 1) as nat) {
            Err(e) => Err(e),
            Ok(before) => match token_bytes(tokens[k - 1]) {
                Err(e) => Err(e),
                Ok(b) => Ok(before + b),
            },
        }
    }
}

/// Compile a list of chord tokens into the bytes that pressing those keys
/// sends. Nothing is put between the tokens.
pub fn compile_to_bytes(tokens: &[String]) -> (r: Result<Vec<u8>, ParseError>)
    ensures
        tokens@.len() == 0 ==> (r matches Err(e) && e@ == "no keys to send"@),
        tokens@.len() > 0 ==> match r {
            Ok(b) => tokens_bytes(text::texts(tokens@), tokens@.len()) == Ok::<
                Seq<u8>,
                Seq<char>,
            >(b@),
            Err(e) => tokens_bytes(text::texts(tokens@), tokens@.len()) == Err::<
                Seq<u8>,
                Seq<char>,
            >(e@),
        },
{
    if tokens.len() == 0 {
        return Err(err("no keys to send"));
    }
    let ghost all = text::texts(tokens@);
    let mut out: Vec<u8> = Vec::new();
    let mut i: usize = 0;
    assert(out@ =~= seq![]);
    while i < tokens.len()
        invariant
            i <= tokens@.len(),
            tokens@.len() > 0,
            all == text::texts(tokens@),
            tokens_bytes(all, i as nat) == Ok::<Seq<u8>, Seq<char>>(out@),
        decreases tokens@.len() - i,
    {
        assert(all[i as int] == tokens@[i as int]@);
        match compile_token(tokens[i].as_str(), &mut out) {
            Ok(_) => {},
            Err(e) => {
                proof {
                    lemma_error_stays(all, (i + 1) as nat, all.len());
                }
                return Err(e);
            },
        }
        i += 1;
    }
    Ok(out)
}

proof fn lemma_error_stays(tokens: Seq<Seq<char>>, i: nat, k: nat)
    requires
        i <= k,
        tokens_bytes(tokens, i) is Err,
    ensures
        tokens_bytes(tokens, k) == tokens_bytes(tokens, i),
    decreases k - i,
{
    if i < k {
        lemma_error_stays(tokens, i, (k - 1) as nat);
    }
}

/// Compiling a longer list gives the bytes of its first part followed by those
/// of the rest.
pub proof fn tokens_concatenate(a: Seq<Seq<char>>, b: Seq<Seq<char>>)
    requires
        tokens_bytes(a, a.len()) is Ok,
        tokens_bytes(b, b.len()) is Ok,
    ensures
        tokens_bytes(a + b, a.len() + b.len()) == Ok::<Seq<u8>, Seq<char>>(
            tokens_bytes(a, a.len())->Ok_0 + tokens_bytes(b, b.len())->Ok_0,
        ),
{
    lemma_same_prefix(a, a + b, a.len());
    lemma_concatenate(a, b, b.len());
}

proof fn lemma_same_prefix(a: Seq<Seq<char>>, b: Seq<Seq<char>>, k: nat)
    requires
        k <= a.len(),
        k <= b.len(),
        forall|i: int| 0 <= i < k ==> a[i] == b[i],
    ensures
        tokens_bytes(a, k) == tokens_bytes(b, k),
    decreases k,
{
    if k > 0 {
        lemma_same_prefix(a, b, (k - 1) as nat);
    }
}

proof fn lemma_concatenate(a: Seq<Seq<char>>, b: Seq<Seq<char>>, k: nat)
    requires
        k <= b.len(),
        tokens_bytes(a, a.len()) is Ok,
        tokens_bytes(b, b.len()) is Ok,
        tokens_bytes(a + b, a.len()) == tokens_bytes(a, a.len()),
    ensures
        tokens_bytes(b, k) is Ok,
        tokens_bytes(a + b, a.len() + k) == Ok::<Seq<u8>, Seq<char>>(
            tokens_bytes(a, a.len())->Ok_0 + tokens_bytes(b, k)->Ok_0,
        ),
    decreases k,
{
    if tokens_bytes(b, k) is Err {
        lemma_error_stays(b, k, b.len());
    }
    let x = tokens_bytes(a, a.len())->Ok_0;
    if k == 0 {
        assert(x + seq![] =~= x);
    } else {
        let j = (k - 1) as nat;
        lemma_concatenate(a, b, j);
        assert((a + b)[a.len() + k - 1] == b[k - 1]);
        let y = tokens_bytes(b, j)->Ok_0;
        let z = token_bytes(b[k - 1])->Ok_0;
        assert(x + y + z =~= x + (y + z));
    }
}

fn err(msg: &str) -> (r: ParseError)
    ensures
        r@ == msg@,
{
    ParseError { msg: msg.to_owned() }
}

fn err_quoting(before: &str, what: &str) -> (r: ParseError)
    ensures
        r@ == before@ + what@ + "'"@,
{
    let mut msg = before.to_owned();
    msg.append(what);
    msg.append("'");
    ParseError { msg }
}

fn has_char(s: &str, c: char) -> (r: bool)
    ensures
        r == s@.contains(c),
{
    let chars = text::chars_of(s);
    has(&chars, c)
}

fn has(chars: &Vec<char>, c: char) -> (r: bool)
    ensures
        r == chars@.contains(c),
{
    let mut i: usize = 0;
    while i < chars.len()
        invariant
            i <= chars@.len(),
            forall|j: int| 0 <= j < i ==> chars@[j] != c,
        decreases chars@.len() - i,
    {
        if chars[i] == c {
            return true;
        }
        i += 1;
    }
    false
}

fn compile_token(token: &str, out: &mut Vec<u8>) -> (r: Result<(), ParseError>)
    ensures
        match r {
            Ok(_) => token_bytes(token@) is Ok && final(out)@ == old(out)@ + token_bytes(
                token@,
            )->Ok_0,
            Err(e) => token_bytes(token@) == Err::<Seq<u8>, Seq<char>>(e@),
        },
{
    if token.is_empty() {
        return Err(err("empty chord"));
    }
    if has_char(token, '\n') {
        return Err(err("newline in non-literal token; use 'Enter' or --literal"));
    }
    match try_split_chord(token) {
        Err(e) => return Err(e),
        Ok(Some((mods, atom))) => {
            return emit_chord(&mods, atom.as_str(), out);
        },
        Ok(None) => {},
    }
    match lookup_named(token) {
        Some(bytes) => {
            push_bytes(out, bytes.as_slice());
        },
        None => {
            push_bytes(out, token.as_bytes());
        },
    }
    Ok(())
}

fn is_modifier(s: &str) -> (r: bool)
    ensures
        r == modifier(s@),
{
    proof {
        reveal_strlit("C");
        reveal_strlit("M");
        reveal_strlit("S");
        assert("C"@ =~= seq!['C']);
        assert("M"@ =~= seq!['M']);
        assert("S"@ =~= seq!['S']);
    }
    text::same_text(s, "C") || text::same_text(s, "M") || text::same_text(s, "S")
}

fn try_split_chord(token: &str) -> (r: Result<Option<(Vec<char>, String)>, ParseError>)
    ensures
        match r {
            Ok(Some((mods, atom))) => chord(token@) == Ok::<
                Option<(Seq<char>, Seq<char>)>,
                Seq<char>,
            >(Some((mods@, atom@))),
            Ok(None) => chord(token@) == Ok::<Option<(Seq<char>, Seq<char>)>, Seq<char>>(None),
            Err(e) => chord(token@) == Err::<Option<(Seq<char>, Seq<char>)>, Seq<char>>(e@),
        },
{
    let mut parts = text::split_text(token, '-');
    let ghost all = text::texts(parts@);
    let n: usize = parts.len();
    if n < 2 {
        return Ok(None);
    }
    assert(all[0] == parts@[0]@);
    if !is_modifier(parts[0].as_str()) {
        return Ok(None);
    }
    let mut mods: Vec<char> = Vec::new();
    let mut i: usize = 0;
    assert(mods@ =~= seq![]);
    while i < n - 1
        invariant
            2 <= n == parts@.len(),
            i <= n - 1,
            all == text::texts(parts@),
            all == text::split_on(token@, '-'),
            modifier(all[0]),
            modifiers(all, i as nat) == Ok::<Seq<char>, Seq<char>>(mods@),
        decreases n - i,
    {
        let m = parts[i].as_str();
        assert(all[i as int] == m@);
        if m.is_empty() {
            proof {
                lemma_modifier_error_stays(all, (i + 1) as nat, (n - 1) as nat);
            }
            return Err(err("malformed chord (empty modifier)"));
        }
        if !is_modifier(m) {
            proof {
                lemma_modifier_error_stays(all, (i + 1) as nat, (n - 1) as nat);
            }
            return Err(err_quoting("unknown modifier '", m));
        }
        mods.push(m.get_char(0));
        i += 1;
    }
    let atom = parts.remove(n - 1);
    assert(all.last() == atom@);
    if atom.as_str().is_empty() {
        return Err(err("incomplete chord (no atom)"));
    }
    Ok(Some((mods, atom)))
}

proof fn lemma_modifier_error_stays(parts: Seq<Seq<char>>, i: nat, k: nat)
    requires
        i <= k,
        modifiers(parts, i) is Err,
    ensures
        modifiers(parts, k) == modifiers(parts, i),
    decreases k - i,
{
    if i < k {
        lemma_modifier_error_stays(parts, i, (k - 1) as nat);
    }
}

fn emit_chord(mods: &Vec<char>, atom: &str, out: &mut Vec<u8>) -> (r: Result<(), ParseError>)
    requires
        atom@.len() > 0,
    ensures
        match r {
            Ok(_) => chord_bytes(mods@, atom@) is Ok && final(out)@ == old(out)@ + chord_bytes(
                mods@,
                atom@,
            )->Ok_0,
            Err(e) => chord_bytes(mods@, atom@) == Err::<Seq<u8>, Seq<char>>(e@) && final(out)@
                == old(out)@,
        },
{
    let alt = has(mods, 'M');
    let ctrl = has(mods, 'C');
    let shift = has(mods, 'S');
    match lookup_named(atom) {
        Some(bytes) => {
            if text::same_text(atom, "Tab") && shift && !ctrl && !alt {
                out.push(0x1b);
                out.push(0x5b);
                out.push(0x5a);
                assert(out@ =~= old(out)@ + seq![0x1bu8, 0x5b, 0x5a]);
            } else if !shift && !ctrl && alt {
                out.push(0x1b);
                push_bytes(out, bytes.as_slice());
                assert(out@ =~= old(out)@ + (seq![0x1bu8] + bytes@));
            } else if !shift && !ctrl {
                push_bytes(out, bytes.as_slice());
            } else {
                return Err(err_quoting("unsupported modifier on named key '", atom));
            }
            return Ok(());
        },
        None => {},
    }
    if atom.unicode_len() != 1 {
        return Err(
            err_quoting(
                "modifier prefix valid on single-char atom or Named only; got '",
                atom,
            ),
        );
    }
    let c = atom.get_char(0);
    if c as u32 > 0x7f {
        return Err(err_quoting("non-ASCII atom in chord: '", atom));
    }
    let mut byte: u8 = c as u8;
    if shift && 0x61 <= byte && byte <= 0x7a {
        byte = byte - 0x20;
    }
    if ctrl {
        byte = byte & 0x1f;
    }
    if alt {
        out.push(0x1b);
        out.push(byte);
        assert(out@ =~= old(out)@ + seq![0x1bu8, byte]);
    } else {
        out.push(byte);
        assert(out@ =~= old(out)@ + seq![byte]);
    }
    Ok(())
}

/// The bytes that a key without modifiers sends.
pub open spec fn sent(code: KeyCode) -> Seq<u8> {
    encode::key_bytes(
        KeyEvent { code, modifiers: KeyModifiers::none(), kind: KeyEventKind::Press },
    )
}

/// A named key stands for the bytes that the key sends.
#[verifier::rlimit(60)]
pub proof fn named_keys_stand_for_their_bytes()
    ensures
        named_bytes("Enter"@) == Some(sent(KeyCode::Enter)),
        named_bytes("Tab"@) == Some(sent(KeyCode::Tab)),
        named_bytes("Esc"@) == Some(sent(KeyCode::Esc)),
        named_bytes("Space"@) == Some(sent(KeyCode::Char(' '))),
        named_bytes("Backspace"@) == Some(sent(KeyCode::Backspace)),
        named_bytes("Delete"@) == Some(sent(KeyCode::Delete)),
        named_bytes("Up"@) == Some(sent(KeyCode::Up)),
        named_bytes("Down"@) == Some(sent(KeyCode::Down)),
        named_bytes("Left"@) == Some(sent(KeyCode::Left)),
        named_bytes("Right"@) == Some(sent(KeyCode::Right)),
        named_bytes("Home"@) == Some(sent(KeyCode::Home)),
        named_bytes("End"@) == Some(sent(KeyCode::End)),
        named_bytes("PageUp"@) == Some(sent(KeyCode::PageUp)),
        named_bytes("PageDown"@) == Some(sent(KeyCode::PageDown)),
        named_bytes("F1"@) == Some(sent(KeyCode::F(1))),
        named_bytes("F2"@) == Some(sent(KeyCode::F(2))),
        named_bytes("F3"@) == Some(sent(KeyCode::F(3))),
        named_bytes("F4"@) == Some(sent(KeyCode::F(4))),
        named_bytes("F5"@) == Some(sent(KeyCode::F(5))),
        named_bytes("F6"@) == Some(sent(KeyCode::F(6))),
        named_bytes("F7"@) == Some(sent(KeyCode::F(7))),
        named_bytes("F8"@) == Some(sent(KeyCode::F(8))),
        named_bytes("F9"@) == Some(sent(KeyCode::F(9))),
        named_bytes("F10"@) == Some(sent(KeyCode::F(10))),
        named_bytes("F11"@) == Some(sent(KeyCode::F(11))),
        named_bytes("F12"@) == Some(sent(KeyCode::F(12))),
{
    let m = KeyModifiers::none();
    encode::arrows_send_their_letters(m);
    encode::editing_keys_send_their_numbers(m);
    encode::function_keys_send_their_numbers(m);
    encode::control_keys_send_their_characters(m);
    lemma_space();
    reveal_strlit("Enter");
    reveal_strlit("Tab");
    reveal_strlit("Esc");
    reveal_strlit("Space");
    reveal_strlit("Backspace");
    reveal_strlit("Delete");
    reveal_strlit("Up");
    reveal_strlit("Down");
    reveal_strlit("Left");
    reveal_strlit("Right");
    reveal_strlit("Home");
    reveal_strlit("End");
    reveal_strlit("PageUp");
    reveal_strlit("PageDown");
    reveal_strlit("F1");
    reveal_strlit("F2");
    reveal_strlit("F3");
    reveal_strlit("F4");
    reveal_strlit("F5");
    reveal_strlit("F6");
    reveal_strlit("F7");
    reveal_strlit("F8");
    reveal_strlit("F9");
    reveal_strlit("F10");
    reveal_strlit("F11");
    reveal_strlit("F12");
    assert("Enter"@.len() == 5);
    assert("Enter"@[0] == 'E');
    assert("Enter"@[1] == 'n');
    assert("Enter"@[2] == 't');
    assert("Enter"@[3] == 'e');
    assert("Enter"@[4] == 'r');
    assert("Tab"@.len() == 3);
    assert("Tab"@[0] == 'T');
    assert("Tab"@[1] == 'a');
    assert("Tab"@[2] == 'b');
    assert("Esc"@.len() == 3);
    assert("Esc"@[0] == 'E');
    assert("Esc"@[1] == 's');
    assert("Esc"@[2] == 'c');
    assert("Space"@.len() == 5);
    assert("Space"@[0] == 'S');
    assert("Space"@[1] == 'p');
    assert("Space"@[2] == 'a');
    assert("Space"@[3] == 'c');
    assert("Space"@[4] == 'e');
    assert("Backspace"@.len() == 9);
    assert("Backspace"@[0] == 'B');
    assert("Backspace"@[1] == 'a');
    assert("Backspace"@[2] == 'c');
    assert("Backspace"@[3] == 'k');
    assert("Backspace"@[4] == 's');
    assert("Backspace"@[5] == 'p');
    assert("Backspace"@[6] == 'a');
    assert("Backspace"@[7] == 'c');
    assert("Backspace"@[8] == 'e');
    assert("Delete"@.len() == 6);
    assert("Delete"@[0] == 'D');
    assert("Delete"@[1] == 'e');
    assert("Delete"@[2] == 'l');
    assert("Delete"@[3] == 'e');
    assert("Delete"@[4] == 't');
    assert("Delete"@[5] == 'e');
    assert("Up"@.len() == 2);
    assert("Up"@[0] == 'U');
    assert("Up"@[1] == 'p');
    assert("Down"@.len() == 4);
    assert("Down"@[0] == 'D');
    assert("Down"@[1] == 'o');
    assert("Down"@[2] == 'w');
    assert("Down"@[3] == 'n');
    assert("Left"@.len() == 4);
    assert("Left"@[0] == 'L');
    assert("Left"@[1] == 'e');
    assert("Left"@[2] == 'f');
    assert("Left"@[3] == 't');
    assert("Right"@.len() == 5);
    assert("Right"@[0] == 'R');
    assert("Right"@[1] == 'i');
    assert("Right"@[2] == 'g');
    assert("Right"@[3] == 'h');
    assert("Right"@[4] == 't');
    assert("Home"@.len() == 4);
    assert("Home"@[0] == 'H');
    assert("Home"@[1] == 'o');
    assert("Home"@[2] == 'm');
    assert("Home"@[3] == 'e');
    assert("End"@.len() == 3);
    assert("End"@[0] == 'E');
    assert("End"@[1] == 'n');
    assert("End"@[2] == 'd');
    assert("PageUp"@.len() == 6);
    assert("PageUp"@[0] == 'P');
    assert("PageUp"@[1] == 'a');
    assert("PageUp"@[2] == 'g');
    assert("PageUp"@[3] == 'e');
    assert("PageUp"@[4] == 'U');
    assert("PageUp"@[5] == 'p');
    assert("PageDown"@.len() == 8);
    assert("PageDown"@[0] == 'P');
    assert("PageDown"@[1] == 'a');
    assert("PageDown"@[2] == 'g');
    assert("PageDown"@[3] == 'e');
    assert("PageDown"@[4] == 'D');
    assert("PageDown"@[5] == 'o');
    assert("PageDown"@[6] == 'w');
    assert("PageDown"@[7] == 'n');
    assert("F1"@.len() == 2);
    assert("F1"@[0] == 'F');
    assert("F1"@[1] == '1');
    assert("F2"@.len() == 2);
    assert("F2"@[0] == 'F');
    assert("F2"@[1] == '2');
    assert("F3"@.len() == 2);
    assert("F3"@[0] == 'F');
    assert("F3"@[1] == '3');
    assert("F4"@.len() == 2);
    assert("F4"@[0] == 'F');
    assert("F4"@[1] == '4');
    assert("F5"@.len() == 2);
    assert("F5"@[0] == 'F');
    assert("F5"@[1] == '5');
    assert("F6"@.len() == 2);
    assert("F6"@[0] == 'F');
    assert("F6"@[1] == '6');
    assert("F7"@.len() == 2);
    assert("F7"@[0] == 'F');
    assert("F7"@[1] == '7');
    assert("F8"@.len() == 2);
    assert("F8"@[0] == 'F');
    assert("F8"@[1] == '8');
    assert("F9"@.len() == 2);
    assert("F9"@[0] == 'F');
    assert("F9"@[1] == '9');
    assert("F10"@.len() == 3);
    assert("F10"@[0] == 'F');
    assert("F10"@[1] == '1');
    assert("F10"@[2] == '0');
    assert("F11"@.len() == 3);
    assert("F11"@[0] == 'F');
    assert("F11"@[1] == '1');
    assert("F11"@[2] == '1');
    assert("F12"@.len() == 3);
    assert("F12"@[0] == 'F');
    assert("F12"@[1] == '1');
    assert("F12"@[2] == '2');
}

proof fn lemma_space()
    ensures
        sent(KeyCode::Char(' ')) == seq![0x20u8],
{
    let s = seq![' '];
    assert(vstd::utf8::is_ascii_chars(s));
    vstd::utf8::is_ascii_chars_encode_utf8(s);
    assert(vstd::utf8::encode_utf8(s)[0] == s[0] as u8);
    assert(vstd::utf8::encode_utf8(s) =~= seq![0x20u8]);
}

} // verus!
