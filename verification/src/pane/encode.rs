//! Encoding of key and mouse events into the bytes that a program reads.

use vstd::prelude::*;
use vstd::string::*;

use crate::keys::{KeyCode, KeyEvent, KeyModifiers};
use crate::protocol::push_bytes;
use crate::text;

verus! {

/// The modifier parameter of a CSI sequence: one, plus one for Shift, two for
/// Alt and four for Ctrl.
pub open spec fn mods_param(m: KeyModifiers) -> nat {
    1 + (if m.shift {
        1nat
    } else {
        0
    }) + (if m.alt {
        2nat
    } else {
        0
    }) + (if m.control {
        4nat
    } else {
        0
    })
}

pub open spec fn has_mods(m: KeyModifiers) -> bool {
    m.shift || m.alt || m.control
}

/// A sequence with the modifier parameter between two texts.
pub open spec fn with_param(before: Seq<char>, m: KeyModifiers, after: Seq<char>) -> Seq<u8> {
    vstd::utf8::encode_utf8(before + text::decimal(mods_param(m)) + after)
}

/// The control character of a key: NUL for Space, ESC to US for `[ \ ] ^ _`,
/// and for anything else the distance from the letter before `a`.
pub open spec fn control_byte(c: char) -> u8 {
    if c == ' ' {
        0x00
    } else if c == '[' {
        0x1b
    } else if c == '\\' {
        0x1c
    } else if c == ']' {
        0x1d
    } else if c == '^' {
        0x1e
    } else if c == '_' {
        0x1f
    } else {
        ((text::lower(c) as int - 0x60) % 256) as u8
    }
}

pub open spec fn char_bytes(c: char, m: KeyModifiers) -> Seq<u8> {
    if m.control && !m.shift && !m.alt {
        seq![control_byte(c)]
    } else if m.control && m.alt {
        seq![0x1bu8, control_byte(c)]
    } else if m.alt && !m.shift {
        seq![0x1bu8] + vstd::utf8::encode_utf8(seq![c])
    } else if m.shift && (m.alt || m.control) {
        with_param("\x1b["@ + text::decimal(c as nat) + ";"@, m, "u"@)
    } else {
        vstd::utf8::encode_utf8(seq![c])
    }
}

pub open spec fn enter_bytes(m: KeyModifiers) -> Seq<u8> {
    if m.shift {
        with_param("\x1b[13;"@, m, "u"@)
    } else if m.alt {
        seq![0x1bu8, 0x0d]
    } else if m.control {
        with_param("\x1b[13;"@, m, "u"@)
    } else {
        seq![0x0du8]
    }
}

pub open spec fn backspace_bytes(m: KeyModifiers) -> Seq<u8> {
    if m.alt && !m.control && !m.shift {
        seq![0x1bu8, 0x7f]
    } else if m.control && !m.alt && !m.shift {
        seq![0x08u8]
    } else if has_mods(m) {
        with_param("\x1b[127;"@, m, "u"@)
    } else {
        seq![0x7fu8]
    }
}

pub open spec fn tab_bytes(m: KeyModifiers) -> Seq<u8> {
    if m.shift && !m.alt && !m.control {
        seq![0x1bu8, 0x5b, 0x5a]
    } else if has_mods(m) {
        with_param("\x1b[9;"@, m, "u"@)
    } else {
        seq![0x09u8]
    }
}

/// Arrow keys, Home and End: `ESC [ X`, or `ESC [ 1 ; mods X`.
pub open spec fn arrow_bytes(letter: Seq<char>, m: KeyModifiers) -> Seq<u8> {
    if has_mods(m) {
        with_param("\x1b[1;"@, m, letter)
    } else {
        vstd::utf8::encode_utf8("\x1b["@ + letter)
    }
}

/// Editing keys: `ESC [ n ~`, or `ESC [ n ; mods ~`.
pub open spec fn tilde_bytes(n: nat, m: KeyModifiers) -> Seq<u8> {
    if has_mods(m) {
        with_param("\x1b["@ + text::decimal(n) + ";"@, m, "~"@)
    } else {
        vstd::utf8::encode_utf8("\x1b["@ + text::decimal(n) + "~"@)
    }
}

/// The number of a function key in a CSI sequence.
pub open spec fn f_number(n: u8) -> Option<nat> {
    if 1 <= n <= 5 {
        Some((n + 10) as nat)
    } else if 6 <= n <= 10 {
        Some((n + 11) as nat)
    } else if 11 <= n <= 12 {
        Some((n + 12) as nat)
    } else {
        None
    }
}

/// Function keys: `F1` to `F4` without modifiers are `ESC O P` to `ESC O S`.
pub open spec fn f_bytes(n: u8, m: KeyModifiers) -> Seq<u8> {
    match f_number(n) {
        None => seq![],
        Some(code) => if !has_mods(m) && n <= 4 {
            seq![0x1bu8, 0x4f, (0x4f + n) as u8]
        } else {
            tilde_bytes(code, m)
        },
    }
}

/// The bytes that a key sends; none for a key that has no encoding.
pub open spec fn key_bytes(key: KeyEvent) -> Seq<u8> {
    let m = key.modifiers;
    match key.code {
        KeyCode::Char(c) => char_bytes(c, m),
        KeyCode::Enter => enter_bytes(m),
        KeyCode::Backspace => backspace_bytes(m),
        KeyCode::Tab => tab_bytes(m),
        KeyCode::Esc => if has_mods(m) {
            with_param("\x1b[27;"@, m, "u"@)
        } else {
            seq![0x1bu8]
        },
        KeyCode::Up => arrow_bytes("A"@, m),
        KeyCode::Down => arrow_bytes("B"@, m),
        KeyCode::Right => arrow_bytes("C"@, m),
        KeyCode::Left => arrow_bytes("D"@, m),
        KeyCode::Home => arrow_bytes("H"@, m),
        KeyCode::End => arrow_bytes("F"@, m),
        KeyCode::Delete => tilde_bytes(3, m),
        KeyCode::PageUp => tilde_bytes(5, m),
        KeyCode::PageDown => tilde_bytes(6, m),
        KeyCode::Insert => tilde_bytes(2, m),
        KeyCode::F(n) => f_bytes(n, m),
        _ => seq![],
    }
}

fn ascii(s: &str) -> (r: Vec<u8>)
    ensures
        r@ == vstd::utf8::encode_utf8(s@),
{
    let mut out: Vec<u8> = Vec::new();
    push_bytes(&mut out, s.as_bytes());
    assert(out@ =~= vstd::utf8::encode_utf8(s@));
    out
}

fn param(m: KeyModifiers) -> (r: u8)
    ensures
        r == mods_param(m),
{
    let mut n: u8 = 1;
    if m.shift {
        n = n + 1;
    }
    if m.alt {
        n = n + 2;
    }
    if m.control {
        n = n + 4;
    }
    n
}

fn param_sequence(before: &str, m: KeyModifiers, after: &str) -> (r: Vec<u8>)
    ensures
        r@ == with_param(before@, m, after@),
{
    let mut s = before.to_owned();
    s.append(text::decimal_text(param(m) as u128).as_str());
    s.append(after);
    ascii(s.as_str())
}

fn any_mods(m: KeyModifiers) -> (r: bool)
    ensures
        r == has_mods(m),
{
    m.shift || m.alt || m.control
}

fn encode_control(c: char) -> (r: u8)
    ensures
        r == control_byte(c),
{
    if c == ' ' {
        0x00
    } else if c == '[' {
        0x1b
    } else if c == '\\' {
        0x1c
    } else if c == ']' {
        0x1d
    } else if c == '^' {
        0x1e
    } else if c == '_' {
        0x1f
    } else {
        let code: u32 = text::lower_char(c) as u32;
        let low: u32 = code % 256;
        if low >= 0x60 {
            (low - 0x60) as u8
        } else {
            (low + 0xa0) as u8
        }
    }
}

fn encode_char(c: char, m: KeyModifiers) -> (r: Vec<u8>)
    ensures
        r@ == char_bytes(c, m),
{
    if m.control && !m.shift && !m.alt {
        let out: Vec<u8> = vec![encode_control(c)];
        assert(out@ =~= seq![control_byte(c)]);
        return out;
    }
    if m.control && m.alt {
        let out: Vec<u8> = vec![0x1b, encode_control(c)];
        assert(out@ =~= seq![0x1bu8, control_byte(c)]);
        return out;
    }
    if m.shift && (m.alt || m.control) {
        let mut s = "\x1b[".to_owned();
        s.append(text::decimal_text(c as u128).as_str());
        s.append(";");
        return param_sequence(s.as_str(), m, "u");
    }
    let mut s = String::new();
    s.push(c);
    assert(s@ =~= seq![c]);
    if m.alt && !m.shift {
        let mut out: Vec<u8> = vec![0x1b];
        push_bytes(&mut out, s.as_str().as_bytes());
        assert(out@ =~= seq![0x1bu8] + vstd::utf8::encode_utf8(seq![c]));
        out
    } else {
        ascii(s.as_str())
    }
}

fn encode_enter(m: KeyModifiers) -> (r: Vec<u8>)
    ensures
        r@ == enter_bytes(m),
{
    if m.shift {
        param_sequence("\x1b[13;", m, "u")
    } else if m.alt {
        let out: Vec<u8> = vec![0x1b, 0x0d];
        assert(out@ =~= seq![0x1bu8, 0x0d]);
        out
    } else if m.control {
        param_sequence("\x1b[13;", m, "u")
    } else {
        let out: Vec<u8> = vec![0x0d];
        assert(out@ =~= seq![0x0du8]);
        out
    }
}

fn encode_backspace(m: KeyModifiers) -> (r: Vec<u8>)
    ensures
        r@ == backspace_bytes(m),
{
    if m.alt && !m.control && !m.shift {
        let out: Vec<u8> = vec![0x1b, 0x7f];
        assert(out@ =~= seq![0x1bu8, 0x7f]);
        out
    } else if m.control && !m.alt && !m.shift {
        let out: Vec<u8> = vec![0x08];
        assert(out@ =~= seq![0x08u8]);
        out
    } else if any_mods(m) {
        param_sequence("\x1b[127;", m, "u")
    } else {
        let out: Vec<u8> = vec![0x7f];
        assert(out@ =~= seq![0x7fu8]);
        out
    }
}

fn encode_tab(m: KeyModifiers) -> (r: Vec<u8>)
    ensures
        r@ == tab_bytes(m),
{
    if m.shift && !m.alt && !m.control {
        let out: Vec<u8> = vec![0x1b, 0x5b, 0x5a];
        assert(out@ =~= seq![0x1bu8, 0x5b, 0x5a]);
        out
    } else if any_mods(m) {
        param_sequence("\x1b[9;", m, "u")
    } else {
        let out: Vec<u8> = vec![0x09];
        assert(out@ =~= seq![0x09u8]);
        out
    }
}

fn arrow_with_mods(letter: &str, m: KeyModifiers) -> (r: Vec<u8>)
    ensures
        r@ == arrow_bytes(letter@, m),
{
    if any_mods(m) {
        param_sequence("\x1b[1;", m, letter)
    } else {
        let mut s = "\x1b[".to_owned();
        s.append(letter);
        ascii(s.as_str())
    }
}

fn tilde_with_mods(n: u8, m: KeyModifiers) -> (r: Vec<u8>)
    ensures
        r@ == tilde_bytes(n as nat, m),
{
    let mut s = "\x1b[".to_owned();
    s.append(text::decimal_text(n as u128).as_str());
    if any_mods(m) {
        s.append(";");
        param_sequence(s.as_str(), m, "~")
    } else {
        s.append("~");
        ascii(s.as_str())
    }
}

fn encode_f_key_with_mods(n: u8, m: KeyModifiers) -> (r: Vec<u8>)
    ensures
        r@ == f_bytes(n, m),
{
    if n < 1 || n > 12 {
        let out: Vec<u8> = Vec::new();
        assert(out@ =~= seq![]);
        return out;
    }
    if !any_mods(m) && n <= 4 {
        let out: Vec<u8> = vec![0x1b, 0x4f, 0x4f + n];
        assert(out@ =~= seq![0x1bu8, 0x4f, (0x4f + n) as u8]);
        return out;
    }
    let code: u8 = if n <= 5 {
        n + 10
    } else if n <= 10 {
        n + 11
    } else {
        n + 12
    };
    tilde_with_mods(code, m)
}

/// The bytes that a key press sends to the program in a pane.
pub fn encode_key(key: KeyEvent) -> (r: Vec<u8>)
    ensures
        r@ == key_bytes(key),
{
    let m = key.modifiers;
    match key.code {
        KeyCode::Char(c) => encode_char(c, m),
        KeyCode::Enter => encode_enter(m),
        KeyCode::Backspace => encode_backspace(m),
        KeyCode::Tab => encode_tab(m),
        KeyCode::Esc => if any_mods(m) {
            param_sequence("\x1b[27;", m, "u")
        } else {
            let out: Vec<u8> = vec![0x1b];
            assert(out@ =~= seq![0x1bu8]);
            out
        },
        KeyCode::Up => arrow_with_mods("A", m),
        KeyCode::Down => arrow_with_mods("B", m),
        KeyCode::Right => arrow_with_mods("C", m),
        KeyCode::Left => arrow_with_mods("D", m),
        KeyCode::Home => arrow_with_mods("H", m),
        KeyCode::End => arrow_with_mods("F", m),
        KeyCode::Delete => tilde_with_mods(3, m),
        KeyCode::PageUp => tilde_with_mods(5, m),
        KeyCode::PageDown => tilde_with_mods(6, m),
        KeyCode::Insert => tilde_with_mods(2, m),
        KeyCode::F(n) => encode_f_key_with_mods(n, m),
        _ => {
            let out: Vec<u8> = Vec::new();
            assert(out@ =~= seq![]);
            out
        },
    }
}

// ─── Mouse events ──────────────────────────────────────────

/// The bytes of a mouse event at a cell counted from zero. In the SGR encoding
/// the numbers are written out; otherwise each is one byte, a release is the
/// button 3 and positions end at 222.
pub open spec fn mouse_bytes(sgr: bool, button: u16, col: u16, row: u16, release: bool) -> Seq<u8> {
    if sgr {
        vstd::utf8::encode_utf8(
            "\x1b[<"@ + text::decimal(button as nat) + ";"@ + text::decimal((col + 1) as nat)
                + ";"@ + text::decimal((row + 1) as nat) + if release {
                "m"@
            } else {
                "M"@
            },
        )
    } else {
        let b = if release {
            3int
        } else {
            button as int % 128
        };
        let c = if col + 1 < 222 {
            col + 1
        } else {
            222
        };
        let r = if row + 1 < 222 {
            row + 1
        } else {
            222
        };
        seq![0x1bu8, 0x5b, 0x4d, (b + 32) as u8, (c + 32) as u8, (r + 32) as u8]
    }
}

/// The bytes that tell a program about a mouse event. `button` is 0 for left,
/// 1 for middle, 2 for right, 64 for scrolling up and 65 for scrolling down.
pub fn encode_mouse(sgr: bool, button: u16, col: u16, row: u16, release: bool) -> (r: Vec<u8>)
    requires
        col < 0xffff,
        row < 0xffff,
    ensures
        r@ == mouse_bytes(sgr, button, col, row, release),
{
    if sgr {
        let mut s = "\x1b[<".to_owned();
        s.append(text::decimal_text(button as u128).as_str());
        s.append(";");
        s.append(text::decimal_text((col + 1) as u128).as_str());
        s.append(";");
        s.append(text::decimal_text((row + 1) as u128).as_str());
        s.append(
            if release {
                "m"
            } else {
                "M"
            },
        );
        ascii(s.as_str())
    } else {
        let b: u8 = if release {
            3
        } else {
            (button % 128) as u8
        };
        let c: u8 = if col + 1 < 222 {
            (col + 1) as u8
        } else {
            222
        };
        let rr: u8 = if row + 1 < 222 {
            (row + 1) as u8
        } else {
            222
        };
        let out: Vec<u8> = vec![0x1b, 0x5b, 0x4d, b + 32, c + 32, rr + 32];
        assert(out@ =~= mouse_bytes(sgr, button, col, row, release));
        out
    }
}

// ─── What programs read ────────────────────────────────────

/// Text of ASCII characters is encoded one byte each.
proof fn lemma_ascii(s: Seq<char>, b: Seq<u8>)
    requires
        s.len() == b.len(),
        forall|i: int|
            0 <= i < s.len() ==> (#[trigger] s[i]) as int == b[i] as int && s[i] as int <= 0x7f,
    ensures
        vstd::utf8::encode_utf8(s) == b,
{
    assert(vstd::utf8::is_ascii_chars(s));
    vstd::utf8::is_ascii_chars_encode_utf8(s);
    let e = vstd::utf8::encode_utf8(s);
    assert forall|i: int| 0 <= i < b.len() implies e[i] == b[i] by {
        assert(s[i] as u8 == e[i]);
    }
    assert(e =~= b);
}

/// The digit that stands for the modifiers in a sequence: `1` without any, one
/// more with Shift, two more with Alt, four more with Ctrl.
pub open spec fn mods_digit(m: KeyModifiers) -> u8 {
    (0x31 + (if m.shift {
        1int
    } else {
        0
    }) + (if m.alt {
        2int
    } else {
        0
    }) + (if m.control {
        4int
    } else {
        0
    })) as u8
}

proof fn lemma_param(before: Seq<char>, m: KeyModifiers, after: Seq<char>, b: Seq<u8>, a: Seq<u8>)
    requires
        before.len() == b.len(),
        forall|i: int|
            0 <= i < before.len() ==> (#[trigger] before[i]) as int == b[i] as int && before[i] as int
                <= 0x7f,
        after.len() == a.len(),
        forall|i: int|
            0 <= i < after.len() ==> (#[trigger] after[i]) as int == a[i] as int && after[i] as int
                <= 0x7f,
    ensures
        with_param(before, m, after) == b.push(mods_digit(m)) + a,
{
    let n = mods_param(m);
    assert(text::decimal(n) =~= seq![text::digit_char(n)]);
    let s = before + text::decimal(n) + after;
    let t = b.push(mods_digit(m)) + a;
    assert forall|i: int| 0 <= i < s.len() implies (#[trigger] s[i]) as int == t[i] as int
        && s[i] as int <= 0x7f by {
        if i < before.len() {
            assert(s[i] == before[i]);
        } else if i > before.len() {
            assert(s[i] == after[i - before.len() - 1]);
        }
    }
    lemma_ascii(s, t);
}

/// A plain press of a key.
pub open spec fn pressed(code: KeyCode, m: KeyModifiers) -> KeyEvent {
    KeyEvent { code, modifiers: m, kind: crate::keys::KeyEventKind::Press }
}

/// The arrow keys, Home and End send `ESC [` and a letter; with modifiers,
/// `ESC [ 1 ;`, the digit of the modifiers and the letter.
pub proof fn arrows_send_their_letters(m: KeyModifiers)
    ensures
        !m.shift && !m.alt && !m.control ==> {
            &&& key_bytes(pressed(KeyCode::Up, m)) == seq![0x1bu8, 0x5b, 0x41]
            &&& key_bytes(pressed(KeyCode::Down, m)) == seq![0x1bu8, 0x5b, 0x42]
            &&& key_bytes(pressed(KeyCode::Right, m)) == seq![0x1bu8, 0x5b, 0x43]
            &&& key_bytes(pressed(KeyCode::Left, m)) == seq![0x1bu8, 0x5b, 0x44]
            &&& key_bytes(pressed(KeyCode::Home, m)) == seq![0x1bu8, 0x5b, 0x48]
            &&& key_bytes(pressed(KeyCode::End, m)) == seq![0x1bu8, 0x5b, 0x46]
        },
        m.shift || m.alt || m.control ==> {
            &&& key_bytes(pressed(KeyCode::Up, m)) == seq![0x1bu8, 0x5b, 0x31, 0x3b, mods_digit(m), 0x41]
            &&& key_bytes(pressed(KeyCode::Down, m)) == seq![0x1bu8, 0x5b, 0x31, 0x3b, mods_digit(m), 0x42]
            &&& key_bytes(pressed(KeyCode::Right, m)) == seq![0x1bu8, 0x5b, 0x31, 0x3b, mods_digit(m), 0x43]
            &&& key_bytes(pressed(KeyCode::Left, m)) == seq![0x1bu8, 0x5b, 0x31, 0x3b, mods_digit(m), 0x44]
            &&& key_bytes(pressed(KeyCode::Home, m)) == seq![0x1bu8, 0x5b, 0x31, 0x3b, mods_digit(m), 0x48]
            &&& key_bytes(pressed(KeyCode::End, m)) == seq![0x1bu8, 0x5b, 0x31, 0x3b, mods_digit(m), 0x46]
        },
{
    reveal_strlit("\x1b[");
    reveal_strlit("\x1b[1;");
    reveal_strlit("A");
    lemma_ascii("\x1b["@ + "A"@, seq![0x1bu8, 0x5b, 0x41]);
    lemma_param("\x1b[1;"@, m, "A"@, seq![0x1bu8, 0x5b, 0x31, 0x3b], seq![0x41u8]);
    assert(seq![0x1bu8, 0x5b, 0x31, 0x3b].push(mods_digit(m)) + seq![0x41u8] =~= seq![
        0x1bu8, 0x5b, 0x31, 0x3b, mods_digit(m), 0x41,
    ]);
    reveal_strlit("B");
    lemma_ascii("\x1b["@ + "B"@, seq![0x1bu8, 0x5b, 0x42]);
    lemma_param("\x1b[1;"@, m, "B"@, seq![0x1bu8, 0x5b, 0x31, 0x3b], seq![0x42u8]);
    assert(seq![0x1bu8, 0x5b, 0x31, 0x3b].push(mods_digit(m)) + seq![0x42u8] =~= seq![
        0x1bu8, 0x5b, 0x31, 0x3b, mods_digit(m), 0x42,
    ]);
    reveal_strlit("C");
    lemma_ascii("\x1b["@ + "C"@, seq![0x1bu8, 0x5b, 0x43]);
    lemma_param("\x1b[1;"@, m, "C"@, seq![0x1bu8, 0x5b, 0x31, 0x3b], seq![0x43u8]);
    assert(seq![0x1bu8, 0x5b, 0x31, 0x3b].push(mods_digit(m)) + seq![0x43u8] =~= seq![
        0x1bu8, 0x5b, 0x31, 0x3b, mods_digit(m), 0x43,
    ]);
    reveal_strlit("D");
    lemma_ascii("\x1b["@ + "D"@, seq![0x1bu8, 0x5b, 0x44]);
    lemma_param("\x1b[1;"@, m, "D"@, seq![0x1bu8, 0x5b, 0x31, 0x3b], seq![0x44u8]);
    assert(seq![0x1bu8, 0x5b, 0x31, 0x3b].push(mods_digit(m)) + seq![0x44u8] =~= seq![
        0x1bu8, 0x5b, 0x31, 0x3b, mods_digit(m), 0x44,
    ]);
    reveal_strlit("H");
    lemma_ascii("\x1b["@ + "H"@, seq![0x1bu8, 0x5b, 0x48]);
    lemma_param("\x1b[1;"@, m, "H"@, seq![0x1bu8, 0x5b, 0x31, 0x3b], seq![0x48u8]);
    assert(seq![0x1bu8, 0x5b, 0x31, 0x3b].push(mods_digit(m)) + seq![0x48u8] =~= seq![
        0x1bu8, 0x5b, 0x31, 0x3b, mods_digit(m), 0x48,
    ]);
    reveal_strlit("F");
    lemma_ascii("\x1b["@ + "F"@, seq![0x1bu8, 0x5b, 0x46]);
    lemma_param("\x1b[1;"@, m, "F"@, seq![0x1bu8, 0x5b, 0x31, 0x3b], seq![0x46u8]);
    assert(seq![0x1bu8, 0x5b, 0x31, 0x3b].push(mods_digit(m)) + seq![0x46u8] =~= seq![
        0x1bu8, 0x5b, 0x31, 0x3b, mods_digit(m), 0x46,
    ]);
}

proof fn lemma_tilde(n: nat, m: KeyModifiers, d: Seq<u8>)
    requires
        text::decimal(n).len() == d.len(),
        forall|i: int|
            0 <= i < d.len() ==> (#[trigger] text::decimal(n)[i]) as int == d[i] as int && d[i]
                <= 0x7f,
    ensures
        !has_mods(m) ==> tilde_bytes(n, m) == seq![0x1bu8, 0x5b] + d + seq![0x7eu8],
        has_mods(m) ==> tilde_bytes(n, m) == (seq![0x1bu8, 0x5b] + d + seq![0x3bu8]).push(
            mods_digit(m),
        ) + seq![0x7eu8],
{
    reveal_strlit("\x1b[");
    reveal_strlit(";");
    reveal_strlit("~");
    lemma_ascii("\x1b["@ + text::decimal(n) + "~"@, seq![0x1bu8, 0x5b] + d + seq![0x7eu8]);
    lemma_param(
        "\x1b["@ + text::decimal(n) + ";"@,
        m,
        "~"@,
        seq![0x1bu8, 0x5b] + d + seq![0x3bu8],
        seq![0x7eu8],
    );
}

/// Insert, Delete and the page keys send `ESC [`, their number and `~`; with
/// modifiers, `;` and the digit of the modifiers stand before the `~`.
pub proof fn editing_keys_send_their_numbers(m: KeyModifiers)
    ensures
        !m.shift && !m.alt && !m.control ==> {
            &&& key_bytes(pressed(KeyCode::Insert, m)) == seq![0x1bu8, 0x5b, 0x32, 0x7e]
            &&& key_bytes(pressed(KeyCode::Delete, m)) == seq![0x1bu8, 0x5b, 0x33, 0x7e]
            &&& key_bytes(pressed(KeyCode::PageUp, m)) == seq![0x1bu8, 0x5b, 0x35, 0x7e]
            &&& key_bytes(pressed(KeyCode::PageDown, m)) == seq![0x1bu8, 0x5b, 0x36, 0x7e]
        },
        m.shift || m.alt || m.control ==> {
            &&& key_bytes(pressed(KeyCode::Insert, m)) == seq![0x1bu8, 0x5b, 0x32, 0x3b, mods_digit(m), 0x7e]
            &&& key_bytes(pressed(KeyCode::Delete, m)) == seq![0x1bu8, 0x5b, 0x33, 0x3b, mods_digit(m), 0x7e]
            &&& key_bytes(pressed(KeyCode::PageUp, m)) == seq![0x1bu8, 0x5b, 0x35, 0x3b, mods_digit(m), 0x7e]
            &&& key_bytes(pressed(KeyCode::PageDown, m)) == seq![0x1bu8, 0x5b, 0x36, 0x3b, mods_digit(m), 0x7e]
        },
{
    lemma_tilde(2, m, seq![0x32u8]);
    lemma_tilde(3, m, seq![0x33u8]);
    lemma_tilde(5, m, seq![0x35u8]);
    lemma_tilde(6, m, seq![0x36u8]);
    assert(seq![0x1bu8, 0x5b] + seq![0x32u8] + seq![0x7eu8] =~= seq![0x1bu8, 0x5b, 0x32, 0x7e]);
    assert((seq![0x1bu8, 0x5b] + seq![0x32u8] + seq![0x3bu8]).push(mods_digit(m)) + seq![0x7eu8] =~= seq![
        0x1bu8, 0x5b, 0x32, 0x3b, mods_digit(m), 0x7e,
    ]);
    assert(seq![0x1bu8, 0x5b] + seq![0x33u8] + seq![0x7eu8] =~= seq![0x1bu8, 0x5b, 0x33, 0x7e]);
    assert((seq![0x1bu8, 0x5b] + seq![0x33u8] + seq![0x3bu8]).push(mods_digit(m)) + seq![0x7eu8] =~= seq![
        0x1bu8, 0x5b, 0x33, 0x3b, mods_digit(m), 0x7e,
    ]);
    assert(seq![0x1bu8, 0x5b] + seq![0x35u8] + seq![0x7eu8] =~= seq![0x1bu8, 0x5b, 0x35, 0x7e]);
    assert((seq![0x1bu8, 0x5b] + seq![0x35u8] + seq![0x3bu8]).push(mods_digit(m)) + seq![0x7eu8] =~= seq![
        0x1bu8, 0x5b, 0x35, 0x3b, mods_digit(m), 0x7e,
    ]);
    assert(seq![0x1bu8, 0x5b] + seq![0x36u8] + seq![0x7eu8] =~= seq![0x1bu8, 0x5b, 0x36, 0x7e]);
    assert((seq![0x1bu8, 0x5b] + seq![0x36u8] + seq![0x3bu8]).push(mods_digit(m)) + seq![0x7eu8] =~= seq![
        0x1bu8, 0x5b, 0x36, 0x3b, mods_digit(m), 0x7e,
    ]);
}

proof fn lemma_two_digits(n: u8, m: KeyModifiers, code: nat, a: u8, b: u8)
    requires
        10 <= code < 100,
        a as int == 0x30 + code / 10,
        b as int == 0x30 + code % 10,
        f_number(n) == Some(code),
    ensures
        n > 4 && !has_mods(m) ==> key_bytes(pressed(KeyCode::F(n), m)) == seq![
            0x1bu8,
            0x5b,
            a,
            b,
            0x7e,
        ],
        has_mods(m) ==> key_bytes(pressed(KeyCode::F(n), m)) == seq![
            0x1bu8,
            0x5b,
            a,
            b,
            0x3b,
            mods_digit(m),
            0x7e,
        ],
{
    reveal_with_fuel(text::decimal, 2);
    assert(text::decimal(code) =~= seq![
        text::digit_char(code / 10),
        text::digit_char(code % 10),
    ]);
    lemma_tilde(code, m, seq![a, b]);
    assert(seq![0x1bu8, 0x5b] + seq![a, b] + seq![0x7eu8] =~= seq![0x1bu8, 0x5b, a, b, 0x7e]);
    assert((seq![0x1bu8, 0x5b] + seq![a, b] + seq![0x3bu8]).push(mods_digit(m)) + seq![0x7eu8]
        =~= seq![0x1bu8, 0x5b, a, b, 0x3b, mods_digit(m), 0x7e]);
}

/// `F1` to `F4` send `ESC O P` to `ESC O S`. The keys from `F5` on, and all
/// twelve under modifiers, send a number: 11 to 15, 17 to 21, 23 and 24.
pub proof fn function_keys_send_their_numbers(m: KeyModifiers)
    ensures
        !m.shift && !m.alt && !m.control ==> {
            &&& key_bytes(pressed(KeyCode::F(1), m)) == seq![0x1bu8, 0x4f, 0x50]
            &&& key_bytes(pressed(KeyCode::F(2), m)) == seq![0x1bu8, 0x4f, 0x51]
            &&& key_bytes(pressed(KeyCode::F(3), m)) == seq![0x1bu8, 0x4f, 0x52]
            &&& key_bytes(pressed(KeyCode::F(4), m)) == seq![0x1bu8, 0x4f, 0x53]
            &&& key_bytes(pressed(KeyCode::F(5), m)) == seq![0x1bu8, 0x5b, 0x31, 0x35, 0x7e]
            &&& key_bytes(pressed(KeyCode::F(6), m)) == seq![0x1bu8, 0x5b, 0x31, 0x37, 0x7e]
            &&& key_bytes(pressed(KeyCode::F(7), m)) == seq![0x1bu8, 0x5b, 0x31, 0x38, 0x7e]
            &&& key_bytes(pressed(KeyCode::F(8), m)) == seq![0x1bu8, 0x5b, 0x31, 0x39, 0x7e]
            &&& key_bytes(pressed(KeyCode::F(9), m)) == seq![0x1bu8, 0x5b, 0x32, 0x30, 0x7e]
            &&& key_bytes(pressed(KeyCode::F(10), m)) == seq![0x1bu8, 0x5b, 0x32, 0x31, 0x7e]
            &&& key_bytes(pressed(KeyCode::F(11), m)) == seq![0x1bu8, 0x5b, 0x32, 0x33, 0x7e]
            &&& key_bytes(pressed(KeyCode::F(12), m)) == seq![0x1bu8, 0x5b, 0x32, 0x34, 0x7e]
        },
        m.shift || m.alt || m.control ==> {
            &&& key_bytes(pressed(KeyCode::F(1), m)) == seq![0x1bu8, 0x5b, 0x31, 0x31, 0x3b, mods_digit(m), 0x7e]
            &&& key_bytes(pressed(KeyCode::F(2), m)) == seq![0x1bu8, 0x5b, 0x31, 0x32, 0x3b, mods_digit(m), 0x7e]
            &&& key_bytes(pressed(KeyCode::F(3), m)) == seq![0x1bu8, 0x5b, 0x31, 0x33, 0x3b, mods_digit(m), 0x7e]
            &&& key_bytes(pressed(KeyCode::F(4), m)) == seq![0x1bu8, 0x5b, 0x31, 0x34, 0x3b, mods_digit(m), 0x7e]
            &&& key_bytes(pressed(KeyCode::F(5), m)) == seq![0x1bu8, 0x5b, 0x31, 0x35, 0x3b, mods_digit(m), 0x7e]
            &&& key_bytes(pressed(KeyCode::F(6), m)) == seq![0x1bu8, 0x5b, 0x31, 0x37, 0x3b, mods_digit(m), 0x7e]
            &&& key_bytes(pressed(KeyCode::F(7), m)) == seq![0x1bu8, 0x5b, 0x31, 0x38, 0x3b, mods_digit(m), 0x7e]
            &&& key_bytes(pressed(KeyCode::F(8), m)) == seq![0x1bu8, 0x5b, 0x31, 0x39, 0x3b, mods_digit(m), 0x7e]
            &&& key_bytes(pressed(KeyCode::F(9), m)) == seq![0x1bu8, 0x5b, 0x32, 0x30, 0x3b, mods_digit(m), 0x7e]
            &&& key_bytes(pressed(KeyCode::F(10), m)) == seq![0x1bu8, 0x5b, 0x32, 0x31, 0x3b, mods_digit(m), 0x7e]
            &&& key_bytes(pressed(KeyCode::F(11), m)) == seq![0x1bu8, 0x5b, 0x32, 0x33, 0x3b, mods_digit(m), 0x7e]
            &&& key_bytes(pressed(KeyCode::F(12), m)) == seq![0x1bu8, 0x5b, 0x32, 0x34, 0x3b, mods_digit(m), 0x7e]
        },
        forall|n: u8|
            n == 0 || n > 12 ==> (#[trigger] key_bytes(pressed(KeyCode::F(n), m))).len() == 0,
{
    lemma_two_digits(1, m, 11, 0x31, 0x31);
    lemma_two_digits(2, m, 12, 0x31, 0x32);
    lemma_two_digits(3, m, 13, 0x31, 0x33);
    lemma_two_digits(4, m, 14, 0x31, 0x34);
    lemma_two_digits(5, m, 15, 0x31, 0x35);
    lemma_two_digits(6, m, 17, 0x31, 0x37);
    lemma_two_digits(7, m, 18, 0x31, 0x38);
    lemma_two_digits(8, m, 19, 0x31, 0x39);
    lemma_two_digits(9, m, 20, 0x32, 0x30);
    lemma_two_digits(10, m, 21, 0x32, 0x31);
    lemma_two_digits(11, m, 23, 0x32, 0x33);
    lemma_two_digits(12, m, 24, 0x32, 0x34);
}

/// Escape, Enter, Tab and Backspace send the control characters ESC, CR, HT and
/// DEL. Alt puts ESC before CR and DEL, Shift with Tab sends `ESC [ Z`, and Ctrl
/// with Backspace sends BS. Any other modifiers send `ESC [`, the number of the
/// character, `;`, the digit of the modifiers and `u`.
pub proof fn control_keys_send_their_characters(m: KeyModifiers)
    ensures
        !m.shift && !m.alt && !m.control ==> {
            &&& key_bytes(pressed(KeyCode::Esc, m)) == seq![0x1bu8]
            &&& key_bytes(pressed(KeyCode::Enter, m)) == seq![0x0du8]
            &&& key_bytes(pressed(KeyCode::Tab, m)) == seq![0x09u8]
            &&& key_bytes(pressed(KeyCode::Backspace, m)) == seq![0x7fu8]
        },
        m.shift || m.alt || m.control ==> key_bytes(pressed(KeyCode::Esc, m)) == seq![
            0x1bu8, 0x5b, 0x32, 0x37, 0x3b, mods_digit(m), 0x75,
        ],
        m.alt && !m.shift ==> key_bytes(pressed(KeyCode::Enter, m)) == seq![0x1bu8, 0x0d],
        m.shift || (m.control && !m.alt) ==> key_bytes(pressed(KeyCode::Enter, m)) == seq![
            0x1bu8, 0x5b, 0x31, 0x33, 0x3b, mods_digit(m), 0x75,
        ],
        m.shift && !m.alt && !m.control ==> key_bytes(pressed(KeyCode::Tab, m)) == seq![
            0x1bu8, 0x5b, 0x5a,
        ],
        m.alt || m.control ==> key_bytes(pressed(KeyCode::Tab, m)) == seq![
            0x1bu8, 0x5b, 0x39, 0x3b, mods_digit(m), 0x75,
        ],
        m.alt && !m.shift && !m.control ==> key_bytes(pressed(KeyCode::Backspace, m)) == seq![
            0x1bu8, 0x7f,
        ],
        m.control && !m.shift && !m.alt ==> key_bytes(pressed(KeyCode::Backspace, m)) == seq![
            0x08u8,
        ],
        m.shift || (m.alt && m.control) ==> key_bytes(pressed(KeyCode::Backspace, m)) == seq![
            0x1bu8, 0x5b, 0x31, 0x32, 0x37, 0x3b, mods_digit(m), 0x75,
        ],
{
    reveal_strlit("u");
    reveal_strlit("\x1b[27;");
    lemma_param("\x1b[27;"@, m, "u"@, seq![0x1bu8, 0x5b, 0x32, 0x37, 0x3b], seq![0x75u8]);
    assert(seq![0x1bu8, 0x5b, 0x32, 0x37, 0x3b].push(mods_digit(m)) + seq![0x75u8] =~= seq![0x1bu8, 0x5b, 0x32, 0x37, 0x3b, mods_digit(m), 0x75]);
    reveal_strlit("\x1b[13;");
    lemma_param("\x1b[13;"@, m, "u"@, seq![0x1bu8, 0x5b, 0x31, 0x33, 0x3b], seq![0x75u8]);
    assert(seq![0x1bu8, 0x5b, 0x31, 0x33, 0x3b].push(mods_digit(m)) + seq![0x75u8] =~= seq![0x1bu8, 0x5b, 0x31, 0x33, 0x3b, mods_digit(m), 0x75]);
    reveal_strlit("\x1b[9;");
    lemma_param("\x1b[9;"@, m, "u"@, seq![0x1bu8, 0x5b, 0x39, 0x3b], seq![0x75u8]);
    assert(seq![0x1bu8, 0x5b, 0x39, 0x3b].push(mods_digit(m)) + seq![0x75u8] =~= seq![0x1bu8, 0x5b, 0x39, 0x3b, mods_digit(m), 0x75]);
    reveal_strlit("\x1b[127;");
    lemma_param("\x1b[127;"@, m, "u"@, seq![0x1bu8, 0x5b, 0x31, 0x32, 0x37, 0x3b], seq![0x75u8]);
    assert(seq![0x1bu8, 0x5b, 0x31, 0x32, 0x37, 0x3b].push(mods_digit(m)) + seq![0x75u8] =~= seq![0x1bu8, 0x5b, 0x31, 0x32, 0x37, 0x3b, mods_digit(m), 0x75]);
}

/// A character is sent in UTF-8. Alt puts ESC before it. Ctrl sends the control
/// character: a letter its place in the alphabet, Space NUL, and `[ \ ] ^ _` the
/// characters from ESC on. Ctrl with Alt sends ESC and the control character.
/// Shift together with one of Alt and Ctrl sends `ESC [`, the number of the
/// character, `;`, the digit of the modifiers and `u`.
pub proof fn characters_are_sent(c: char, m: KeyModifiers)
    ensures
        ({
            let sent = key_bytes(pressed(KeyCode::Char(c), m));
            let without_alt = key_bytes(
                pressed(KeyCode::Char(c), KeyModifiers { shift: false, alt: false, ..m }),
            );
            &&& !m.alt && !m.control ==> vstd::utf8::decode_utf8(sent) == seq![c]
            &&& m.alt && (m.control || !m.shift) ==> sent == seq![0x1bu8] + without_alt
            &&& m.control && !m.alt && !m.shift ==> {
                &&& sent.len() == 1
                &&& 'a' <= c <= 'z' ==> sent[0] == c as int - 'a' as int + 1
                &&& 'A' <= c <= 'Z' ==> sent[0] == c as int - 'A' as int + 1
                &&& c == ' ' ==> sent[0] == 0x00
                &&& c == '[' ==> sent[0] == 0x1b
                &&& c == '\\' ==> sent[0] == 0x1c
                &&& c == ']' ==> sent[0] == 0x1d
                &&& c == '^' ==> sent[0] == 0x1e
                &&& c == '_' ==> sent[0] == 0x1f
            }
            &&& m.shift && m.alt != m.control ==> {
                let n = sent.len();
                let digits = vstd::utf8::decode_utf8(sent).subrange(2, n - 3);
                &&& n > 5
                &&& sent[0] == 0x1b && sent[1] == 0x5b && sent[n - 3] == 0x3b
                &&& sent[n - 2] == mods_digit(m) && sent[n - 1] == 0x75
                &&& text::digits_value(digits) == c as nat
            }
        }),
{
    let s = seq![c];
    vstd::utf8::encode_utf8_decode_utf8(s);
    let sent = key_bytes(pressed(KeyCode::Char(c), m));
    if m.alt && (m.control || !m.shift) {
        let n = KeyModifiers { shift: false, alt: false, ..m };
        assert(sent =~= seq![0x1bu8] + key_bytes(pressed(KeyCode::Char(c), n)));
    }
    if m.shift && m.alt != m.control {
        reveal_strlit("\x1b[");
        reveal_strlit(";");
        reveal_strlit("u");
        let d = text::decimal(c as nat);
        text::lemma_decimal(c as nat);
        let before = "\x1b["@ + d + ";"@;
        let b = before.map_values(|x: char| x as u8);
        assert forall|i: int| 0 <= i < before.len() implies (#[trigger] before[i]) as int == b[i] as int
            && before[i] as int <= 0x7f by {
            if 2 <= i < before.len() - 1 {
                assert(before[i] == d[i - 2]);
                assert(text::is_digit(d[i - 2]));
            }
        }
        lemma_param(before, m, "u"@, b, seq![0x75u8]);
        let whole = before + text::decimal(mods_param(m)) + "u"@;
        assert(text::decimal(mods_param(m)).len() == 1);
        vstd::utf8::encode_utf8_decode_utf8(whole);
        assert(sent == vstd::utf8::encode_utf8(whole));
        assert(sent.len() == whole.len());
        assert(whole.subrange(2, sent.len() - 3) =~= d);
    }
}

proof fn lemma_first_piece(a: Seq<char>, rest: Seq<char>)
    requires
        text::all_digits(a),
    ensures
        text::split_on(a + ";"@ + rest, ';') == seq![a] + text::split_on(rest, ';'),
        text::split_on(a, ';') == seq![a],
{
    reveal_strlit(";");
    let s = a + ";"@ + rest;
    text::lemma_until(s, ';');
    text::lemma_until(a, ';');
    assert(s[a.len() as int] == ';');
    assert forall|i: int| 0 <= i < a.len() implies s[i] != ';' && a[i] != ';' by {
        assert(text::is_digit(a[i]));
        assert(s[i] == a[i]);
    }
    assert(text::until(s, ';') == a.len());
    assert(s.take(a.len() as int) =~= a);
    assert(s.skip(a.len() as int + 1) =~= rest);
}

/// A mouse event in the SGR form is `ESC [ <`, three numbers parted by `;` and
/// `M`, or `m` for a release. The numbers are the button, the column and the
/// row; columns and rows count from one.
pub proof fn mouse_reports_read_back(button: u16, col: u16, row: u16, release: bool)
    requires
        col < 0xffff,
        row < 0xffff,
    ensures
        ({
            let t = vstd::utf8::decode_utf8(mouse_bytes(true, button, col, row, release));
            let n = t.len() as int;
            let numbers = text::split_on(t.subrange(3, n - 1), ';');
            &&& n > 4
            &&& t[0] == '\x1b' && t[1] == '[' && t[2] == '<'
            &&& t[n - 1] == (if release {
                'm'
            } else {
                'M'
            })
            &&& numbers.len() == 3
            &&& text::digits_value(numbers[0]) == button
            &&& text::digits_value(numbers[1]) == col + 1
            &&& text::digits_value(numbers[2]) == row + 1
        }),
{
    reveal_strlit("\x1b[<");
    reveal_strlit(";");
    reveal_strlit("m");
    reveal_strlit("M");
    let b = text::decimal(button as nat);
    let c = text::decimal((col + 1) as nat);
    let r = text::decimal((row + 1) as nat);
    text::lemma_decimal(button as nat);
    text::lemma_decimal((col + 1) as nat);
    text::lemma_decimal((row + 1) as nat);
    let end = if release {
        "m"@
    } else {
        "M"@
    };
    let t = "\x1b[<"@ + b + ";"@ + c + ";"@ + r + end;
    vstd::utf8::encode_utf8_decode_utf8(t);
    assert(t.subrange(3, t.len() - 1) =~= b + ";"@ + (c + ";"@ + r));
    lemma_first_piece(b, c + ";"@ + r);
    lemma_first_piece(c, r);
    lemma_first_piece(r, r);
}

/// The older form of a mouse event is `ESC [ M` and three bytes, each raised by
/// 32: the button, or 3 for a release, then the column and the row, which count
/// from one and stop at 222.
pub proof fn short_mouse_reports_read_back(button: u16, col: u16, row: u16, release: bool)
    requires
        col < 0xffff,
        row < 0xffff,
    ensures
        ({
            let t = mouse_bytes(false, button, col, row, release);
            &&& t.len() == 6
            &&& t[0] == 0x1b && t[1] == 0x5b && t[2] == 0x4d
            &&& release ==> t[3] - 32 == 3
            &&& !release && button < 128 ==> t[3] - 32 == button
            &&& col < 222 ==> t[4] - 32 == col + 1
            &&& row < 222 ==> t[5] - 32 == row + 1
            &&& col >= 222 ==> t[4] - 32 == 222
            &&& row >= 222 ==> t[5] - 32 == 222
        }),
{
}

} // verus!
