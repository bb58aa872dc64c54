//! Key tokens compiled to the bytes that a terminal sends.

use ezpn::keymap::keyspec::{compile_to_bytes, is_named_key, ParseError};

fn t(s: &str) -> String {
    s.to_string()
}

fn compile(strs: &[&str]) -> Result<Vec<u8>, ParseError> {
    let toks: Vec<String> = strs.iter().map(|s| t(s)).collect();
    compile_to_bytes(&toks)
}

#[test]
fn literal_single_char() {
    assert_eq!(compile(&["a"]).unwrap(), b"a");
}

#[test]
fn ctrl_letter_collapses_to_control_code() {
    assert_eq!(compile(&["C-a"]).unwrap(), &[0x01]);
    assert_eq!(compile(&["C-c"]).unwrap(), &[0x03]);
    assert_eq!(compile(&["C-l"]).unwrap(), &[0x0c]);
}

#[test]
fn ctrl_alt_letter_uses_esc_prefix() {
    // C-M-x → 0x1b 0x18
    assert_eq!(compile(&["C-M-x"]).unwrap(), &[0x1b, 0x18]);
}

#[test]
fn named_keys_round_trip_table() {
    // Spot-check every documented Named key.
    let pairs: &[(&str, &[u8])] = &[
        ("Enter", b"\r"),
        ("Tab", b"\t"),
        ("Esc", b"\x1b"),
        ("Space", b" "),
        ("Backspace", b"\x7f"),
        ("Delete", b"\x1b[3~"),
        ("Up", b"\x1b[A"),
        ("Down", b"\x1b[B"),
        ("Left", b"\x1b[D"),
        ("Right", b"\x1b[C"),
        ("Home", b"\x1b[H"),
        ("End", b"\x1b[F"),
        ("PageUp", b"\x1b[5~"),
        ("PageDown", b"\x1b[6~"),
        ("F1", b"\x1bOP"),
        ("F4", b"\x1bOS"),
        ("F5", b"\x1b[15~"),
        ("F12", b"\x1b[24~"),
    ];
    for (name, want) in pairs {
        let got = compile(&[name]).unwrap();
        assert_eq!(&got, want, "mismatch on Named '{name}'");
    }
}

#[test]
fn multi_token_concat_no_separator() {
    // 'echo' Space 'hi' Enter → b"echo hi\r"
    assert_eq!(
        compile(&["echo", "Space", "hi", "Enter"]).unwrap(),
        b"echo hi\r"
    );
}

#[test]
fn multi_char_token_is_literal() {
    assert_eq!(compile(&["echo hi"]).unwrap(), b"echo hi");
}

#[test]
fn shift_tab_is_back_tab() {
    assert_eq!(compile(&["S-Tab"]).unwrap(), b"\x1b[Z");
}

#[test]
fn alt_named_uses_esc_prefix() {
    let got = compile(&["M-Up"]).unwrap();
    assert_eq!(got, b"\x1b\x1b[A", "M-Up = ESC + Up");
}

#[test]
fn token_with_dash_but_no_modifier_is_literal() {
    // "long-name" must NOT be parsed as chord — first segment "long" is
    // not a Modifier, so the entire token is literal text.
    assert_eq!(compile(&["long-name"]).unwrap(), b"long-name");
}

#[test]
fn rejects_unknown_modifier() {
    // First segment 'X' is not a Modifier and the token contains '-',
    // so this falls through to literal text — no error, just bytes.
    // The actual reject case is when a *valid* modifier is followed by
    // an unknown one mid-token. Asserted in the next test.
    assert_eq!(compile(&["X-a"]).unwrap(), b"X-a");
}

#[test]
fn rejects_unknown_modifier_after_valid_one() {
    let e = compile(&["C-X-y"]).unwrap_err();
    assert!(e.to_string().contains("unknown modifier 'X'"), "got: {}", e.to_string());
}

#[test]
fn rejects_empty_modifier_segment() {
    let e = compile(&["C--a"]).unwrap_err();
    assert!(e.to_string().contains("empty modifier"), "got: {}", e.to_string());
}

#[test]
fn rejects_chord_without_atom() {
    let e = compile(&["C-"]).unwrap_err();
    assert!(e.to_string().contains("incomplete chord"), "got: {}", e.to_string());
}

#[test]
fn rejects_empty_token() {
    let e = compile(&[""]).unwrap_err();
    assert!(e.to_string().contains("empty chord"), "got: {}", e.to_string());
}

#[test]
fn rejects_newline_in_token() {
    let e = compile(&["abc\ndef"]).unwrap_err();
    assert!(e.to_string().contains("newline"), "got: {}", e.to_string());
}

#[test]
fn rejects_empty_input() {
    let toks: Vec<String> = vec![];
    let e = compile_to_bytes(&toks).unwrap_err();
    assert!(e.to_string().contains("no keys"), "got: {}", e.to_string());
}

#[test]
fn is_named_key_recognises_table_entries() {
    assert!(is_named_key("Enter"));
    assert!(is_named_key("F12"));
    assert!(!is_named_key("enter")); // case-sensitive
    assert!(!is_named_key("hello"));
}

#[test]
fn rejects_unsupported_named_modifier_combo() {
    // C-Enter is ambiguous across terminals; we surface a clear error
    // rather than emit an arbitrary encoding.
    let e = compile(&["C-Enter"]).unwrap_err();
    assert!(
        e.to_string().contains("unsupported modifier on named key"),
        "got: {}", e.to_string()
    );
}

#[test]
fn modifiers_of_a_token_may_come_in_any_order() {
    let want = compile_to_bytes(&["C-M-x".to_string()]).unwrap();
    for token in ["M-C-x", "C-M-C-x"] {
        assert_eq!(compile_to_bytes(&[token.to_string()]).unwrap(), want);
    }
}
