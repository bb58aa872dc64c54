//! Actions, chords and the tables that bind them.

use ezpn::keymap::{
    apply_keymap_section, apply_table, load_defaults, parse_action, parse_chord, Action,
    ActionParseError, Dir, KeyChord, KeyParseError, Keymap, KeymapTable,
};
use ezpn::keys::{KeyCode, KeyEvent, KeyModifiers};

fn control() -> KeyModifiers {
    KeyModifiers { control: true, ..KeyModifiers::none() }
}

fn alt() -> KeyModifiers {
    KeyModifiers { alt: true, ..KeyModifiers::none() }
}

fn shift() -> KeyModifiers {
    KeyModifiers { shift: true, ..KeyModifiers::none() }
}

/// A set of default bindings as a configuration file spells them.
fn default_text() -> &'static str {
    r#"
    [keymap.prefix]
    "d" = "detach-session"
    "x" = "kill-pane"
    "%" = "split-window-h"
    [keymap.normal]
    "F2" = "equalize"
    "#
}

fn chord(code: KeyCode, mods: KeyModifiers) -> KeyChord {
    KeyChord::new(code, mods)
}


#[test]
fn parses_simple_actions() {
    assert_eq!(parse_action("kill-pane"), Ok(Action::KillPane));
    assert_eq!(parse_action("equalize"), Ok(Action::Equalize));
    assert_eq!(parse_action("detach-session"), Ok(Action::DetachSession));
    assert_eq!(parse_action("reload-config"), Ok(Action::ReloadConfig));
}

#[test]
fn parses_actions_with_args() {
    assert_eq!(
        parse_action("select-window 0"),
        Ok(Action::SelectWindow { index: 0 })
    );
    assert_eq!(
        parse_action("select-pane right"),
        Ok(Action::SelectPane { dir: Dir::Right })
    );
    assert_eq!(
        parse_action("resize-pane left 5"),
        Ok(Action::ResizePane {
            dir: Dir::Left,
            amount: 5
        })
    );
    assert_eq!(
        parse_action("new-window -n logs"),
        Ok(Action::NewWindow {
            name: Some("logs".to_string()),
        })
    );
    assert_eq!(
        parse_action("display-message hello world"),
        Ok(Action::DisplayMessage {
            text: "hello world".to_string(),
        })
    );
    assert_eq!(
        parse_action("set-option border heavy"),
        Ok(Action::SetOption {
            key: "border".to_string(),
            value: "heavy".to_string(),
        })
    );
}

#[test]
fn unknown_action_is_structured_error() {
    let err = parse_action("frobnicate").unwrap_err();
    assert_eq!(err, ActionParseError::UnknownAction("frobnicate".into()));
}

#[test]
fn select_window_rejects_non_integer() {
    let err = parse_action("select-window foo").unwrap_err();
    assert!(matches!(err, ActionParseError::InvalidArgument { .. }));
}

#[test]
fn parses_named_buffer_actions() {
    // set-buffer NAME VALUE — name and value separated by whitespace.
    assert_eq!(
        parse_action("set-buffer foo hello world"),
        Ok(Action::SetBuffer {
            name: "foo".to_string(),
            value: "hello world".to_string(),
        })
    );
    // paste-buffer with explicit name.
    assert_eq!(
        parse_action("paste-buffer foo"),
        Ok(Action::PasteBuffer {
            name: Some("foo".to_string()),
        })
    );
    // paste-buffer with no name → default buffer.
    assert_eq!(
        parse_action("paste-buffer"),
        Ok(Action::PasteBuffer { name: None })
    );
    // list-buffers takes no arguments.
    assert_eq!(parse_action("list-buffers"), Ok(Action::ListBuffers));
}

#[test]
fn buffer_actions_kind_strings_are_stable() {
    // The `kind()` string is the wire / display name.
    assert_eq!(
        Action::SetBuffer {
            name: "n".into(),
            value: "v".into()
        }
        .kind(),
        "set-buffer",
    );
    assert_eq!(
        Action::PasteBuffer { name: None }.kind(),
        "paste-buffer",
    );
    assert_eq!(
        Action::PasteBuffer {
            name: Some("foo".into())
        }
        .kind(),
        "paste-buffer",
    );
    assert_eq!(Action::ListBuffers.kind(), "list-buffers");
}

#[test]
fn set_buffer_requires_name_and_value() {
    let err = parse_action("set-buffer").unwrap_err();
    assert!(
        matches!(
            err,
            ActionParseError::MissingArgument {
                action: "set-buffer",
                arg: "NAME"
            }
        ),
        "expected missing NAME, got {err:?}",
    );
    let err = parse_action("set-buffer onlyname").unwrap_err();
    assert!(
        matches!(
            err,
            ActionParseError::MissingArgument {
                action: "set-buffer",
                arg: "VALUE"
            }
        ),
        "expected missing VALUE, got {err:?}",
    );
}

#[test]
fn vocabulary_includes_every_action_kind() {
    // Every variant of `Action` should appear in `vocabulary()`. We
    // build one Action per variant via parse_action and assert the
    // .kind() shows up.
    let probes = [
        "split-window-h",
        "split-window-v",
        "kill-pane",
        "new-window",
        "rename-window",
        "kill-window",
        "select-window 0",
        "next-window",
        "previous-window",
        "select-pane right",
        "resize-pane up",
        "swap-pane",
        "equalize",
        "select-layout ide",
        "detach-session",
        "kill-session",
        "copy-mode",
        "cancel",
        "begin-selection",
        "copy-selection-and-cancel",
        "reload-config",
        "command-prompt",
        "toggle-settings",
        "toggle-broadcast",
        "display-message hi",
        "set-option a b",
        "set-buffer name value",
        "paste-buffer",
        "list-buffers",
    ];
    for p in probes {
        let action = parse_action(p).unwrap_or_else(|e| panic!("{p:?}: {}", e.to_string()));
        assert!(
            Action::vocabulary().contains(&action.kind()),
            "kind {} missing from vocabulary",
            action.kind()
        );
    }
}


#[test]
fn parses_single_chars() {
    assert_eq!(
        parse_chord("d"),
        Ok(chord(KeyCode::Char('d'), KeyModifiers::none()))
    );
    assert_eq!(
        parse_chord("?"),
        Ok(chord(KeyCode::Char('?'), KeyModifiers::none()))
    );
    // Unmodified `A` normalizes to `a`.
    assert_eq!(
        parse_chord("A"),
        Ok(chord(KeyCode::Char('a'), KeyModifiers::none()))
    );
}

#[test]
fn parses_modified_chords() {
    assert_eq!(
        parse_chord("C-Right"),
        Ok(chord(KeyCode::Right, control()))
    );
    assert_eq!(
        parse_chord("M-x"),
        Ok(chord(KeyCode::Char('x'), alt()))
    );
    assert_eq!(
        parse_chord("S-Tab"),
        Ok(chord(KeyCode::Tab, shift()))
    );
    // Multiple modifiers, any order.
    assert_eq!(
        parse_chord("C-M-Right"),
        Ok(chord(
            KeyCode::Right,
            KeyModifiers { alt: true, ..control() }
        ))
    );
    assert_eq!(
        parse_chord("M-C-Right"),
        Ok(chord(
            KeyCode::Right,
            KeyModifiers { alt: true, ..control() }
        ))
    );
}

#[test]
fn parses_named_keys() {
    assert_eq!(
        parse_chord("F2"),
        Ok(chord(KeyCode::F(2), KeyModifiers::none()))
    );
    assert_eq!(
        parse_chord("Enter"),
        Ok(chord(KeyCode::Enter, KeyModifiers::none()))
    );
    assert_eq!(
        parse_chord("Esc"),
        Ok(chord(KeyCode::Esc, KeyModifiers::none()))
    );
    assert_eq!(
        parse_chord("Space"),
        Ok(chord(KeyCode::Char(' '), KeyModifiers::none()))
    );
    assert_eq!(
        parse_chord("PageUp"),
        Ok(chord(KeyCode::PageUp, KeyModifiers::none()))
    );
}

#[test]
fn rejects_dangling_modifier() {
    assert_eq!(
        parse_chord("C-").unwrap_err(),
        KeyParseError::DanglingModifier
    );
}

#[test]
fn rejects_unknown_named_key() {
    let err = parse_chord("Banana").unwrap_err();
    assert!(matches!(err, KeyParseError::UnknownNamedKey(_)));
}

#[test]
fn from_event_strips_irrelevant_modifiers_and_normalizes_case() {
    let ev = KeyEvent::new(KeyCode::Char('A'), KeyModifiers::none());
    let c = KeyChord::from_event(ev);
    assert_eq!(c.code, KeyCode::Char('a'));
    assert_eq!(c.mods, KeyModifiers::none());

    let ev = KeyEvent::new(KeyCode::Char('A'), shift());
    let c = KeyChord::from_event(ev);
    assert_eq!(c.code, KeyCode::Char('A'));
    assert_eq!(c.mods, shift());
}


#[test]
fn lookup_returns_bound_action() {
    let mut km = Keymap::new();
    km.bind(
        KeymapTable::Prefix,
        parse_chord("d").unwrap(),
        Action::DetachSession,
    );
    let hit = km.lookup(KeymapTable::Prefix, &parse_chord("d").unwrap());
    assert_eq!(hit, Some(&Action::DetachSession));
    // Wrong table → miss.
    assert!(km
        .lookup(KeymapTable::Normal, &parse_chord("d").unwrap())
        .is_none());
}

#[test]
fn clear_drops_bindings_for_table_only() {
    let mut km = Keymap::new();
    km.bind(
        KeymapTable::Prefix,
        parse_chord("d").unwrap(),
        Action::DetachSession,
    );
    km.bind(
        KeymapTable::Normal,
        parse_chord("F2").unwrap(),
        Action::Equalize,
    );
    km.clear(KeymapTable::Prefix);
    assert_eq!(km.len(KeymapTable::Prefix), 0);
    assert_eq!(km.len(KeymapTable::Normal), 1);
}


#[test]
fn apply_table_binds_and_clears() {
    let mut km = Keymap::new();
    km.bind(
        KeymapTable::Prefix,
        parse_chord("d").unwrap(),
        Action::DetachSession,
    );
    let raw: toml::Table = toml::from_str(
        r#"
        clear = true
        "d" = "kill-window"
        "%" = "split-window-h"
        "#,
    )
    .unwrap();
    apply_table(&mut km, KeymapTable::Prefix, &raw).unwrap();
    // `clear = true` removed the default DetachSession; user's d→kill-window
    // is the new binding.
    let hit = km.lookup(KeymapTable::Prefix, &parse_chord("d").unwrap());
    assert_eq!(hit, Some(&Action::KillWindow));
}

#[test]
fn apply_table_rejects_unknown_action_with_structured_error() {
    let mut km = Keymap::new();
    let raw: toml::Table = toml::from_str(r#""d" = "frobnicate""#).unwrap();
    let err = apply_table(&mut km, KeymapTable::Prefix, &raw).unwrap_err();
    assert_eq!(err.table, "prefix");
    assert_eq!(err.key, "d");
    assert!(err.message.contains("unknown action"));
}

#[test]
fn apply_table_rejects_invalid_key_spec() {
    let mut km = Keymap::new();
    let raw: toml::Table = toml::from_str(r#""C-" = "kill-pane""#).unwrap();
    let err = apply_table(&mut km, KeymapTable::Prefix, &raw).unwrap_err();
    assert!(err.message.contains("invalid key"), "{}", err.to_string());
}

#[test]
fn apply_keymap_section_rejects_unknown_table() {
    let mut km = Keymap::new();
    let raw: toml::Table = toml::from_str(
        r#"
        [mystery]
        "d" = "kill-pane"
        "#,
    )
    .unwrap();
    let err = apply_keymap_section(&mut km, &raw).unwrap_err();
    assert_eq!(err.table, "mystery");
    assert!(err.message.contains("unknown keymap table"));
}

#[test]
fn defaults_load_without_panic_and_have_bindings() {
    let km = load_defaults(default_text()).unwrap();
    assert!(!km.is_empty(), "defaults must contain at least one binding");
    assert!(
        km.len(KeymapTable::Prefix) > 0,
        "defaults must have prefix bindings"
    );
}

#[test]
fn user_clear_drops_defaults_full_path() {
    // `[keymap.prefix] clear = true` drops every default in that table.
    let mut km = load_defaults(default_text()).unwrap();
    let before = km.len(KeymapTable::Prefix);
    assert!(before > 0);
    let raw: toml::Table = toml::from_str(
        r#"
        [prefix]
        clear = true
        "x" = "kill-pane"
        "#,
    )
    .unwrap();
    apply_keymap_section(&mut km, &raw).unwrap();
    // Only the user's single binding remains.
    assert_eq!(km.len(KeymapTable::Prefix), 1);
}

#[test]
fn user_can_remap_prefix_d_to_kill_window() {
    let mut km = load_defaults(default_text()).unwrap();
    let raw: toml::Table = toml::from_str(
        r#"
        [prefix]
        "d" = "kill-window"
        "#,
    )
    .unwrap();
    apply_keymap_section(&mut km, &raw).unwrap();
    let hit = km.lookup(KeymapTable::Prefix, &parse_chord("d").unwrap());
    assert_eq!(hit, Some(&Action::KillWindow));
}

#[test]
fn defaults_need_sound_keymap_tables() {
    assert!(load_defaults("[keymap.prefix").is_none());
    assert!(load_defaults("[other]\nx = 1").is_none());
    assert!(load_defaults("[keymap.prefix]\n\"d\" = \"frobnicate\"").is_none());
    assert!(load_defaults("[keymap.mystery]\n").is_none());
}

#[test]
fn a_second_binding_of_a_chord_is_warned_of() {
    let mut km = load_defaults(default_text()).unwrap();
    let raw: toml::Table = toml::from_str(r#""d" = "kill-window""#).unwrap();
    let warnings = apply_table(&mut km, KeymapTable::Prefix, &raw).unwrap();
    assert_eq!(warnings, vec!["[keymap.prefix] d overrides previous binding".to_string()]);
}

#[test]
fn only_string_values_are_actions() {
    let mut km = Keymap::new();
    let raw: toml::Table = toml::from_str(r#""d" = 3"#).unwrap();
    let err = apply_table(&mut km, KeymapTable::Prefix, &raw).unwrap_err();
    assert_eq!(err.message, "value must be a string action");
}

#[test]
fn tables_are_known_by_their_names() {
    for table in KeymapTable::all() {
        assert_eq!(KeymapTable::from_str(table.name()), Some(table));
    }
    assert_eq!(KeymapTable::from_str("mystery"), None);
}

#[test]
fn a_parsed_chord_matches_its_event() {
    let c = parse_chord("C-Right").unwrap();
    assert_eq!(KeyChord::from_event(KeyEvent::new(KeyCode::Right, control())), c);
    assert_eq!(parse_chord("").unwrap_err(), KeyParseError::Empty);
    assert!(matches!(parse_chord("X-a"), Err(KeyParseError::UnknownNamedKey(_))));
    assert_eq!(parse_action("").unwrap_err(), ActionParseError::Empty);
}

#[test]
fn modifiers_may_come_in_any_order_and_twice() {
    let want = parse_chord("C-M-x").unwrap();
    for text in ["M-C-x", "c-m-x", "C-C-M-x", " M-c-M-x "] {
        assert_eq!(parse_chord(text).unwrap(), want);
    }
}

#[test]
fn the_words_of_the_vocabulary_are_distinct() {
    let mut words = Action::vocabulary();
    let n = words.len();
    words.sort_unstable();
    words.dedup();
    assert_eq!(words.len(), n);
}
