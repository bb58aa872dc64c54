//! Command lines of the action vocabulary.

use ezpn::keymap::action::{parse, Action, EnterModeKind, SelectDirection, ToggleTarget};
use ezpn::layout::Direction;

#[test]
fn parses_split_aliases() {
    assert_eq!(
        parse("split").unwrap(),
        Action::SplitWindow(Direction::Horizontal)
    );
    assert_eq!(
        parse("split-window").unwrap(),
        Action::SplitWindow(Direction::Horizontal)
    );
    assert_eq!(
        parse("split -v").unwrap(),
        Action::SplitWindow(Direction::Vertical)
    );
    assert_eq!(
        parse("split vertical").unwrap(),
        Action::SplitWindow(Direction::Vertical)
    );
}

#[test]
fn parses_tab_aliases() {
    assert_eq!(parse("new-tab").unwrap(), Action::NewTab);
    assert_eq!(parse("new-window").unwrap(), Action::NewTab);
    assert_eq!(parse("next-tab").unwrap(), Action::NextTab);
    assert_eq!(parse("prev-tab").unwrap(), Action::PrevTab);
    assert_eq!(parse("previous-window").unwrap(), Action::PrevTab);
}

#[test]
fn parses_select_pane_directions() {
    assert_eq!(
        parse("select-pane left").unwrap(),
        Action::SelectPane(SelectDirection::Left)
    );
    assert_eq!(
        parse("select-pane next").unwrap(),
        Action::SelectPane(SelectDirection::Next)
    );
    assert!(parse("select-pane").is_err());
    assert!(parse("select-pane diagonal").is_err());
}

#[test]
fn parses_enter_mode_variants() {
    assert_eq!(
        parse("enter-mode copy").unwrap(),
        Action::EnterMode(EnterModeKind::Copy)
    );
    assert_eq!(
        parse("enter-mode help").unwrap(),
        Action::EnterMode(EnterModeKind::Help)
    );
    assert!(parse("enter-mode").is_err());
    assert!(parse("enter-mode bogus").is_err());
}

#[test]
fn parses_toggle_variants() {
    assert_eq!(
        parse("toggle hints").unwrap(),
        Action::Toggle(ToggleTarget::Hints)
    );
    assert_eq!(
        parse("toggle status-bar").unwrap(),
        Action::Toggle(ToggleTarget::StatusBar)
    );
}

#[test]
fn parses_rename_with_multi_word_name() {
    assert_eq!(
        parse("rename-tab my pretty tab").unwrap(),
        Action::RenameTab("my pretty tab".to_string())
    );
    assert!(parse("rename-tab").is_err());
}

#[test]
fn rejects_unknown_action() {
    let e = parse("teleport").unwrap_err();
    assert!(e.to_string().contains("unknown action"), "got: {}", e.to_string());
}

#[test]
fn rejects_empty_action() {
    assert!(parse("").is_err());
    assert!(parse("   ").is_err());
}

#[test]
fn two_spellings_mean_the_same() {
    for (a, b) in [
        ("split -v", "split-window -v"),
        ("new-tab", "new-window"),
        ("previous-window", "prev-tab"),
        ("rename-tab logs 2", "rename-window  logs 2"),
        ("layout 7:3", "select-layout 7:3"),
        ("even", "equalize"),
        ("palette", "command-palette"),
    ] {
        assert_eq!(parse(a).unwrap(), parse(b).unwrap());
    }
}
