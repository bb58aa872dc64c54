//! The settings panel, transient messages and reloading.

use ezpn::keys::{KeyCode, KeyEvent, KeyModifiers};
use ezpn::render::BorderStyle;
use ezpn::settings::{
    config_path, has_toml_table_header, is_reloadable, EzpnConfig, FlashKind, ReloadOutcome,
    Settings, SettingsAction,
};

fn config(border: BorderStyle, shell: &str) -> EzpnConfig {
    EzpnConfig {
        border,
        shell: shell.to_string(),
        scrollback: 10_000,
        show_status_bar: true,
        show_tab_bar: true,
        prefix_key: 'b',
    }
}

fn build_settings(cfg: EzpnConfig) -> Settings {
    let mut s = Settings::new(cfg.border);
    s.show_status_bar = cfg.show_status_bar;
    s.show_tab_bar = cfg.show_tab_bar;
    s.bind_runtime(cfg);
    s
}

fn reload(s: &mut Settings, text: &str, cfg: EzpnConfig) -> ReloadOutcome {
    s.reload_config("/c/config.toml", Ok(text.to_string()), cfg, "/bin/sh", 10_000)
}

#[test]
fn reload_applies_border_change() {
    let mut settings = build_settings(config(BorderStyle::Rounded, "/bin/sh"));
    assert_eq!(settings.border_style, BorderStyle::Rounded);

    let outcome = reload(
        &mut settings,
        "[global]\nborder = \"heavy\"\n",
        config(BorderStyle::Heavy, "/bin/sh"),
    );

    assert!(matches!(outcome, ReloadOutcome::Reloaded { .. }));
    assert_eq!(settings.border_style, BorderStyle::Heavy);
    assert_eq!(settings.config().border, BorderStyle::Heavy);
}

#[test]
fn reload_warns_on_non_reloadable_shell_change() {
    let mut settings = build_settings(config(BorderStyle::Single, "/bin/zsh"));
    assert_eq!(settings.config().shell, "/bin/zsh");

    let outcome = reload(
        &mut settings,
        "[global]\nshell = \"/bin/fish\"\nborder = \"double\"\n",
        config(BorderStyle::Double, "/bin/fish"),
    );

    match outcome {
        ReloadOutcome::Reloaded {
            non_reloadable_changed,
        } => {
            assert!(
                non_reloadable_changed.contains(&"shell"),
                "expected `shell` in warn list, got {non_reloadable_changed:?}"
            );
        }
        ReloadOutcome::Error(e) => panic!("expected Reloaded, got Error({e})"),
    }
    // Reloadable field applied.
    assert_eq!(settings.border_style, BorderStyle::Double);
    // The held configuration follows the file.
    assert_eq!(settings.config().shell, "/bin/fish");
}

#[test]
fn reload_parse_error_retains_previous_config() {
    let mut settings = build_settings(config(BorderStyle::Heavy, "/bin/zsh"));
    assert_eq!(settings.border_style, BorderStyle::Heavy);
    let prev_border = settings.config().border;

    // Unclosed string in a sectioned document.
    let outcome = reload(
        &mut settings,
        "[global]\nshell = \"/bin/zsh\nborder = \"double\"\n",
        config(BorderStyle::Double, "/bin/zsh"),
    );

    match outcome {
        ReloadOutcome::Error(e) => {
            assert!(!e.is_empty() && !e.contains("[global]"), "got: {e}");
        }
        _ => panic!("expected Error on malformed TOML"),
    }
    // Settings + held config unchanged.
    assert_eq!(settings.border_style, BorderStyle::Heavy);
    assert_eq!(settings.config().border, prev_border);
}

#[test]
fn a_file_that_cannot_be_read_is_named() {
    let mut settings = build_settings(config(BorderStyle::Heavy, "/bin/zsh"));
    let outcome = settings.reload_config(
        "/c/config.toml",
        Err("denied".to_string()),
        config(BorderStyle::Double, "/bin/zsh"),
        "/bin/sh",
        10_000,
    );
    assert!(matches!(outcome, ReloadOutcome::Error(ref e) if e == "read /c/config.toml: denied"));
    assert_eq!(settings.border_style, BorderStyle::Heavy);
}

#[test]
fn flash_kind_durations_match_spec() {
    assert_eq!(FlashKind::Info.duration(), 1_000);
    assert_eq!(FlashKind::Error.duration(), 3_000);
}

#[test]
fn tick_flash_clears_after_duration() {
    let mut settings = Settings::new(BorderStyle::Rounded);
    settings.set_flash("hello", FlashKind::Info, 5_000);
    assert!(settings.flash_message.is_some());
    settings.tick_flash(5_500);
    assert!(settings.flash_message.is_some());

    settings.tick_flash(7_000);
    assert!(settings.flash_message.is_none());
}

#[test]
fn is_reloadable_classification() {
    assert!(is_reloadable("border"));
    assert!(is_reloadable("status_bar"));
    assert!(is_reloadable("tab_bar"));
    assert!(is_reloadable("prefix"));
    assert!(!is_reloadable("shell"));
    assert!(!is_reloadable("scrollback"));
    // Unknown -> non-reloadable (caller warns).
    assert!(!is_reloadable("mystery"));
}

#[test]
fn tables_are_seen_by_their_header() {
    assert!(has_toml_table_header("a = 1\n  [global]\n"));
    assert!(!has_toml_table_header("border = heavy\n"));
}

#[test]
fn the_panel_opens_and_closes() {
    let mut s = Settings::new(BorderStyle::Single);
    s.toggle();
    assert!(s.visible);
    let key = |code| KeyEvent::new(code, KeyModifiers::none());
    assert_eq!(s.handle_key(key(KeyCode::Esc)), SettingsAction::Close);
    assert!(!s.visible);
}

#[test]
fn the_configuration_lies_in_the_config_directory() {
    assert_eq!(config_path(Some("/cfg"), Some("/home/me")), "/cfg/ezpn/config.toml");
    assert_eq!(config_path(None, Some("/home/me")), "/home/me/.config/ezpn/config.toml");
}
