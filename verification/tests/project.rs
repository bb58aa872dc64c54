//! Workspaces: layouts, panes and what their fields expand to.

use ezpn::env_interp::{expand, parse_dotenv, EnvContext, ExpandError};
use ezpn::hooks::{HookEvent, RawHook};
use ezpn::pane::PaneLaunch;
use ezpn::project::{
    format_expand_err, load_project_from, resolve_layout, resolve_project, EnvLoad,
    PaneExpansion, PaneSection, ProjectConfig, ResolvedProject, RestartPolicy, WorkspaceSection,
};

fn pane(command: &str) -> PaneSection {
    PaneSection {
        command: Some(command.to_string()),
        cwd: None,
        name: None,
        env: Vec::new(),
        restart: RestartPolicy::default(),
        shell: None,
        persist_scrollback: None,
    }
}

fn config(layout: Option<&str>, pane: Vec<PaneSection>) -> ProjectConfig {
    ProjectConfig {
        workspace: layout.map(|l| WorkspaceSection {
            layout: Some(l.to_string()),
            rows: None,
            cols: None,
        }),
        pane,
        hooks: Vec::new(),
    }
}

/// Fields that hold no references expand to themselves.
fn literal(panes: &[PaneSection]) -> EnvLoad {
    EnvLoad::Ready(
        panes
            .iter()
            .map(|p| PaneExpansion {
                env: p.env.iter().map(|(k, v)| (k.clone(), Ok(v.clone()))).collect(),
                command: p.command.clone().map(Ok),
                cwd: p.cwd.clone().map(Ok),
                name: p.name.clone().map(Ok),
                shell: p.shell.clone().map(Ok),
            })
            .collect(),
    )
}

fn resolve(c: &ProjectConfig) -> Result<ResolvedProject, String> {
    resolve_project("/w/.ezpn.toml", c, &literal(&c.pane), "/w")
}

#[test]
fn every_pane_of_the_layout_gets_a_launch() {
    let c = config(Some("7:3/5:5"), vec![pane("vim"), pane("make")]);
    let p = resolve(&c).unwrap();
    assert_eq!(p.layout.pane_count(), 4);
    let ids = p.layout.pane_ids();
    assert!(matches!(&p.launches[&ids[0]], PaneLaunch::Command(s) if s == "vim"));
    assert!(matches!(&p.launches[&ids[1]], PaneLaunch::Command(s) if s == "make"));
    assert!(matches!(p.launches[&ids[2]], PaneLaunch::Shell));
    assert_eq!(p.launches.len(), 4);
}

#[test]
fn a_grid_is_a_layout_too() {
    let mut c = config(None, Vec::new());
    c.workspace = Some(WorkspaceSection { layout: None, rows: Some(2), cols: Some(3) });
    assert_eq!(resolve_layout(&c).unwrap().pane_count(), 6);
    c.workspace = Some(WorkspaceSection { layout: None, rows: Some(20), cols: Some(30) });
    assert!(resolve_layout(&c).is_err());
    c.workspace = Some(WorkspaceSection { layout: Some("1:x".into()), rows: None, cols: None });
    assert!(resolve_layout(&c).is_err());
}

#[test]
fn only_explicit_overrides_are_kept() {
    let mut panes = vec![pane("a"), pane("b"), pane("c")];
    panes[0].persist_scrollback = Some(true);
    panes[2].persist_scrollback = Some(false);
    let p = resolve(&config(Some("1:1:1"), panes)).unwrap();
    let ids = p.layout.pane_ids();
    assert_eq!(p.persist_scrollback.get(&ids[0]), Some(&true));
    assert_eq!(p.persist_scrollback.get(&ids[1]), None);
    assert_eq!(p.persist_scrollback.get(&ids[2]), Some(&false));
}

#[test]
fn fields_are_taken_as_they_expand() {
    let mut section = pane("run ${PORT}");
    section.cwd = Some("sub".to_string());
    section.name = Some("web".to_string());
    section.shell = Some("/bin/zsh".to_string());
    section.restart = RestartPolicy::Always;
    section.env = vec![("PORT".to_string(), "${BASE}".to_string())];
    let c = config(Some("1"), vec![section]);
    let env = EnvLoad::Ready(vec![PaneExpansion {
        env: vec![("PORT".to_string(), Ok("8080".to_string()))],
        command: Some(Ok("run 8080".to_string())),
        cwd: Some(Ok("sub".to_string())),
        name: Some(Ok("web".to_string())),
        shell: Some(Ok("/bin/zsh".to_string())),
    }]);
    let p = resolve_project("/w/.ezpn.toml", &c, &env, "/w").unwrap();
    let id = p.layout.pane_ids()[0];
    assert!(matches!(&p.launches[&id], PaneLaunch::Command(s) if s == "run 8080"));
    assert_eq!(p.cwds[&id], "/w/sub");
    assert_eq!(p.names[&id], "web");
    assert_eq!(p.shells[&id], "/bin/zsh");
    assert_eq!(p.restarts[&id], RestartPolicy::Always);
    assert_eq!(p.envs[&id], vec![("PORT".to_string(), "8080".to_string())]);
}

#[test]
fn a_field_that_does_not_expand_is_named() {
    let c = config(Some("1"), vec![pane("run ${NEED:?}")]);
    let env = EnvLoad::Ready(vec![PaneExpansion {
        env: Vec::new(),
        command: Some(Err("NEED is unset".to_string())),
        cwd: None,
        name: None,
        shell: None,
    }]);
    let err = resolve_project("/w/.ezpn.toml", &c, &env, "/w").err().unwrap();
    assert!(err.contains("NEED is unset") && err.contains("command"), "got: {err}");
    assert!(format_expand_err("env", "PORT", "NEED is unset").contains("PORT"));
}

#[test]
fn environment_files_that_fail_end_the_loading() {
    let c = config(Some("1"), vec![pane("a")]);
    let err = resolve_project("/w/x", &c, &EnvLoad::DotenvFailed("bad line".into()), "/w").err().unwrap();
    assert_eq!(err, "loading .env.local: bad line");
    let err = resolve_project("/w/x", &c, &EnvLoad::SecretsFailed("mode".into()), "/w").err().unwrap();
    assert_eq!(err, "loading secrets: mode");
}

#[test]
fn hooks_are_checked_when_a_project_is_loaded() {
    let mut c = config(Some("1"), vec![pane("a")]);
    c.hooks.push(RawHook { event: "after_attach".into(), argv: vec!["true".into()], when: None });
    assert_eq!(resolve(&c).unwrap().hooks.len(), 1);
    c.hooks.push(RawHook { event: "after_typo".into(), argv: vec!["true".into()], when: None });
    let err = resolve(&c).err().unwrap();
    assert!(err.contains("after_typo"), "got: {err}");
}

#[test]
fn files_that_cannot_be_read_or_parsed_are_named() {
    let read_as = |read| {
        load_project_from("/w/x", &read, &Ok(None), Ok(Vec::new()), Vec::new(), "/w").err().unwrap()
    };
    let err = read_as(Err("denied".into()));
    assert!(err.contains("/w/x") && err.contains("denied"), "got: {err}");
    let err = read_as(Ok(Err("line 3".into())));
    assert!(err.contains("/w/x") && err.contains("line 3"), "got: {err}");
}

fn pairs(v: &[(&str, &str)]) -> Vec<(String, String)> {
    v.iter().map(|(a, b)| (a.to_string(), b.to_string())).collect()
}

/// Loads a project of one pane.
fn load(
    section: PaneSection,
    dotenv: Option<&str>,
    secrets: Result<Vec<(String, String)>, String>,
    process: &[(&str, &str)],
) -> Result<ResolvedProject, String> {
    let c = config(Some("1"), vec![section]);
    let dotenv = Ok(dotenv.map(|s| s.to_string()));
    load_project_from("/w/.ezpn.toml", &Ok(Ok(c)), &dotenv, secrets, pairs(process), "/w")
}

#[test]
fn each_section_is_expanded_for_its_own_pane() {
    let c = config(Some("1:1"), vec![pane("${A}"), pane("${B}")]);
    let dotenv = Ok(Some("A=first\nB=second\n".to_string()));
    let p = load_project_from("/w/x", &Ok(Ok(c)), &dotenv, Ok(Vec::new()), Vec::new(), "/w").unwrap();
    let run = |id: usize| match &p.launches[&id] {
        PaneLaunch::Command(cmd) => cmd.clone(),
        PaneLaunch::Shell => String::new(),
    };
    assert_eq!((run(0), run(1)), ("first".to_string(), "second".to_string()));
}

fn command(p: &ResolvedProject) -> &str {
    match p.launches.values().next().expect("one pane") {
        PaneLaunch::Command(cmd) => cmd,
        PaneLaunch::Shell => panic!("expected Command"),
    }
}

#[test]
fn resolved_persist_scrollback_only_records_explicit_overrides() {
    let mut panes = vec![pane("echo a"), pane("echo b")];
    panes[0].persist_scrollback = Some(true);
    let resolved = resolve(&config(Some("1:1"), panes)).expect("load");
    assert_eq!(resolved.persist_scrollback.len(), 1);
    assert_eq!(resolved.persist_scrollback.values().next(), Some(&true));
}

#[test]
fn command_with_dollar_var_resolves() {
    let p = load(
        pane("$EZPN_TEST_EDITOR_VAR ."),
        None,
        Ok(Vec::new()),
        &[("EZPN_TEST_EDITOR_VAR", "nvim")],
    )
    .expect("load");
    assert_eq!(command(&p), "nvim .");
}

#[test]
fn command_with_default_uses_default_when_unset() {
    let p = load(pane("${EZPN_TEST_PORT_VAR:-3000}"), None, Ok(Vec::new()), &[]).expect("load");
    assert_eq!(command(&p), "3000");
}

#[test]
fn dotenv_overrides_process_env_at_project_level() {
    let p = load(
        pane("${EZPN_TEST_HOST_VAR}"),
        Some("EZPN_TEST_HOST_VAR=from-dotenv\n"),
        Ok(Vec::new()),
        &[("EZPN_TEST_HOST_VAR", "from-process")],
    )
    .expect("load");
    assert_eq!(command(&p), "from-dotenv");
}

#[test]
fn secret_ref_resolves_from_0600_secrets_file() {
    let p = load(
        pane("psql --password=${secret:DB_PASSWORD}"),
        None,
        Ok(pairs(&[("DB_PASSWORD", "hunter2")])),
        &[],
    )
    .expect("load");
    assert_eq!(command(&p), "psql --password=hunter2");
}

#[test]
fn secret_file_with_mode_0644_refused_at_load() {
    let facts = ezpn::socket_security::FileFacts { right_kind: true, uid: 7, mode: 0o100644 };
    let refused = ezpn::socket_security::verify_secrets_file("/s/secrets.toml", facts, 7).unwrap_err();
    let err = load(pane("echo ok"), None, Err(refused), &[]).err().unwrap();
    assert!(
        err.contains("0600"),
        "error should mention required mode: {err}"
    );
    assert!(err.starts_with("loading secrets: "));
}

#[test]
fn required_var_unset_errors_with_offending_name() {
    let err = load(
        pane("${EZPN_TEST_REQUIRED_VAR:?must be set}"),
        None,
        Ok(Vec::new()),
        &[],
    )
    .err()
    .unwrap();
    assert!(
        err.contains("EZPN_TEST_REQUIRED_VAR"),
        "error missing var name: {err}"
    );
    assert!(err.contains("command"), "error missing field name: {err}");
}

#[test]
fn per_pane_env_value_itself_is_expanded() {
    let mut section = pane("echo ${API_URL}");
    section.env = pairs(&[("API_URL", "${EZPN_TEST_BASE_URL}/v1")]);
    let p = load(
        section,
        None,
        Ok(Vec::new()),
        &[("EZPN_TEST_BASE_URL", "https://api.example.com")],
    )
    .expect("load");
    let env = p.envs.values().next().expect("one pane env map");
    assert_eq!(env, &pairs(&[("API_URL", "https://api.example.com/v1")]));
    assert_eq!(command(&p), "echo https://api.example.com/v1");
}

#[test]
fn project_hooks_validated_on_load() {
    let mut c = config(None, vec![pane("echo a"), pane("echo b")]);
    c.hooks.push(RawHook { event: "after_pane_exit".into(), argv: vec!["true".into()], when: None });
    let resolved = resolve(&c).expect("load");
    assert_eq!(resolved.hooks.len(), 1);
    assert_eq!(resolved.hooks[0].event, HookEvent::AfterPaneExit);
}

#[test]
fn project_hooks_unknown_event_refuses_load() {
    let mut c = config(None, vec![pane("echo a")]);
    c.hooks.push(RawHook { event: "after_typo".into(), argv: vec!["true".into()], when: None });
    let err = resolve(&c).err().unwrap();
    assert!(err.contains("unknown hook event"), "{err}");
}

#[test]
fn references_are_expanded_once() {
    let c = EnvContext {
        pane: pairs(&[("A", "$B")]),
        dotenv: pairs(&[("B", "b"), ("E", "")]),
        process: pairs(&[("A", "x"), ("B", "y"), ("C", "c")]),
        secrets: pairs(&[("K", "s3")]),
    };
    assert_eq!(expand("$A-${B}-$C", &c).unwrap(), "$B-b-c");
    assert_eq!(expand("cost $5 and $", &c).unwrap(), "cost $5 and $");
    assert_eq!(expand("[$K][${secret:K}]", &c).unwrap(), "[][s3]");
    assert_eq!(expand("${E:-d}${C:-d}", &c).unwrap(), "dc");
    assert_eq!(expand("${A", &c).unwrap_err(), ExpandError::Unclosed);
    assert_eq!(
        expand("${secret:NO}", &c).unwrap_err(),
        ExpandError::MissingSecret("NO".to_string())
    );
    assert!(matches!(expand("${A!}", &c), Err(ExpandError::BadReference(_))));
    assert!(matches!(expand("${N:?why}", &c), Err(ExpandError::Required { .. })));
}

#[test]
fn files_of_variables_are_read_line_by_line() {
    assert_eq!(
        parse_dotenv("# note\n\nA=1\n B = x=y \n").unwrap(),
        pairs(&[("A", "1"), ("B", "x=y")])
    );
    assert_eq!(parse_dotenv("A=1\nnonsense\n").unwrap_err(), "line 2: expected KEY=VALUE");
}
