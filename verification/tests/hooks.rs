//! Hooks: events, payloads, conditions, runs and logs.

use ezpn::hooks::logs::{log_target, stale_logs, LogFile};
use ezpn::hooks::{
    hooks_log_dir, run_log, spawn_failure_log, substitute, wait_step, ChildPoll, Hook, HookEvent,
    HookExecutor, HookParseError, HookPayload, HookStore, RawHook, WaitStep, WhenPredicate,
    HOOK_LOG_KEEP, HOOK_LOG_MAX_BYTES, HOOK_TIMEOUT,
};

fn payload(pairs: &[(&str, &str)]) -> HookPayload {
    let mut p = HookPayload::new();
    for (k, v) in pairs {
        p.insert(k, v);
    }
    p
}

fn texts(words: &[&str]) -> Vec<String> {
    words.iter().map(|w| w.to_string()).collect()
}

#[test]
fn event_vocabulary_is_complete_and_round_trips() {
    let names = [
        "before_attach",
        "after_attach",
        "before_detach",
        "after_detach",
        "after_session_create",
        "before_session_destroy",
        "after_pane_spawn",
        "after_pane_exit",
        "on_cwd_change",
        "on_focus_change",
        "on_config_reload",
    ];
    assert_eq!(HookEvent::all().len(), names.len());
    for name in names {
        let ev = HookEvent::from_str(name).expect(name);
        assert_eq!(ev.name(), name);
    }
    assert!(HookEvent::from_str("after_pane_spawned").is_none());
}

#[test]
fn raw_hook_with_unknown_event_is_rejected() {
    let raw = RawHook {
        event: "after_typo".to_string(),
        argv: vec!["true".to_string()],
        when: None,
    };
    let err = Hook::from_raw(raw).unwrap_err();
    assert!(matches!(err, HookParseError::UnknownEvent(_)));
}

#[test]
fn raw_hook_with_empty_exec_is_rejected() {
    let raw = RawHook {
        event: "after_attach".to_string(),
        argv: vec![],
        when: None,
    };
    assert!(matches!(
        Hook::from_raw(raw),
        Err(HookParseError::EmptyExec)
    ));
}

#[test]
fn raw_hook_with_empty_program_is_rejected() {
    let raw = RawHook {
        event: "after_attach".to_string(),
        argv: texts(&["", "x"]),
        when: None,
    };
    assert!(matches!(Hook::from_raw(raw), Err(HookParseError::EmptyProgram)));
}

#[test]
fn raw_hook_with_unreadable_condition_is_rejected() {
    let raw = RawHook {
        event: "after_attach".to_string(),
        argv: texts(&["true"]),
        when: Some("always".to_string()),
    };
    let err = Hook::from_raw(raw).unwrap_err();
    assert!(matches!(err, HookParseError::InvalidWhen(_)));
    assert!(!err.to_string().is_empty());
}

#[test]
fn substitute_does_not_resplit_on_whitespace() {
    let p = payload(&[("user_var", "; rm -rf ~")]);
    let mut missing = Vec::new();
    let out = substitute("${user_var}", &p, &mut missing);
    // The literal value comes through as a single string.
    assert_eq!(out, "; rm -rf ~");
    assert!(missing.is_empty());
}

#[test]
fn substitute_preserves_argv_arity_with_hostile_input() {
    let p = payload(&[("user_var", "; rm -rf ~")]);
    let exec = [
        "sh".to_string(),
        "-c".to_string(),
        "${user_var}".to_string(),
    ];
    let mut missing = Vec::new();
    let argv: Vec<String> = exec
        .iter()
        .map(|s| substitute(s, &p, &mut missing))
        .collect();
    assert_eq!(argv.len(), 3, "substitution must not change argv length");
    assert_eq!(argv[0], "sh");
    assert_eq!(argv[1], "-c");
    assert_eq!(argv[2], "; rm -rf ~");
}

#[test]
fn substitute_handles_multiple_placeholders_in_one_arg() {
    let p = payload(&[("a", "X"), ("b", "Y")]);
    let mut missing = Vec::new();
    let out = substitute("[${a}-${b}]", &p, &mut missing);
    assert_eq!(out, "[X-Y]");
}

#[test]
fn substitute_missing_field_is_empty_and_recorded() {
    let p = payload(&[]);
    let mut missing = Vec::new();
    let out = substitute("v=${nope}", &p, &mut missing);
    assert_eq!(out, "v=");
    assert_eq!(missing, vec!["nope".to_string()]);
}

#[test]
fn substitute_preserves_unrelated_dollar_signs() {
    let p = payload(&[]);
    let mut missing = Vec::new();
    // `$5` and `$VAR` (no braces) are not our syntax.
    let out = substitute("price=$5 home=$HOME", &p, &mut missing);
    assert_eq!(out, "price=$5 home=$HOME");
}

#[test]
fn a_later_value_replaces_an_earlier_one() {
    let p = HookPayload::new().set("k", "1").set("k", "2");
    assert_eq!(p.get("k"), Some("2"));
    assert_eq!(p.get("other"), None);
}

#[test]
fn when_predicate_eq_int() {
    let pred = WhenPredicate::parse("${pane.exit_code} != 0").unwrap();
    assert!(pred.evaluate(&payload(&[("pane.exit_code", "1")])));
    assert!(!pred.evaluate(&payload(&[("pane.exit_code", "0")])));
}

#[test]
fn when_predicate_eq_string() {
    let pred = WhenPredicate::parse("${pane.command} == \"vim\"").unwrap();
    assert!(pred.evaluate(&payload(&[("pane.command", "vim")])));
    assert!(!pred.evaluate(&payload(&[("pane.command", "nvim")])));
}

#[test]
fn when_predicate_rejects_non_var_lhs() {
    let err = WhenPredicate::parse("foo == 1").unwrap_err();
    assert!(matches!(err, HookParseError::InvalidWhen(_)));
}

#[test]
fn when_predicate_rejects_missing_op() {
    let err = WhenPredicate::parse("${x} 1").unwrap_err();
    assert!(matches!(err, HookParseError::InvalidWhen(_)));
}

#[test]
fn the_two_comparisons_never_agree() {
    let eq = WhenPredicate::parse("${x} == 7").unwrap();
    let ne = WhenPredicate::parse("${x} != 7").unwrap();
    for value in ["7", "8", "seven", ""] {
        let p = payload(&[("x", value)]);
        assert_ne!(eq.evaluate(&p), ne.evaluate(&p), "{value:?}");
    }
}

#[test]
fn executor_fires_only_matching_event() {
    let raw = RawHook {
        event: "after_attach".to_string(),
        argv: vec!["true".to_string()],
        when: None,
    };
    let mut store = HookStore::new();
    let exec = HookExecutor::new(&mut store, vec![Hook::from_raw(raw).unwrap()]);
    assert_eq!(exec.count_for(&store, HookEvent::AfterAttach), 1);
    assert_eq!(exec.count_for(&store, HookEvent::AfterDetach), 0);
    // Firing an event with no hooks is a no-op.
    assert_eq!(exec.fire(&store, HookEvent::AfterDetach, &HookPayload::new()).len(), 0);
}

#[test]
fn executor_when_predicate_skips_non_matching() {
    let raw = RawHook {
        event: "after_pane_exit".to_string(),
        argv: vec![
            "sh".to_string(),
            "-c".to_string(),
            "touch ${out}".to_string(),
        ],
        when: Some("${pane.exit_code} != 0".to_string()),
    };
    let mut store = HookStore::new();
    let exec = HookExecutor::new(&mut store, vec![Hook::from_raw(raw).unwrap()]).with_log_dir("/tmp/hooks");

    // exit_code = 0 → predicate false → no fire.
    let p = HookPayload::new()
        .set("pane.exit_code", "0")
        .set("out", "/tmp/zero.txt");
    assert_eq!(exec.fire(&store, HookEvent::AfterPaneExit, &p).len(), 0);

    // exit_code = 1 → predicate true → fires.
    let p = HookPayload::new()
        .set("pane.exit_code", "1")
        .set("out", "/tmp/one.txt");
    let runs = exec.fire(&store, HookEvent::AfterPaneExit, &p);
    assert_eq!(runs.len(), 1);
    assert_eq!(runs[0].argv, texts(&["sh", "-c", "touch /tmp/one.txt"]));
}

#[test]
fn a_hostile_value_stays_one_argument_of_the_run() {
    let raw = RawHook {
        event: "after_pane_exit".to_string(),
        argv: texts(&["sh", "-c", "printf hi > \"${out}\"", "${gone}"]),
        when: None,
    };
    let mut store = HookStore::new();
    let executor = HookExecutor::new(&mut store, vec![Hook::from_raw(raw).unwrap()]);
    let runs = executor.fire(
        &store,
        HookEvent::AfterPaneExit,
        &HookPayload::new().set("out", "/tmp/a b;c.txt"),
    );
    assert_eq!(runs[0].argv, texts(&["sh", "-c", "printf hi > \"/tmp/a b;c.txt\"", ""]));
    assert_eq!(runs[0].missing, texts(&["gone"]));
}

#[test]
fn replace_swaps_hooks_atomically() {
    let raw_a = RawHook {
        event: "after_attach".to_string(),
        argv: vec!["true".to_string()],
        when: None,
    };
    let raw_b = RawHook {
        event: "after_detach".to_string(),
        argv: vec!["true".to_string()],
        when: None,
    };
    let mut store = HookStore::new();
    let exec = HookExecutor::new(&mut store, vec![Hook::from_raw(raw_a).unwrap()]);
    assert_eq!(exec.count_for(&store, HookEvent::AfterAttach), 1);
    exec.replace(&mut store, vec![Hook::from_raw(raw_b).unwrap()]);
    assert_eq!(exec.count_for(&store, HookEvent::AfterAttach), 0);
    assert_eq!(exec.count_for(&store, HookEvent::AfterDetach), 1);
    assert_eq!(exec.total(&store), 1);
    let none = HookExecutor::empty(&mut store);
    assert_eq!(none.total(&store), 0);
}

#[test]
fn a_runaway_hook_is_killed_when_its_time_is_up() {
    assert_eq!(HOOK_TIMEOUT, 5_000);
    assert_eq!(wait_step(ChildPoll::Running, HOOK_TIMEOUT - 1), WaitStep::Wait);
    assert_eq!(wait_step(ChildPoll::Running, HOOK_TIMEOUT), WaitStep::Kill);
    assert_eq!(wait_step(ChildPoll::Ended, HOOK_TIMEOUT + 1), WaitStep::Finish);
    assert_eq!(wait_step(ChildPoll::Unknown, 0), WaitStep::Finish);
    let log = run_log("after_pane_exit", &texts(&["sleep", "30"]), "", "", true, "signal: 9");
    assert!(log.contains("timeout: killed"));
}

#[test]
fn a_log_entry_shows_what_ran_and_what_it_wrote() {
    let log = run_log(
        "on_cwd_change",
        &texts(&["echo", "a \"b\""]),
        "out",
        "err\n",
        false,
        "exit status: 0",
    );
    assert_eq!(
        log,
        "[ezpn] event=on_cwd_change argv=[\"echo\", \"a \\\"b\\\"\"]\n\
         [stdout]\nout\n[stderr]\nerr\n[ezpn] exit status: 0\n"
    );
    assert_eq!(
        spawn_failure_log(&texts(&["nope"]), "not found"),
        "[ezpn] failed to spawn hook [\"nope\"]: not found\n"
    );
}

#[test]
fn logs_lie_under_the_state_directory() {
    assert_eq!(hooks_log_dir(Some("/state"), Some("/home/me")), "/state/ezpn/hooks");
    let exec = HookExecutor::empty(&mut HookStore::new());
    assert_eq!(exec.log_dir(Some("/state"), None), "/state/ezpn/hooks");
    assert_eq!(exec.with_log_dir("/elsewhere").log_dir(Some("/state"), None), "/elsewhere");
}

fn log(name: &str, modified: u64, size: u64) -> LogFile {
    LogFile { name: name.to_string(), modified, size }
}

#[test]
fn an_entry_goes_to_the_newest_log_while_it_fits() {
    let files = vec![
        log("after_attach-1.log", 10, 100),
        log("after_attach-2.log", 20, 200),
        log("after_detach-3.log", 30, 0),
    ];
    assert_eq!(log_target(&files, "after_attach", 50, 99), "after_attach-2.log");
    assert_eq!(
        log_target(&files, "after_attach", HOOK_LOG_MAX_BYTES, 99),
        "after_attach-99.log"
    );
    assert_eq!(log_target(&files, "on_cwd_change", 1, 99), "on_cwd_change-99.log");
}

#[test]
fn the_oldest_logs_go_first() {
    let mut files = Vec::new();
    for k in 0..7u64 {
        files.push(log(&format!("after_attach-{k}.log"), 100 - k, 1));
    }
    files.push(log("after_detach-0.log", 0, 1));
    assert_eq!(stale_logs(&files, "after_attach", HOOK_LOG_KEEP), vec![5, 6]);
    assert_eq!(stale_logs(&files, "after_detach", HOOK_LOG_KEEP), Vec::<usize>::new());
    assert_eq!(stale_logs(&files, "after_attach", 7), Vec::<usize>::new());
}

#[test]
fn opposite_operators_give_opposite_answers() {
    let events = [
        payload(&[]),
        payload(&[("x", "7")]),
        payload(&[("x", "+7")]),
        payload(&[("x", "eight")]),
        payload(&[("x", "")]),
    ];
    for literal in ["7", "\"eight\"", "''", "-1", " 7 "] {
        let eq = WhenPredicate::parse(&format!("${{x}} == {literal}")).unwrap();
        let ne = WhenPredicate::parse(&format!("${{x}} != {literal}")).unwrap();
        for e in &events {
            assert_eq!(ne.evaluate(e), !eq.evaluate(e));
        }
    }
    let empty = WhenPredicate::parse("${x} == \"\"").unwrap();
    assert!(empty.evaluate(&events[0]));
    assert!(!empty.evaluate(&events[1]));
}

fn hook(event: &str) -> Hook {
    let raw = RawHook { event: event.to_string(), argv: texts(&["true"]), when: None };
    Hook::from_raw(raw).unwrap()
}

#[test]
fn a_replacement_is_seen_by_clones_alone() {
    let mut store = HookStore::new();
    let e = HookExecutor::new(&mut store, vec![hook("after_attach"), hook("before_attach")]);
    let other = HookExecutor::new(&mut store, vec![hook("after_attach")]);
    let c = e.clone();
    e.replace(&mut store, vec![hook("after_detach")]);
    for x in [&e, &c] {
        assert_eq!(x.total(&store), 1);
        assert_eq!(x.count_for(&store, HookEvent::AfterAttach), 0);
        assert_eq!(x.count_for(&store, HookEvent::AfterDetach), 1);
        assert_eq!(x.fire(&store, HookEvent::AfterDetach, &HookPayload::new()).len(), 1);
    }
    assert_eq!(other.count_for(&store, HookEvent::AfterAttach), 1);
    assert_eq!(other.total(&HookStore::new()), 0);
}

#[test]
fn counts_of_all_events_make_the_total() {
    let mut store = HookStore::new();
    let hooks = vec![hook("after_attach"), hook("after_attach"), hook("on_cwd_change")];
    let e = HookExecutor::new(&mut store, hooks);
    let sum: usize = HookEvent::all().into_iter().map(|ev| e.count_for(&store, ev)).sum();
    assert_eq!(sum, e.total(&store));
}
