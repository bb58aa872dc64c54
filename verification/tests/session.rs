//! Session names, their sockets and the order of the list.

use ezpn::session::{
    auto_base_name, auto_name, candidate_name, list_order, resolve_session_name, sanitize,
    session_of_file, socket_path, ResolveStep, SessionResolution, SlotState, MAX_SIBLINGS,
};

fn done(step: ResolveStep) -> SessionResolution {
    match step {
        ResolveStep::Done(r) => r,
        ResolveStep::Probe(name) => panic!("asks for {name}"),
    }
}

fn name_of(r: &SessionResolution) -> &str {
    match r {
        SessionResolution::New(n) | SessionResolution::AttachExisting(n) => n,
    }
}

fn resolve(preferred: &str, allow_attach: bool, slots: Vec<SlotState>) -> SessionResolution {
    done(resolve_session_name(preferred, allow_attach, &slots, 1_234, 56))
}

#[test]
fn counter_loop_produces_unique_names() {
    let r1 = resolve("proj", true, vec![SlotState::Free]);
    assert_eq!(name_of(&r1), "proj", "free slot returns base name");
    let r2 = resolve("proj", true, vec![SlotState::Dead]);
    assert_eq!(name_of(&r2), "proj", "dead socket at base should be reclaimed");
    let mut names = Vec::new();
    for taken in 0..5 {
        let mut slots = vec![SlotState::Alive; taken];
        slots.push(SlotState::Free);
        names.push(name_of(&resolve("proj", false, slots)).to_string());
    }
    assert_eq!(names, vec!["proj", "proj-1", "proj-2", "proj-3", "proj-4"]);
}

#[test]
fn dead_socket_cleanup_reclaims_slot() {
    let r = resolve("svc", true, vec![SlotState::Dead]);
    assert_eq!(name_of(&r), "svc");
    assert!(matches!(r, SessionResolution::New(_)));
}

#[test]
fn force_new_does_not_attach_when_slot_dead() {
    let r = resolve("app", false, vec![SlotState::Dead]);
    assert!(
        matches!(r, SessionResolution::New(ref n) if n == "app"),
        "dead socket should be reclaimed even when allow_attach=false"
    );
}

#[test]
fn fallback_when_all_counter_slots_taken_by_live() {
    let r = resolve("xyz", true, vec![SlotState::Free]);
    assert_eq!(name_of(&r), "xyz");
    let slots = vec![SlotState::Alive; MAX_SIBLINGS as usize + 1];
    let r = resolve("xyz", false, slots);
    assert_eq!(name_of(&r), "xyz-1234-56");
    assert!(matches!(r, SessionResolution::New(_)));
}

#[test]
fn auto_base_name_sanitizes_special_chars() {
    for dir in [Some("my proj (old)"), Some("a/b\\c"), None] {
        let n = auto_base_name(dir);
        for c in n.chars() {
            assert!(
                c.is_alphanumeric() || c == '-' || c == '_' || c == '.',
                "auto_base_name must be filesystem-safe, got {n:?}"
            );
        }
    }
}

#[test]
fn a_session_without_a_directory_is_called_default() {
    assert_eq!(auto_base_name(None), "default");
    assert_eq!(auto_base_name(Some("")), "default");
    assert_eq!(auto_base_name(Some("my proj")), "my_proj");
}

#[test]
fn pin_overrides_auto_via_resolve() {
    let r = resolve("explicitly-pinned", true, vec![SlotState::Free]);
    assert_eq!(name_of(&r), "explicitly-pinned");
}

#[test]
fn cli_override_beats_pin_via_resolve() {
    let r = resolve("cli-name", true, vec![SlotState::Free]);
    assert_eq!(name_of(&r), "cli-name");
}

#[test]
fn a_live_session_is_attached_to_where_that_is_allowed() {
    let r = resolve("app", true, vec![SlotState::Alive]);
    assert!(matches!(r, SessionResolution::AttachExisting(ref n) if n == "app"));
    // A sibling of a live session is always a new one.
    let r = resolve("app", false, vec![SlotState::Alive, SlotState::Free]);
    assert!(matches!(r, SessionResolution::New(ref n) if n == "app-1"));
}

#[test]
fn the_next_slot_is_asked_for() {
    let step = resolve_session_name("app", false, &vec![SlotState::Alive], 0, 0);
    assert!(matches!(step, ResolveStep::Probe(ref n) if *n == candidate_name("app", 1)));
    let step = auto_name(Some("work"), &Vec::new(), 0, 0);
    assert!(matches!(step, ResolveStep::Probe(ref n) if n == "work"));
}

#[test]
fn sanitizing_twice_changes_nothing_more() {
    for s in ["a b", "x/y.z", "--", "\u{e9}t\u{e9}"] {
        assert_eq!(sanitize(&sanitize(s)), sanitize(s));
    }
    assert_eq!(sanitize("a b"), "a_b");
}

#[test]
fn a_socket_names_its_session() {
    let path = socket_path("work", Some("/run/user/7"));
    let file = path.rsplit('/').next().unwrap();
    assert_eq!(path, format!("/run/user/7/{file}"));
    assert_eq!(session_of_file(file), Some("work"));
    assert_eq!(session_of_file("other.sock"), None);
    assert!(socket_path("work", None).starts_with("/tmp/"));
}

#[test]
fn recent_sessions_are_listed_first() {
    assert_eq!(list_order(&vec![Some(5), None, Some(9), Some(5)]), vec![2, 0, 3, 1]);
    assert_eq!(list_order(&Vec::new()), Vec::<usize>::new());
}
