//! What is asked of sockets, their directory and the secrets file.

use ezpn::socket_security::{
    abstract_socket_name, fix_socket_permissions, harden_socket_dir, octal_text, peer_allowed,
    verify_secrets_file, FileFacts,
};

const UID: u32 = 1000;

fn facts(uid: u32, mode: u32) -> FileFacts {
    FileFacts { right_kind: true, uid, mode }
}

#[test]
fn harden_socket_dir_accepts_0700() {
    harden_socket_dir("/run/d", facts(UID, 0o040700), UID).expect("0700 dir is acceptable");
}

#[test]
fn harden_socket_dir_refuses_0755() {
    let msg = harden_socket_dir("/run/d", facts(UID, 0o040755), UID).expect_err("0755 must be rejected");
    assert!(
        msg.contains("insecure permissions"),
        "unexpected error: {msg}"
    );
    assert!(msg.contains("755"));
}

#[test]
fn harden_socket_dir_accepts_tmp_with_sticky_bit() {
    harden_socket_dir("/tmp", facts(0, 0o041777), UID).expect("/tmp must be acceptable");
}

#[test]
fn a_foreign_directory_without_the_sticky_bit_is_refused() {
    let msg = harden_socket_dir("/srv", facts(0, 0o040777), UID).unwrap_err();
    assert!(msg.contains("sticky"), "unexpected error: {msg}");
    let file = FileFacts { right_kind: false, uid: UID, mode: 0o100600 };
    assert!(harden_socket_dir("/srv/f", file, UID).unwrap_err().contains("not a directory"));
}

#[test]
fn fix_socket_permissions_chmods_and_verifies() {
    fix_socket_permissions("/run/s", facts(UID, 0o140600), UID).expect("0600 is what chmod gives");
    assert!(fix_socket_permissions("/run/s", facts(UID, 0o140644), UID).unwrap_err().contains("644"));
    assert!(fix_socket_permissions("/run/s", facts(1, 0o140600), UID).is_err());
}

#[test]
fn verify_secrets_file_accepts_0600() {
    verify_secrets_file("/p/secrets.toml", facts(UID, 0o100600), UID).expect("0600 must be accepted");
}

#[test]
fn verify_secrets_file_refuses_0644() {
    let msg = verify_secrets_file("/p/secrets.toml", facts(UID, 0o100644), UID)
        .expect_err("0644 must be rejected");
    assert!(msg.contains("insecure mode"), "unexpected error: {msg}");
    assert!(verify_secrets_file("/p/secrets.toml", facts(1, 0o100600), UID).is_err());
    let dir = FileFacts { right_kind: false, uid: UID, mode: 0o040600 };
    assert!(verify_secrets_file("/p", dir, UID).is_err());
}

#[test]
fn abstract_socket_name_includes_uid_and_session() {
    let name = abstract_socket_name(UID, "demo");
    assert_eq!(name, format!("ezpn-{UID}-demo"));
}

#[test]
fn modes_are_shown_in_octal() {
    for n in [0u32, 7, 8, 0o600, 0o1777, u32::MAX] {
        assert!(octal_text(n).ends_with(&format!("{n:o}")), "{}", octal_text(n));
    }
}

#[test]
fn only_our_own_user_and_root_may_connect() {
    assert!(peer_allowed(Some(UID), UID));
    assert!(!peer_allowed(Some(UID + 1), UID));
}
