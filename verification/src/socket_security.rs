//! Who may reach a socket or a file of secrets, by owner and mode.

use vstd::prelude::*;
use vstd::string::*;

use crate::text;

verus! {

/// What the system says of a file: whether it is of the kind that is needed,
/// its owner, and its mode bits.
#[derive(Clone, Copy, Debug, PartialEq, Eq, Structural)]
pub struct FileFacts {
    pub right_kind: bool,
    pub uid: u32,
    pub mode: u32,
}

/// The permission bits of a mode.
pub open spec fn permissions(mode: u32) -> u32 {
    mode % 0o1000
}

/// The group or others have some access.
pub open spec fn others_have_access(mode: u32) -> bool {
    mode % 0o100 != 0
}

/// The sticky bit: in such a directory only the owner of a file removes it.
pub open spec fn is_sticky(mode: u32) -> bool {
    mode / 0o1000 % 2 == 1
}

/// These are the bits that the masks select.
pub proof fn masks_select_these_bits(mode: u32)
    ensures
        permissions(mode) == mode & 0o777,
        others_have_access(mode) == (mode & 0o777 & 0o077 != 0),
        is_sticky(mode) == (mode & 0o1000 != 0),
{
    assert(mode % 0o1000 == mode & 0o777) by (bit_vector);
    assert((mode % 0o100 != 0) == (mode & 0o777 & 0o077 != 0)) by (bit_vector);
    assert((mode / 0o1000 % 2 == 1) == (mode & 0o1000 != 0)) by (bit_vector);
}

// ─── Octal numbers ─────────────────────────────────────────

/// A number in octal digits.
pub open spec fn octal(n: nat) -> Seq<char>
    decreases n,
{
    if n < 8 {
        seq![text::digit_char(n)]
    } else {
        octal(n / 8) + seq![text::digit_char(n % 8)]
    }
}

/// Writes a number in octal digits.
pub fn octal_text(n: u32) -> (r: String)
    ensures
        r@ == octal(n as nat),
    decreases n,
{
    if n < 8 {
        let mut s = String::new();
        s.push(digit(n));
        assert(s@ =~= octal(n as nat));
        s
    } else {
        let mut s = octal_text(n / 8);
        s.push(digit(n % 8));
        assert(s@ =~= octal(n as nat));
        s
    }
}

fn digit(d: u32) -> (c: char)
    requires
        d < 8,
    ensures
        c == text::digit_char(d as nat),
{
    match d {
        0 => '0',
        1 => '1',
        2 => '2',
        3 => '3',
        4 => '4',
        5 => '5',
        6 => '6',
        _ => '7',
    }
}

// ─── Directories of sockets ────────────────────────────────

/// Why a directory of sockets is refused, or nothing. A directory of ours must
/// be closed to all others; one of somebody else's must be sticky.
pub open spec fn dir_refusal(path: Seq<char>, f: FileFacts, our_uid: u32) -> Option<Seq<char>> {
    if !f.right_kind {
        Some("socket dir is not a directory: "@ + path)
    } else if f.uid == our_uid {
        if others_have_access(f.mode) {
            Some(
                "socket dir "@ + path + " owned by us but has insecure permissions "@ + octal(
                    permissions(f.mode) as nat,
                ) + " (group/other access) — refusing to bind"@,
            )
        } else {
            None
        }
    } else if !is_sticky(f.mode) {
        Some(
            "socket dir "@ + path + " is owned by uid "@ + text::decimal(f.uid as nat) + " (not "@
                + text::decimal(our_uid as nat)
                + ") and lacks the sticky bit — refusing to bind"@,
        )
    } else {
        None
    }
}

/// Tells whether a check came out as specified.
pub open spec fn checks_as(r: Result<(), String>, refusal: Option<Seq<char>>) -> bool {
    match r {
        Ok(()) => refusal is None,
        Err(e) => refusal == Some(e@),
    }
}

/// Checks the directory of a socket.
pub fn harden_socket_dir(path: &str, f: FileFacts, our_uid: u32) -> (r: Result<(), String>)
    ensures
        checks_as(r, dir_refusal(path@, f, our_uid)),
{
    if !f.right_kind {
        let mut s = "socket dir is not a directory: ".to_owned();
        s.append(path);
        return Err(s);
    }
    if f.uid == our_uid {
        if f.mode % 0o100 != 0 {
            let mut s = "socket dir ".to_owned();
            s.append(path);
            s.append(" owned by us but has insecure permissions ");
            let o = octal_text(f.mode % 0o1000);
            s.append(o.as_str());
            s.append(" (group/other access) — refusing to bind");
            return Err(s);
        }
    } else if f.mode / 0o1000 % 2 != 1 {
        let mut s = "socket dir ".to_owned();
        s.append(path);
        s.append(" is owned by uid ");
        let a = text::decimal_text(f.uid as u128);
        s.append(a.as_str());
        s.append(" (not ");
        let b = text::decimal_text(our_uid as u128);
        s.append(b.as_str());
        s.append(") and lacks the sticky bit — refusing to bind");
        return Err(s);
    }
    Ok(())
}

// ─── Sockets and secrets ───────────────────────────────────

/// The mode of a socket and of a file of secrets: reading and writing for the
/// owner alone.
pub const PRIVATE_MODE: u32 = 0o600;

pub open spec fn wrong_owner(kind: Seq<char>, path: Seq<char>, uid: u32, our_uid: u32) -> Seq<char> {
    kind + path + " is owned by uid "@ + text::decimal(uid as nat) + ", not "@ + text::decimal(
        our_uid as nat,
    )
}

fn owner_error(kind: &str, path: &str, uid: u32, our_uid: u32) -> (r: String)
    ensures
        r@ == wrong_owner(kind@, path@, uid, our_uid),
{
    let mut s = kind.to_owned();
    s.append(path);
    s.append(" is owned by uid ");
    let a = text::decimal_text(uid as u128);
    s.append(a.as_str());
    s.append(", not ");
    let b = text::decimal_text(our_uid as u128);
    s.append(b.as_str());
    s
}

/// Why a socket is refused after its mode was set, or nothing.
pub open spec fn socket_refusal(path: Seq<char>, f: FileFacts, our_uid: u32) -> Option<Seq<char>> {
    if permissions(f.mode) != PRIVATE_MODE {
        Some(
            "socket "@ + path + " has unexpected mode "@ + octal(permissions(f.mode) as nat)
                + " after chmod 0600"@,
        )
    } else if f.uid != our_uid {
        Some(wrong_owner("socket "@, path, f.uid, our_uid))
    } else {
        None
    }
}

/// Checks a socket after its mode was set.
pub fn fix_socket_permissions(path: &str, f: FileFacts, our_uid: u32) -> (r: Result<(), String>)
    ensures
        checks_as(r, socket_refusal(path@, f, our_uid)),
{
    let perm: u32 = f.mode % 0o1000;
    if perm != PRIVATE_MODE {
        let mut s = "socket ".to_owned();
        s.append(path);
        s.append(" has unexpected mode ");
        let o = octal_text(perm);
        s.append(o.as_str());
        s.append(" after chmod 0600");
        return Err(s);
    }
    if f.uid != our_uid {
        return Err(owner_error("socket ", path, f.uid, our_uid));
    }
    Ok(())
}

/// Why a file of secrets is refused, or nothing.
pub open spec fn secrets_refusal(path: Seq<char>, f: FileFacts, our_uid: u32) -> Option<Seq<char>> {
    if !f.right_kind {
        Some("secrets path is not a regular file: "@ + path)
    } else if permissions(f.mode) != PRIVATE_MODE {
        Some(
            "secrets file "@ + path + " has insecure mode "@ + octal(permissions(f.mode) as nat)
                + " (must be 0600)"@,
        )
    } else if f.uid != our_uid {
        Some(wrong_owner("secrets file "@, path, f.uid, our_uid))
    } else {
        None
    }
}

/// Checks a file of secrets.
pub fn verify_secrets_file(path: &str, f: FileFacts, our_uid: u32) -> (r: Result<(), String>)
    ensures
        checks_as(r, secrets_refusal(path@, f, our_uid)),
{
    if !f.right_kind {
        let mut s = "secrets path is not a regular file: ".to_owned();
        s.append(path);
        return Err(s);
    }
    let perm: u32 = f.mode % 0o1000;
    if perm != PRIVATE_MODE {
        let mut s = "secrets file ".to_owned();
        s.append(path);
        s.append(" has insecure mode ");
        let o = octal_text(perm);
        s.append(o.as_str());
        s.append(" (must be 0600)");
        return Err(s);
    }
    if f.uid != our_uid {
        return Err(owner_error("secrets file ", path, f.uid, our_uid));
    }
    Ok(())
}

/// Only a file of ours with mode 0600 is accepted for secrets.
pub proof fn secrets_stay_private(path: Seq<char>, f: FileFacts, our_uid: u32)
    ensures
        secrets_refusal(path, f, our_uid) is None <==> f.right_kind && f.uid == our_uid && f.mode
            & 0o777 == 0o600,
{
    masks_select_these_bits(f.mode);
}

/// A directory that is accepted is ours and closed to all others, or it is
/// sticky.
pub proof fn accepted_directories_are_guarded(path: Seq<char>, f: FileFacts, our_uid: u32)
    ensures
        dir_refusal(path, f, our_uid) is None <==> f.right_kind && (if f.uid == our_uid {
            f.mode & 0o777 & 0o077 == 0
        } else {
            f.mode & 0o1000 != 0
        }),
{
    masks_select_these_bits(f.mode);
}

// ─── Names and peers ───────────────────────────────────────

/// The name of a session's socket in the abstract namespace.
pub fn abstract_socket_name(uid: u32, session: &str) -> (r: String)
    ensures
        r@ == "ezpn-"@ + text::decimal(uid as nat) + "-"@ + session@,
{
    let mut s = "ezpn-".to_owned();
    let n = text::decimal_text(uid as u128);
    s.append(n.as_str());
    s.append("-");
    s.append(session);
    s
}

/// Tells whether a connection is let in: only one of our own, and none whose
/// owner is unknown.
pub fn peer_allowed(peer: Option<u32>, our_uid: u32) -> (r: bool)
    ensures
        r == (peer == Some(our_uid)),
{
    match peer {
        Some(p) => p == our_uid,
        None => false,
    }
}

} // verus!
