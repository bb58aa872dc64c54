//! Paths as texts.

use vstd::prelude::*;
use vstd::string::*;

verus! {

/// A relative name under a directory: a slash goes between them unless the
/// directory is empty or ends with one.
pub open spec fn joined(dir: Seq<char>, name: Seq<char>) -> Seq<char> {
    if dir.len() == 0 || dir.last() == '/' {
        dir + name
    } else {
        dir + seq!['/'] + name
    }
}

pub fn join_path(dir: &str, name: &str) -> (r: String)
    ensures
        r@ == joined(dir@, name@),
{
    let n: usize = dir.unicode_len();
    let mut out = dir.to_owned();
    if n > 0 && dir.get_char(n - 1) != '/' {
        out.push('/');
    }
    out.append(name);
    assert(out@ =~= joined(dir@, name@));
    out
}

/// A path that is taken relative to a directory. An absolute one stands for
/// itself.
pub open spec fn under(dir: Seq<char>, path: Seq<char>) -> Seq<char> {
    if path.len() > 0 && path[0] == '/' {
        path
    } else {
        joined(dir, path)
    }
}

pub fn path_under(dir: &str, path: &str) -> (r: String)
    ensures
        r@ == under(dir@, path@),
{
    if path.unicode_len() > 0 && path.get_char(0) == '/' {
        path.to_owned()
    } else {
        join_path(dir, path)
    }
}

/// The text of a value that may be missing.
pub open spec fn text_of(s: Option<&str>) -> Option<Seq<char>> {
    match s {
        Some(t) => Some(t@),
        None => None,
    }
}

} // verus!
