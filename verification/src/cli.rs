//! What the command line asks for.

use vstd::prelude::*;
use vstd::string::*;

use crate::paths;
use crate::text;

verus! {

/// The first word of the command line.
#[derive(Clone, Copy, Debug, PartialEq, Eq, Structural)]
pub enum Subcommand {
    Init,
    From,
    Ls,
    Kill,
    Attach,
    Rename,
    UpgradeSnapshot,
    Help,
    Version,
    /// Run as the daemon of a session.
    Server,
    /// None of these: start or attach to a session.
    Session,
}

pub open spec fn subcommand_of(word: Option<Seq<char>>) -> Subcommand {
    match word {
        None => Subcommand::Session,
        Some(w) => if w == "init"@ {
            Subcommand::Init
        } else if w == "from"@ {
            Subcommand::From
        } else if w == "ls"@ {
            Subcommand::Ls
        } else if w == "kill"@ {
            Subcommand::Kill
        } else if w == "a"@ || w == "attach"@ {
            Subcommand::Attach
        } else if w == "rename"@ {
            Subcommand::Rename
        } else if w == "upgrade-snapshot"@ {
            Subcommand::UpgradeSnapshot
        } else if w == "-h"@ || w == "--help"@ {
            Subcommand::Help
        } else if w == "-V"@ || w == "--version"@ {
            Subcommand::Version
        } else if w == "--server"@ {
            Subcommand::Server
        } else {
            Subcommand::Session
        },
    }
}

/// What the first word of the command line asks for.
pub fn subcommand(word: Option<&str>) -> (r: Subcommand)
    ensures
        r == subcommand_of(paths::text_of(word)),
{
    let w = match word {
        Some(w) => w,
        None => {
            return Subcommand::Session;
        },
    };
    if text::same_text(w, "init") {
        Subcommand::Init
    } else if text::same_text(w, "from") {
        Subcommand::From
    } else if text::same_text(w, "ls") {
        Subcommand::Ls
    } else if text::same_text(w, "kill") {
        Subcommand::Kill
    } else if text::same_text(w, "a") || text::same_text(w, "attach") {
        Subcommand::Attach
    } else if text::same_text(w, "rename") {
        Subcommand::Rename
    } else if text::same_text(w, "upgrade-snapshot") {
        Subcommand::UpgradeSnapshot
    } else if text::same_text(w, "-h") || text::same_text(w, "--help") {
        Subcommand::Help
    } else if text::same_text(w, "-V") || text::same_text(w, "--version") {
        Subcommand::Version
    } else if text::same_text(w, "--server") {
        Subcommand::Server
    } else {
        Subcommand::Session
    }
}

/// The session that the words from `k` on name: the word after the first `-S` or
/// `--session`.
pub open spec fn session_named(args: Seq<Seq<char>>, k: nat) -> Option<Seq<char>>
    decreases args.len() - k,
{
    if k + 1 >= args.len() {
        None
    } else if args[k as int] == "-S"@ || args[k as int] == "--session"@ {
        Some(args[k as int + 1])
    } else {
        session_named(args, k + 1)
    }
}

/// The session that the command line names, where `args` begins with the name of
/// the program.
pub fn session_arg(args: &Vec<String>) -> (r: Option<&str>)
    ensures
        paths::text_of(r) == session_named(text::texts(args@), 1),
{
    let mut i: usize = 1;
    let ghost all = text::texts(args@);
    while i < args.len() && args.len() - i > 1
        invariant
            1 <= i,
            all == text::texts(args@),
            session_named(all, 1) == session_named(all, i as nat),
        decreases args@.len() - i,
    {
        if text::same_text(args[i].as_str(), "-S") || text::same_text(
            args[i].as_str(),
            "--session",
        ) {
            return Some(args[i + 1].as_str());
        }
        i += 1;
    }
    None
}

/// Tells whether a word occurs on the command line.
pub fn has_arg(args: &Vec<String>, word: &str) -> (r: bool)
    ensures
        r == text::texts(args@).contains(word@),
{
    let mut i: usize = 0;
    let ghost all = text::texts(args@);
    while i < args.len()
        invariant
            i <= args@.len(),
            all == text::texts(args@),
            forall|j: int| 0 <= j < i ==> all[j] != word@,
        decreases args@.len() - i,
    {
        if text::same_text(args[i].as_str(), word) {
            assert(all[i as int] == word@);
            return true;
        }
        i += 1;
    }
    false
}

/// The first word of the command line says what to do; without one a session is
/// started or attached to.
pub proof fn words_say_what_to_do()
    ensures
        subcommand_of(None) == Subcommand::Session,
        subcommand_of(Some("init"@)) == Subcommand::Init,
        subcommand_of(Some("from"@)) == Subcommand::From,
        subcommand_of(Some("ls"@)) == Subcommand::Ls,
        subcommand_of(Some("kill"@)) == Subcommand::Kill,
        subcommand_of(Some("a"@)) == Subcommand::Attach,
        subcommand_of(Some("attach"@)) == Subcommand::Attach,
        subcommand_of(Some("rename"@)) == Subcommand::Rename,
        subcommand_of(Some("upgrade-snapshot"@)) == Subcommand::UpgradeSnapshot,
        subcommand_of(Some("-h"@)) == Subcommand::Help,
        subcommand_of(Some("--help"@)) == Subcommand::Help,
        subcommand_of(Some("-V"@)) == Subcommand::Version,
        subcommand_of(Some("--version"@)) == Subcommand::Version,
        subcommand_of(Some("--server"@)) == Subcommand::Server,
{
    reveal_strlit("init");
    reveal_strlit("from");
    reveal_strlit("ls");
    reveal_strlit("kill");
    reveal_strlit("a");
    reveal_strlit("attach");
    reveal_strlit("rename");
    reveal_strlit("upgrade-snapshot");
    reveal_strlit("-h");
    reveal_strlit("--help");
    reveal_strlit("-V");
    reveal_strlit("--version");
    reveal_strlit("--server");
    assert("init"@.len() == 4);
    assert("init"@[0] == 'i');
    assert("init"@[1] == 'n');
    assert("init"@[2] == 'i');
    assert("init"@[3] == 't');
    assert("from"@.len() == 4);
    assert("from"@[0] == 'f');
    assert("from"@[1] == 'r');
    assert("from"@[2] == 'o');
    assert("from"@[3] == 'm');
    assert("ls"@.len() == 2);
    assert("ls"@[0] == 'l');
    assert("ls"@[1] == 's');
    assert("kill"@.len() == 4);
    assert("kill"@[0] == 'k');
    assert("kill"@[1] == 'i');
    assert("kill"@[2] == 'l');
    assert("kill"@[3] == 'l');
    assert("a"@.len() == 1);
    assert("a"@[0] == 'a');
    assert("attach"@.len() == 6);
    assert("attach"@[0] == 'a');
    assert("attach"@[1] == 't');
    assert("attach"@[2] == 't');
    assert("attach"@[3] == 'a');
    assert("attach"@[4] == 'c');
    assert("attach"@[5] == 'h');
    assert("rename"@.len() == 6);
    assert("rename"@[0] == 'r');
    assert("rename"@[1] == 'e');
    assert("rename"@[2] == 'n');
    assert("rename"@[3] == 'a');
    assert("rename"@[4] == 'm');
    assert("rename"@[5] == 'e');
    assert("upgrade-snapshot"@.len() == 16);
    assert("upgrade-snapshot"@[0] == 'u');
    assert("upgrade-snapshot"@[1] == 'p');
    assert("upgrade-snapshot"@[2] == 'g');
    assert("upgrade-snapshot"@[3] == 'r');
    assert("upgrade-snapshot"@[4] == 'a');
    assert("upgrade-snapshot"@[5] == 'd');
    assert("upgrade-snapshot"@[6] == 'e');
    assert("upgrade-snapshot"@[7] == '-');
    assert("upgrade-snapshot"@[8] == 's');
    assert("upgrade-snapshot"@[9] == 'n');
    assert("upgrade-snapshot"@[10] == 'a');
    assert("upgrade-snapshot"@[11] == 'p');
    assert("upgrade-snapshot"@[12] == 's');
    assert("upgrade-snapshot"@[13] == 'h');
    assert("upgrade-snapshot"@[14] == 'o');
    assert("upgrade-snapshot"@[15] == 't');
    assert("-h"@.len() == 2);
    assert("-h"@[0] == '-');
    assert("-h"@[1] == 'h');
    assert("--help"@.len() == 6);
    assert("--help"@[0] == '-');
    assert("--help"@[1] == '-');
    assert("--help"@[2] == 'h');
    assert("--help"@[3] == 'e');
    assert("--help"@[4] == 'l');
    assert("--help"@[5] == 'p');
    assert("-V"@.len() == 2);
    assert("-V"@[0] == '-');
    assert("-V"@[1] == 'V');
    assert("--version"@.len() == 9);
    assert("--version"@[0] == '-');
    assert("--version"@[1] == '-');
    assert("--version"@[2] == 'v');
    assert("--version"@[3] == 'e');
    assert("--version"@[4] == 'r');
    assert("--version"@[5] == 's');
    assert("--version"@[6] == 'i');
    assert("--version"@[7] == 'o');
    assert("--version"@[8] == 'n');
    assert("--server"@.len() == 8);
    assert("--server"@[0] == '-');
    assert("--server"@[1] == '-');
    assert("--server"@[2] == 's');
    assert("--server"@[3] == 'e');
    assert("--server"@[4] == 'r');
    assert("--server"@[5] == 'v');
    assert("--server"@[6] == 'e');
    assert("--server"@[7] == 'r');
}

/// The session is the word right after the first `-S` or `--session` behind the
/// name of the program.
pub proof fn the_session_follows_its_flag(args: Seq<Seq<char>>, k: nat, at: int)
    requires
        k <= at,
        at + 1 < args.len(),
        args[at] == "-S"@ || args[at] == "--session"@,
        forall|i: int| k <= i < at ==> (#[trigger] args[i]) != "-S"@ && args[i] != "--session"@,
    ensures
        session_named(args, k) == Some(args[at + 1]),
    decreases at - k,
{
    if k < at {
        assert(args[k as int] != "-S"@);
        the_session_follows_its_flag(args, k + 1, at);
    }
}

} // verus!
