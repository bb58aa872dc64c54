//! Signals that the daemon reacts to, and where it writes its state on request.

use vstd::prelude::*;
use vstd::string::*;

use crate::observability;
use crate::paths;
use crate::text;

verus! {

/// The signals that the daemon listens to.
#[derive(Clone, Copy, Debug, PartialEq, Eq, Structural)]
pub enum Signal {
    Terminate,
    Hangup,
    Child,
    User1,
}

/// Which signals came and were not handled yet.
#[derive(Clone, Copy, Debug, PartialEq, Eq, Structural)]
pub struct SignalState {
    /// End the session.
    pub sigterm: bool,
    /// Read the configuration again.
    pub sighup: bool,
    /// A child ended.
    pub sigchld: bool,
    /// Write the state of the session to a file.
    pub sigusr1: bool,
}

impl Default for SignalState {
    fn default() -> (r: SignalState)
        ensures
            r == (SignalState { sigterm: false, sighup: false, sigchld: false, sigusr1: false }),
    {
        SignalState { sigterm: false, sighup: false, sigchld: false, sigusr1: false }
    }
}

impl SignalState {
    /// Notes a signal.
    pub fn note(&mut self, signal: Signal)
        ensures
            *final(self) == (match signal {
                Signal::Terminate => SignalState { sigterm: true, ..*old(self) },
                Signal::Hangup => SignalState { sighup: true, ..*old(self) },
                Signal::Child => SignalState { sigchld: true, ..*old(self) },
                Signal::User1 => SignalState { sigusr1: true, ..*old(self) },
            }),
    {
        match signal {
            Signal::Terminate => {
                self.sigterm = true;
            },
            Signal::Hangup => {
                self.sighup = true;
            },
            Signal::Child => {
                self.sigchld = true;
            },
            Signal::User1 => {
                self.sigusr1 = true;
            },
        }
    }

    /// Takes the signals at the beginning of a turn. A request to end stays
    /// noted.
    pub fn take(&mut self) -> (r: SignalState)
        ensures
            r == *old(self),
            *final(self) == (SignalState {
                sigterm: old(self).sigterm,
                sighup: false,
                sigchld: false,
                sigusr1: false,
            }),
    {
        let now = *self;
        self.sighup = false;
        self.sigchld = false;
        self.sigusr1 = false;
        now
    }
}

/// Where the state of a session is written, or nothing where neither
/// `XDG_STATE_HOME` nor `HOME` says.
pub open spec fn dump_dir(xdg: Option<Seq<char>>, home: Option<Seq<char>>) -> Option<Seq<char>> {
    if (xdg is Some && xdg->Some_0.len() > 0) || (home is Some && home->Some_0.len() > 0) {
        Some(observability::state_home(xdg, home))
    } else {
        None
    }
}

fn is_set(v: Option<&str>) -> (r: bool)
    ensures
        r == (paths::text_of(v) is Some && paths::text_of(v)->Some_0.len() > 0),
{
    match v {
        Some(s) => !s.is_empty(),
        None => false,
    }
}

/// The file that the state of a session is written to.
pub open spec fn dump_file(
    xdg: Option<Seq<char>>,
    home: Option<Seq<char>>,
    pid: u32,
    unix: u64,
) -> Option<Seq<char>> {
    match dump_dir(xdg, home) {
        Some(dir) => Some(
            paths::joined(
                dir,
                "dump-"@ + text::decimal(pid as nat) + "-"@ + text::decimal(unix as nat)
                    + ".json"@,
            ),
        ),
        None => None,
    }
}

/// The directory and the file that the state of a session is written to.
pub fn dump_session_path(
    xdg_state_home: Option<&str>,
    home: Option<&str>,
    pid: u32,
    unix: u64,
) -> (r: Option<(String, String)>)
    ensures
        match r {
            Some((dir, file)) => dump_dir(paths::text_of(xdg_state_home), paths::text_of(home))
                == Some(dir@) && dump_file(
                paths::text_of(xdg_state_home),
                paths::text_of(home),
                pid,
                unix,
            ) == Some(file@),
            None => dump_dir(paths::text_of(xdg_state_home), paths::text_of(home)) is None,
        },
{
    if !is_set(xdg_state_home) && !is_set(home) {
        return None;
    }
    let dir = observability::state_dir(xdg_state_home, home);
    let mut name = "dump-".to_owned();
    let p = text::decimal_text(pid as u128);
    name.append(p.as_str());
    name.append("-");
    let u = text::decimal_text(unix as u128);
    name.append(u.as_str());
    name.append(".json");
    let file = paths::join_path(dir.as_str(), name.as_str());
    Some((dir, file))
}

/// The message where there is no place for the state of a session.
pub const NO_STATE_DIR: &'static str = "neither XDG_STATE_HOME nor HOME is set";

} // verus!
