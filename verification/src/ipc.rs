//! Requests of the control program and their answers.
//!
//! A request is one line of JSON with a `cmd` member. Reading and writing the
//! lines belongs to the program around the library; here are the types, and
//! which vocabulary a line belongs to.

use vstd::prelude::*;
use vstd::string::*;

use crate::keymap;
use crate::paths;
use crate::text;

verus! {

/// How long `send-keys` waits for a prompt where the request does not say, in
/// milliseconds.
pub const SEND_KEYS_DEFAULT_TIMEOUT_MS: u64 = 30_000;

/// Cap on the text of one dump, in bytes.
pub const DUMP_MAX_BYTES: usize = 16_777_216;

// ─── Requests ──────────────────────────────────────────────

#[derive(Clone, Copy, Debug, PartialEq, Eq, Structural)]
pub enum SplitDirection {
    Horizontal,
    Vertical,
}

#[derive(Clone, Debug, PartialEq, Eq)]
pub enum IpcRequest {
    Split { direction: SplitDirection, pane: Option<usize> },
    Close { pane: usize },
    Focus { pane: usize },
    Equalize,
    List,
    Layout { spec: String },
    Exec { pane: usize, command: String },
    Save { path: String },
    Load { path: String },
}

/// Requests that read the state of the session.
#[derive(Clone, Debug, PartialEq, Eq)]
pub enum IpcRequestExt {
    /// The tree of tabs and panes, of one session if one is named.
    LsTree { session: Option<String> },
    /// The text of a pane.
    Dump {
        pane: usize,
        session: Option<String>,
        /// The first line, counted from one.
        since: Option<usize>,
        /// How many lines at the end.
        last: Option<usize>,
        include_scrollback: bool,
        strip_ansi: bool,
    },
    /// Keys for a pane.
    SendKeys {
        pane: usize,
        text: String,
        await_prompt: bool,
        timeout_ms: Option<u64>,
        no_newline: bool,
    },
}

/// A request of either vocabulary.
#[derive(Clone, Debug, PartialEq, Eq)]
pub enum IpcCommand {
    Legacy(IpcRequest),
    Ext(IpcRequestExt),
}

/// The members of the JSON object that a line holds, each with its text where
/// it is a string; `None` where the line is no JSON or holds something else.
pub uninterp spec fn json_members(line: Seq<char>) -> Option<
    Seq<(Seq<char>, Option<Seq<char>>)>,
>;

/// The views of the members of an object.
pub open spec fn members_view(r: Option<Vec<(String, Option<String>)>>) -> Option<
    Seq<(Seq<char>, Option<Seq<char>>)>,
> {
    match r {
        Some(v) => Some(
            v@.map_values(|m: (String, Option<String>)| (m.0@, keymap::text_view(m.1))),
        ),
        None => None,
    }
}

/// Calls `serde_json::from_str` for a `Value` and hands out the members of an
/// object, strings as they are and values of any other kind as `None`; an
/// error, and a value that is no object, become `None`. Which lines are JSON,
/// and what they hold, is left to the name `json_members`.
#[verifier::external_body]
pub(crate) fn read_members(line: &str) -> (r: Option<Vec<(String, Option<String>)>>)
    ensures
        members_view(r) == json_members(line@),
{
    match serde_json::from_str::<serde_json::Value>(line).ok()? {
        serde_json::Value::Object(m) => Some(m.into_iter().map(|(k, v)| (k, match v {
            serde_json::Value::String(s) => Some(s),
            _ => None,
        })).collect()),
        _ => None,
    }
}

/// The text of the member `key`: `None` where there is none, or it is no
/// string.
pub open spec fn member_text(
    members: Seq<(Seq<char>, Option<Seq<char>>)>,
    key: Seq<char>,
) -> Option<Seq<char>>
    decreases members.len(),
{
    if members.len() == 0 {
        None
    } else if members[0].0 == key {
        members[0].1
    } else {
        member_text(members.skip(1), key)
    }
}

/// Finds the text of a member.
pub fn find_text<'a>(members: &'a Vec<(String, Option<String>)>, key: &str) -> (r: Option<&'a str>)
    ensures
        paths::text_of(r) == member_text(
            members@.map_values(|m: (String, Option<String>)| (m.0@, keymap::text_view(m.1))),
            key@,
        ),
{
    let ghost all = members@.map_values(
        |m: (String, Option<String>)| (m.0@, keymap::text_view(m.1)),
    );
    let mut i: usize = 0;
    assert(all.skip(0) =~= all);
    while i < members.len()
        invariant
            i <= members@.len(),
            all == members@.map_values(
                |m: (String, Option<String>)| (m.0@, keymap::text_view(m.1)),
            ),
            member_text(all, key@) == member_text(all.skip(i as int), key@),
        decreases members@.len() - i,
    {
        assert(all.skip(i as int)[0] == all[i as int]);
        assert(all.skip(i as int).skip(1) =~= all.skip(i + 1));
        if text::same_text(members[i].0.as_str(), key) {
            return match &members[i].1 {
                Some(s) => Some(s.as_str()),
                None => None,
            };
        }
        i += 1;
    }
    None
}

/// The text of a member of the object that a line holds.
pub open spec fn json_member(line: Seq<char>, key: Seq<char>) -> Option<Seq<char>> {
    match json_members(line) {
        Some(members) => member_text(members, key),
        None => None,
    }
}

/// The `cmd` of a request that reads the state of the session.
pub open spec fn ext_tag(cmd: Option<Seq<char>>) -> bool {
    cmd == Some("ls_tree"@) || cmd == Some("dump"@) || cmd == Some("send_keys"@)
}

/// Tells whether a `cmd` belongs to a request that reads the state of the
/// session.
pub fn is_ext_tag(cmd: Option<&str>) -> (r: bool)
    ensures
        r == ext_tag(paths::text_of(cmd)),
{
    match cmd {
        Some(c) => text::same_text(c, "ls_tree") || text::same_text(c, "dump") || text::same_text(
            c,
            "send_keys",
        ),
        None => false,
    }
}

/// Tells whether a line holds a request that reads the state of the session.
pub fn is_ext_command(line: &str) -> (r: bool)
    ensures
        r == ext_tag(json_member(line@, "cmd"@)),
{
    match read_members(line) {
        Some(members) => is_ext_tag(find_text(&members, "cmd")),
        None => false,
    }
}

/// What a line of the control program holds.
#[derive(Clone, Copy, Debug, PartialEq, Eq, Structural)]
pub enum LineKind {
    /// Nothing.
    Blank,
    Legacy,
    Ext,
}

/// Which vocabulary a line is read in. A blank line is passed over.
pub fn classify_line(line: &str) -> (r: LineKind)
    ensures
        r == (if text::trim(line@).len() == 0 {
            LineKind::Blank
        } else if ext_tag(json_member(line@, "cmd"@)) {
            LineKind::Ext
        } else {
            LineKind::Legacy
        }),
{
    if text::trim_text(line).is_empty() {
        LineKind::Blank
    } else if is_ext_command(line) {
        LineKind::Ext
    } else {
        LineKind::Legacy
    }
}

// ─── Answers ───────────────────────────────────────────────

#[derive(Clone, Debug, PartialEq, Eq)]
pub struct PaneInfo {
    pub index: usize,
    pub id: usize,
    pub cols: u16,
    pub rows: u16,
    pub alive: bool,
    pub active: bool,
    pub command: String,
}

/// The tree of sessions. The names of the fields are part of the interface.
#[derive(Clone, Debug, PartialEq, Eq)]
pub struct LsTree {
    pub proto_version: String,
    pub sessions: Vec<SessionTree>,
}

#[derive(Clone, Debug, PartialEq, Eq)]
pub struct SessionTree {
    pub name: String,
    /// Seconds since the epoch, as the bits of a double.
    pub created_at: u64,
    pub clients: Vec<ClientInfo>,
    pub focused_tab: Option<usize>,
    pub tabs: Vec<TabInfo>,
}

#[derive(Clone, Debug, PartialEq, Eq)]
pub struct ClientInfo {
    pub socket: String,
    /// Columns and rows.
    pub size: [u16; 2],
    /// `steal`, `shared` or `readonly`.
    pub mode: String,
}

#[derive(Clone, Debug, PartialEq, Eq)]
pub struct TabInfo {
    pub id: usize,
    pub name: String,
    pub focused_pane: Option<usize>,
    pub layout: String,
    pub panes: Vec<PaneTreeInfo>,
}

#[derive(Clone, Debug, PartialEq, Eq)]
pub struct PaneTreeInfo {
    pub id: usize,
    pub command: String,
    /// Where the pane was started.
    pub cwd: Option<String>,
    /// Columns and rows.
    pub size: [u16; 2],
    pub pid: Option<u32>,
    /// Where the program says it is.
    pub reported_cwd: Option<String>,
    pub exit_code: Option<i32>,
    pub is_dead: bool,
    pub is_focused: bool,
    pub title: Option<String>,
}

/// The text of a pane.
#[derive(Clone, Debug, PartialEq, Eq)]
pub struct DumpPayload {
    pub pane: usize,
    pub lines: Vec<String>,
    /// How many lines there were before some were left out.
    pub total: usize,
}

#[derive(Clone, Copy, Debug, PartialEq, Eq, Structural)]
pub enum SendKeysStatus {
    /// A prompt was seen.
    PromptSeen,
    /// None was seen in time.
    Timeout,
    /// None can be seen in this pane.
    DetectionUnavailable,
}

#[derive(Clone, Copy, Debug, PartialEq, Eq, Structural)]
pub struct SendKeysOutcome {
    pub status: SendKeysStatus,
    pub exit_code: Option<i32>,
    pub waited_ms: u64,
}

/// An answer.
#[derive(Clone, Debug, PartialEq, Eq)]
pub struct IpcResponse {
    pub ok: bool,
    pub message: Option<String>,
    pub error: Option<String>,
    pub panes: Option<Vec<PaneInfo>>,
    pub ls_tree: Option<LsTree>,
    pub dump: Option<DumpPayload>,
    pub send_keys: Option<SendKeysOutcome>,
}

/// An answer that holds nothing yet.
pub open spec fn bare(r: IpcResponse, ok: bool) -> bool {
    &&& r.ok == ok
    &&& r.message is None
    &&& r.error is None
    &&& r.panes is None
    &&& r.ls_tree is None
    &&& r.dump is None
    &&& r.send_keys is None
}

impl IpcResponse {
    /// It was done.
    pub fn success(message: &str) -> (r: IpcResponse)
        ensures
            keymap::text_view(r.message) == Some(message@),
            bare(IpcResponse { message: None, ..r }, true),
    {
        IpcResponse {
            ok: true,
            message: Some(message.to_owned()),
            error: None,
            panes: None,
            ls_tree: None,
            dump: None,
            send_keys: None,
        }
    }

    pub fn with_panes(panes: Vec<PaneInfo>) -> (r: IpcResponse)
        ensures
            r.panes == Some(panes),
            bare(IpcResponse { panes: None, ..r }, true),
    {
        IpcResponse {
            ok: true,
            message: None,
            error: None,
            panes: Some(panes),
            ls_tree: None,
            dump: None,
            send_keys: None,
        }
    }

    pub fn with_ls_tree(tree: LsTree) -> (r: IpcResponse)
        ensures
            r.ls_tree == Some(tree),
            bare(IpcResponse { ls_tree: None, ..r }, true),
    {
        IpcResponse {
            ok: true,
            message: None,
            error: None,
            panes: None,
            ls_tree: Some(tree),
            dump: None,
            send_keys: None,
        }
    }

    pub fn with_dump(dump: DumpPayload) -> (r: IpcResponse)
        ensures
            r.dump == Some(dump),
            bare(IpcResponse { dump: None, ..r }, true),
    {
        IpcResponse {
            ok: true,
            message: None,
            error: None,
            panes: None,
            ls_tree: None,
            dump: Some(dump),
            send_keys: None,
        }
    }

    pub fn with_send_keys(outcome: SendKeysOutcome) -> (r: IpcResponse)
        ensures
            r.send_keys == Some(outcome),
            bare(IpcResponse { send_keys: None, ..r }, true),
    {
        IpcResponse {
            ok: true,
            message: None,
            error: None,
            panes: None,
            ls_tree: None,
            dump: None,
            send_keys: Some(outcome),
        }
    }

    /// It was not done.
    pub fn error(message: &str) -> (r: IpcResponse)
        ensures
            keymap::text_view(r.error) == Some(message@),
            bare(IpcResponse { error: None, ..r }, false),
    {
        IpcResponse {
            ok: false,
            message: None,
            error: Some(message.to_owned()),
            panes: None,
            ls_tree: None,
            dump: None,
            send_keys: None,
        }
    }
}

// ─── Socket ────────────────────────────────────────────────

pub open spec fn socket_file(dir: Seq<char>, pid: u32) -> Seq<char> {
    dir + "/ezpn-"@ + text::decimal(pid as nat) + ".sock"@
}

/// The directory of sockets: that of the tests, or else the runtime directory,
/// or else the one for temporary files.
pub open spec fn runtime_dir(test_dir: Option<Seq<char>>, xdg: Option<Seq<char>>) -> Seq<char> {
    match test_dir {
        Some(d) => d,
        None => match xdg {
            Some(d) => d,
            None => "/tmp"@,
        },
    }
}

/// The directory of sockets, given `EZPN_TEST_SOCKET_DIR` and
/// `XDG_RUNTIME_DIR`.
pub fn socket_dir<'a>(test_dir: Option<&'a str>, xdg: Option<&'a str>) -> (r: &'a str)
    ensures
        r@ == runtime_dir(paths::text_of(test_dir), paths::text_of(xdg)),
{
    match test_dir {
        Some(d) => d,
        None => match xdg {
            Some(d) => d,
            None => "/tmp",
        },
    }
}

/// The control socket of a process.
pub fn socket_path_for_pid(pid: u32, test_dir: Option<&str>, xdg: Option<&str>) -> (r: String)
    ensures
        r@ == socket_file(runtime_dir(paths::text_of(test_dir), paths::text_of(xdg)), pid),
{
    let mut s = socket_dir(test_dir, xdg).to_owned();
    s.append("/ezpn-");
    let n = text::decimal_text(pid as u128);
    s.append(n.as_str());
    s.append(".sock");
    s
}

} // verus!
