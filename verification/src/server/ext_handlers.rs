//! Answers to requests that read the state of the session: the tree of tabs
//! and panes, and the text of a pane.

use std::collections::HashMap;

use vstd::prelude::*;
use vstd::string::*;

use crate::ipc::{
    ClientInfo, DumpPayload, IpcRequestExt, IpcResponse, LsTree, PaneTreeInfo, SessionTree, TabInfo,
    DUMP_MAX_BYTES,
};
use crate::keymap;
use crate::layout;
use crate::layout::Layout;
use crate::pane;
use crate::pane::Pane;
use crate::paths;
use crate::protocol::AttachMode;
use crate::server::connection;
use crate::text;

verus! {

broadcast use vstd::std_specs::hash::group_hash_axioms;

// ─── Views ─────────────────────────────────────────────────

#[verifier::ext_equal]
pub struct PaneTreeView {
    pub id: usize,
    pub command: Seq<char>,
    pub cwd: Option<Seq<char>>,
    pub size: (u16, u16),
    pub pid: Option<u32>,
    pub reported_cwd: Option<Seq<char>>,
    pub exit_code: Option<i32>,
    pub is_dead: bool,
    pub is_focused: bool,
    pub title: Option<Seq<char>>,
}

impl View for PaneTreeInfo {
    type V = PaneTreeView;

    open spec fn view(&self) -> PaneTreeView {
        PaneTreeView {
            id: self.id,
            command: self.command@,
            cwd: keymap::text_view(self.cwd),
            size: (self.size@[0], self.size@[1]),
            pid: self.pid,
            reported_cwd: keymap::text_view(self.reported_cwd),
            exit_code: self.exit_code,
            is_dead: self.is_dead,
            is_focused: self.is_focused,
            title: keymap::text_view(self.title),
        }
    }
}

#[verifier::ext_equal]
pub struct TabTreeView {
    pub id: usize,
    pub name: Seq<char>,
    pub focused_pane: Option<usize>,
    pub layout: Seq<char>,
    pub panes: Seq<PaneTreeView>,
}

impl View for TabInfo {
    type V = TabTreeView;

    open spec fn view(&self) -> TabTreeView {
        TabTreeView {
            id: self.id,
            name: self.name@,
            focused_pane: self.focused_pane,
            layout: self.layout@,
            panes: self.panes@.map_values(|p: PaneTreeInfo| p@),
        }
    }
}

#[verifier::ext_equal]
pub struct ClientTreeView {
    pub socket: Seq<char>,
    pub size: (u16, u16),
    pub mode: Seq<char>,
}

impl View for ClientInfo {
    type V = ClientTreeView;

    open spec fn view(&self) -> ClientTreeView {
        ClientTreeView {
            socket: self.socket@,
            size: (self.size@[0], self.size@[1]),
            mode: self.mode@,
        }
    }
}

#[verifier::ext_equal]
pub struct SessionTreeView {
    pub name: Seq<char>,
    pub created_at: u64,
    pub clients: Seq<ClientTreeView>,
    pub focused_tab: Option<usize>,
    pub tabs: Seq<TabTreeView>,
}

impl View for SessionTree {
    type V = SessionTreeView;

    open spec fn view(&self) -> SessionTreeView {
        SessionTreeView {
            name: self.name@,
            created_at: self.created_at,
            clients: self.clients@.map_values(|c: ClientInfo| c@),
            focused_tab: self.focused_tab,
            tabs: self.tabs@.map_values(|t: TabInfo| t@),
        }
    }
}

/// The sessions of a tree, with its version.
pub open spec fn tree_view(t: LsTree) -> (Seq<char>, Seq<SessionTreeView>) {
    (t.proto_version@, t.sessions@.map_values(|s: SessionTree| s@))
}

// ─── Panes and tabs ────────────────────────────────────────

/// What the terminal emulator and the system know about a pane.
#[derive(Debug)]
pub struct PaneFacts {
    pub rows: u16,
    pub cols: u16,
    /// The title that the program set, or nothing.
    pub title: String,
    pub pid: Option<u32>,
}

/// A tab: the panes in its layout, what is known of them, and the one that has
/// the focus.
pub struct TabSource<'a> {
    pub id: usize,
    pub name: &'a str,
    pub layout: &'a Layout,
    pub panes: &'a HashMap<usize, Pane>,
    pub facts: &'a HashMap<usize, PaneFacts>,
    pub active_pane: usize,
}

/// The title of a pane: the one that its program set, or else its name.
pub open spec fn title_of(p: Pane, title: Seq<char>) -> Option<Seq<char>> {
    if title.len() == 0 {
        keymap::text_view(p.name)
    } else {
        Some(title)
    }
}

/// An exit code as a signed number, with its bits.
pub open spec fn signed_code(c: Option<u32>) -> Option<i32> {
    match c {
        Some(n) => Some(n as i32),
        None => None,
    }
}

/// A pane in the tree.
pub open spec fn pane_tree(id: usize, p: Pane, f: PaneFacts, active: usize, now: u64) -> PaneTreeView {
    PaneTreeView {
        id,
        command: pane::pane_label(p, "sh"@, f.title@),
        cwd: keymap::text_view(p.initial_cwd),
        size: (f.cols, f.rows),
        pid: f.pid,
        reported_cwd: pane::fresh_cwd(p, now),
        exit_code: signed_code(p.exit_code),
        is_dead: !p.alive,
        is_focused: id == active,
        title: title_of(p, f.title@),
    }
}

/// The panes of a tab among the first `k` of its layout. One of which nothing
/// is known is left out.
pub open spec fn pane_trees(
    ids: Seq<usize>,
    panes: Map<usize, Pane>,
    facts: Map<usize, PaneFacts>,
    active: usize,
    now: u64,
    k: nat,
) -> Seq<PaneTreeView>
    decreases k,
{
    if k == 0 {
        seq![]
    } else {
        let before = pane_trees(ids, panes, facts, active, now, (k - 1) as nat);
        let id = ids[k - 1];
        if panes.contains_key(id) && facts.contains_key(id) {
            before.push(pane_tree(id, panes[id], facts[id], active, now))
        } else {
            before
        }
    }
}

/// A number put in its place in an ascending list.
pub open spec fn inserted(s: Seq<usize>, x: usize) -> Seq<usize>
    decreases s.len(),
{
    if s.len() == 0 || s.last() <= x {
        s.push(x)
    } else {
        inserted(s.drop_last(), x).push(s.last())
    }
}

/// Numbers in ascending order.
pub open spec fn ascending(s: Seq<usize>) -> Seq<usize>
    decreases s.len(),
{
    if s.len() == 0 {
        seq![]
    } else {
        inserted(ascending(s.drop_last()), s.last())
    }
}

proof fn lemma_inserted(s: Seq<usize>, x: usize)
    requires
        forall|i: int, j: int| 0 <= i <= j < s.len() ==> s[i] <= s[j],
    ensures
        forall|i: int, j: int|
            0 <= i <= j < inserted(s, x).len() ==> inserted(s, x)[i] <= inserted(s, x)[j],
        inserted(s, x).to_multiset() == s.to_multiset().insert(x),
        inserted(s, x).len() == s.len() + 1,
        s.len() > 0 ==> inserted(s, x).last() == if s.last() <= x {
            x
        } else {
            s.last()
        },
    decreases s.len(),
{
    broadcast use vstd::seq_lib::group_to_multiset_ensures;

    if s.len() == 0 || s.last() <= x {
    } else {
        let rest = s.drop_last();
        lemma_inserted(rest, x);
        let r = inserted(rest, x);
        assert forall|i: int| 0 <= i < r.len() implies r[i] <= s.last() by {
            assert(r[i] <= r.last());
            if rest.len() > 0 {
                assert(rest.last() <= s.last());
            } else {
                assert(r =~= seq![x]);
            }
        }
        assert(rest.push(s.last()) =~= s);
        assert(r.push(s.last()).to_multiset() =~= s.to_multiset().insert(x));
    }
}

/// `ascending` orders its numbers and neither adds nor drops any.
pub proof fn ascending_is_ordered(s: Seq<usize>)
    ensures
        forall|i: int, j: int|
            0 <= i <= j < ascending(s).len() ==> ascending(s)[i] <= ascending(s)[j],
        ascending(s).to_multiset() == s.to_multiset(),
    decreases s.len(),
{
    broadcast use vstd::seq_lib::group_to_multiset_ensures;

    if s.len() > 0 {
        ascending_is_ordered(s.drop_last());
        lemma_inserted(ascending(s.drop_last()), s.last());
        assert(s.drop_last().push(s.last()) =~= s);
    } else {
        assert(s =~= seq![]);
    }
}

fn insert_ordered(v: &Vec<usize>, x: usize) -> (r: Vec<usize>)
    ensures
        r@ == inserted(v@, x),
{
    let mut at: usize = v.len();
    let ghost whole = v@;
    assert(whole.take(at as int) =~= whole);
    while at > 0 && v[at - 1] > x
        invariant
            at <= v@.len(),
            whole == v@,
            inserted(whole, x) == inserted(whole.take(at as int), x) + whole.skip(at as int),
        decreases at,
    {
        proof {
            let s = whole.take(at as int);
            assert(s.drop_last() =~= whole.take(at - 1));
            assert(s.last() == whole[at - 1]);
            assert(inserted(s, x) + whole.skip(at as int) =~= inserted(whole.take(at - 1), x)
                + whole.skip(at - 1));
        }
        at -= 1;
    }
    let mut out: Vec<usize> = Vec::new();
    let mut i: usize = 0;
    while i < at
        invariant
            i <= at <= v@.len(),
            out@ == v@.take(i as int),
        decreases at - i,
    {
        out.push(v[i]);
        i += 1;
        assert(out@ =~= v@.take(i as int));
    }
    out.push(x);
    while i < v.len()
        invariant
            at <= i <= v@.len(),
            out@ == v@.take(at as int).push(x) + v@.subrange(at as int, i as int),
        decreases v@.len() - i,
    {
        out.push(v[i]);
        i += 1;
        assert(out@ =~= v@.take(at as int).push(x) + v@.subrange(at as int, i as int));
    }
    assert(out@ =~= inserted(v@, x));
    out
}

fn sort_ids(ids: &Vec<usize>) -> (r: Vec<usize>)
    ensures
        r@ == ascending(ids@),
{
    let mut out: Vec<usize> = Vec::new();
    let mut i: usize = 0;
    while i < ids.len()
        invariant
            i <= ids@.len(),
            out@ == ascending(ids@.take(i as int)),
        decreases ids@.len() - i,
    {
        assert(ids@.take(i + 1).drop_last() =~= ids@.take(i as int));
        out = insert_ordered(&out, ids[i]);
        i += 1;
    }
    assert(ids@.take(i as int) =~= ids@);
    out
}

/// The layout in the tree: the numbers of its panes.
pub open spec fn layout_text(ids: Seq<usize>) -> Seq<char> {
    "panes:["@ + text::join(
        ascending(ids).map_values(|id: usize| text::decimal(id as nat)),
        ","@,
    ) + "]"@
}

fn describe_layout(ids: &Vec<usize>) -> (r: String)
    ensures
        r@ == layout_text(ids@),
{
    let sorted = sort_ids(ids);
    let ghost want = sorted@.map_values(|id: usize| text::decimal(id as nat));
    let mut names: Vec<String> = Vec::new();
    let mut i: usize = 0;
    assert(text::texts(names@) =~= want.take(0));
    while i < sorted.len()
        invariant
            i <= sorted@.len(),
            want == sorted@.map_values(|id: usize| text::decimal(id as nat)),
            text::texts(names@) == want.take(i as int),
        decreases sorted@.len() - i,
    {
        let n = text::decimal_text(sorted[i] as u128);
        proof {
            text::lemma_texts_push(names@, n);
            assert(want.take(i + 1) =~= want.take(i as int).push(want[i as int]));
        }
        names.push(n);
        i += 1;
    }
    proof {
        assert(want.take(i as int) =~= want);
        assert(text::texts(names@).skip(0) =~= want);
    }
    let joined = text::join_text(&names, 0, ",");
    let mut s = "panes:[".to_owned();
    s.append(joined.as_str());
    s.append("]");
    s
}

/// A tab in the tree.
pub open spec fn tab_tree(t: TabSource<'_>, now: u64) -> TabTreeView {
    let ids = layout::ids(t.layout.root);
    TabTreeView {
        id: t.id,
        name: t.name@,
        focused_pane: if t.panes@.contains_key(t.active_pane) {
            Some(t.active_pane)
        } else {
            None
        },
        layout: layout_text(ids),
        panes: pane_trees(ids, t.panes@, t.facts@, t.active_pane, now, ids.len()),
    }
}

fn copy_text(s: Option<&str>) -> (r: Option<String>)
    ensures
        keymap::text_view(r) == paths::text_of(s),
{
    match s {
        Some(t) => Some(t.to_owned()),
        None => None,
    }
}

fn describe_pane(id: usize, p: &Pane, f: &PaneFacts, active: usize, now: u64) -> (r: PaneTreeInfo)
    ensures
        r@ == pane_tree(id, *p, *f, active, now),
{
    let title = if f.title.as_str().is_empty() {
        copy_text(p.name())
    } else {
        Some(f.title.clone())
    };
    let exit_code = match p.exit_code() {
        Some(c) => Some(
            #[verifier::truncate]
            (c as i32),
        ),
        None => None,
    };
    PaneTreeInfo {
        id,
        command: p.launch_label("sh", f.title.as_str()),
        cwd: copy_text(p.initial_cwd()),
        size: [f.cols, f.rows],
        pid: f.pid,
        reported_cwd: copy_text(p.reported_cwd(now)),
        exit_code,
        is_dead: !p.is_alive(),
        is_focused: id == active,
        title,
    }
}

/// Describes a tab and its panes.
pub fn build_tab_info(t: &TabSource<'_>, now: u64) -> (r: TabInfo)
    ensures
        r@ == tab_tree(*t, now),
{
    let ids = t.layout.pane_ids();
    let mut panes: Vec<PaneTreeInfo> = Vec::new();
    let mut i: usize = 0;
    assert(panes@.map_values(|p: PaneTreeInfo| p@) =~= seq![]);
    while i < ids.len()
        invariant
            i <= ids@.len(),
            panes@.map_values(|p: PaneTreeInfo| p@) == pane_trees(
                ids@,
                t.panes@,
                t.facts@,
                t.active_pane,
                now,
                i as nat,
            ),
        decreases ids@.len() - i,
    {
        let id: usize = ids[i];
        match (t.panes.get(&id), t.facts.get(&id)) {
            (Some(p), Some(f)) => {
                let info = describe_pane(id, p, f, t.active_pane, now);
                let ghost before = panes@.map_values(|p: PaneTreeInfo| p@);
                panes.push(info);
                assert(panes@.map_values(|p: PaneTreeInfo| p@) =~= before.push(info@));
            },
            _ => {},
        }
        i += 1;
    }
    TabInfo {
        id: t.id,
        name: t.name.to_owned(),
        focused_pane: if t.panes.contains_key(&t.active_pane) {
            Some(t.active_pane)
        } else {
            None
        },
        layout: describe_layout(&ids),
        panes,
    }
}

// ─── Session tree ──────────────────────────────────────────

pub open spec fn mode_name(m: AttachMode) -> Seq<char> {
    match m {
        AttachMode::Steal => "steal"@,
        AttachMode::Shared => "shared"@,
        AttachMode::Readonly => "readonly"@,
    }
}

/// A client in the tree. Clients have no path of their own, so a name is made of
/// their number.
pub open spec fn client_tree(c: connection::ClientInfo) -> ClientTreeView {
    ClientTreeView {
        socket: "client-"@ + text::decimal(c.id as nat),
        size: (c.tw, c.th),
        mode: mode_name(c.mode),
    }
}

fn describe_client(c: &connection::ClientInfo) -> (r: ClientInfo)
    ensures
        r@ == client_tree(*c),
{
    let mut socket = "client-".to_owned();
    let n = text::decimal_text(c.id as u128);
    socket.append(n.as_str());
    let mode = match c.mode {
        AttachMode::Steal => "steal",
        AttachMode::Shared => "shared",
        AttachMode::Readonly => "readonly",
    };
    ClientInfo { socket, size: [c.tw, c.th], mode: mode.to_owned() }
}

/// The sessions of the tree: this one, unless another is asked for.
pub open spec fn sessions_of(
    filter: Option<Seq<char>>,
    tabs: Seq<TabSource<'_>>,
    focused_tab: usize,
    clients: Seq<connection::ClientInfo>,
    session: Seq<char>,
    created_at: u64,
    now: u64,
) -> Seq<SessionTreeView> {
    if filter is Some && filter->Some_0 != session {
        seq![]
    } else {
        seq![
            SessionTreeView {
                name: session,
                created_at,
                clients: clients.map_values(|c: connection::ClientInfo| client_tree(c)),
                focused_tab: Some(focused_tab),
                tabs: tabs.map_values(|t: TabSource<'_>| tab_tree(t, now)),
            },
        ]
    }
}

/// Tells whether an answer holds a tree of these sessions and nothing else.
pub open spec fn answers_tree(r: IpcResponse, sessions: Seq<SessionTreeView>) -> bool {
    &&& r.ls_tree is Some
    &&& tree_view(r.ls_tree->Some_0) == ("1.0"@, sessions)
    &&& crate::ipc::bare(IpcResponse { ls_tree: None, ..r }, true)
}

/// Answers with the tree of the session.
pub fn handle_ls_tree(
    filter: Option<&str>,
    tabs: &Vec<TabSource<'_>>,
    focused_tab: usize,
    clients: &Vec<connection::ClientInfo>,
    session: &str,
    created_at: u64,
    now: u64,
) -> (r: IpcResponse)
    ensures
        answers_tree(
            r,
            sessions_of(
                paths::text_of(filter),
                tabs@,
                focused_tab,
                clients@,
                session@,
                created_at,
                now,
            ),
        ),
{
    let mut sessions: Vec<SessionTree> = Vec::new();
    let other = match filter {
        Some(f) => !text::same_text(f, session),
        None => false,
    };
    if !other {
        let mut infos: Vec<ClientInfo> = Vec::new();
        let ghost want = clients@.map_values(|c: connection::ClientInfo| client_tree(c));
        let mut i: usize = 0;
        assert(infos@.map_values(|c: ClientInfo| c@) =~= want.take(0));
        while i < clients.len()
            invariant
                i <= clients@.len(),
                want == clients@.map_values(|c: connection::ClientInfo| client_tree(c)),
                infos@.map_values(|c: ClientInfo| c@) == want.take(i as int),
            decreases clients@.len() - i,
        {
            let info = describe_client(&clients[i]);
            let ghost before = infos@.map_values(|c: ClientInfo| c@);
            infos.push(info);
            proof {
                assert(infos@.map_values(|c: ClientInfo| c@) =~= before.push(info@));
                assert(want.take(i + 1) =~= want.take(i as int).push(want[i as int]));
            }
            i += 1;
        }
        assert(want.take(i as int) =~= want);
        let mut trees: Vec<TabInfo> = Vec::new();
        let ghost shown = tabs@.map_values(|t: TabSource<'_>| tab_tree(t, now));
        let mut k: usize = 0;
        assert(trees@.map_values(|t: TabInfo| t@) =~= shown.take(0));
        while k < tabs.len()
            invariant
                k <= tabs@.len(),
                shown == tabs@.map_values(|t: TabSource<'_>| tab_tree(t, now)),
                trees@.map_values(|t: TabInfo| t@) == shown.take(k as int),
            decreases tabs@.len() - k,
        {
            let info = build_tab_info(&tabs[k], now);
            let ghost before = trees@.map_values(|t: TabInfo| t@);
            trees.push(info);
            proof {
                assert(trees@.map_values(|t: TabInfo| t@) =~= before.push(info@));
                assert(shown.take(k + 1) =~= shown.take(k as int).push(shown[k as int]));
            }
            k += 1;
        }
        assert(shown.take(k as int) =~= shown);
        sessions.push(
            SessionTree {
                name: session.to_owned(),
                created_at,
                clients: infos,
                focused_tab: Some(focused_tab),
                tabs: trees,
            },
        );
    }
    let tree = LsTree { proto_version: "1.0".to_owned(), sessions };
    assert(tree_view(tree).1 =~= sessions_of(
        paths::text_of(filter),
        tabs@,
        focused_tab,
        clients@,
        session@,
        created_at,
        now,
    ));
    IpcResponse::with_ls_tree(tree)
}

// ─── Text of a pane ────────────────────────────────────────

/// The pane that a request for text is about: the one it names, or the active
/// one where it names number zero and there is none.
pub open spec fn target_of(id: usize, active: usize, panes: Map<usize, Pane>) -> Option<usize> {
    if panes.contains_key(id) {
        Some(id)
    } else if id == 0 && panes.contains_key(active) {
        Some(active)
    } else {
        None
    }
}

/// The pane that a request for text is about.
pub fn dump_target(id: usize, active: usize, panes: &HashMap<usize, Pane>) -> (r: Option<usize>)
    ensures
        r == target_of(id, active, panes@),
{
    if panes.contains_key(&id) {
        Some(id)
    } else if id == 0 && panes.contains_key(&active) {
        Some(active)
    } else {
        None
    }
}

/// The lines from number `since` on, counted from one, and of those the last
/// `last`.
pub open spec fn sliced<T>(lines: Seq<T>, since: Option<usize>, last: Option<usize>) -> Seq<T> {
    let from = match since {
        Some(n) => layout::min(layout::minus(n as int, 1), lines.len() as int),
        None => 0,
    };
    let rest = lines.skip(from);
    match last {
        Some(n) => if rest.len() > n {
            rest.skip(rest.len() - n)
        } else {
            rest
        },
        None => rest,
    }
}

/// Where the lines begin that are kept.
pub open spec fn slice_start(len: nat, since: Option<usize>, last: Option<usize>) -> nat {
    let from = match since {
        Some(n) => layout::min(layout::minus(n as int, 1), len as int),
        None => 0,
    };
    match last {
        Some(n) => if len - from > n {
            (len - n) as nat
        } else {
            from as nat
        },
        None => from as nat,
    }
}

fn first_kept(len: usize, since: Option<usize>, last: Option<usize>) -> (r: usize)
    ensures
        r == slice_start(len as nat, since, last),
        r <= len,
{
    let from: usize = match since {
        Some(n) => {
            let less: usize = if n > 1 {
                n - 1
            } else {
                0
            };
            if less < len {
                less
            } else {
                len
            }
        },
        None => 0,
    };
    match last {
        Some(n) => if len - from > n {
            len - n
        } else {
            from
        },
        None => from,
    }
}

/// The lines that a request keeps.
pub fn slice_lines(lines: &Vec<String>, since: Option<usize>, last: Option<usize>) -> (r: Vec<
    String,
>)
    ensures
        text::texts(r@) == sliced(text::texts(lines@), since, last),
{
    let from: usize = first_kept(lines.len(), since, last);
    let mut out: Vec<String> = Vec::new();
    let ghost all = text::texts(lines@);
    let mut i: usize = from;
    assert(text::texts(out@) =~= all.subrange(from as int, from as int));
    while i < lines.len()
        invariant
            from <= i <= lines@.len(),
            all == text::texts(lines@),
            text::texts(out@) == all.subrange(from as int, i as int),
        decreases lines@.len() - i,
    {
        let s = lines[i].clone();
        proof {
            text::lemma_texts_push(out@, s);
            assert(all.subrange(from as int, i + 1) =~= all.subrange(from as int, i as int).push(
                all[i as int],
            ));
        }
        out.push(s);
        i += 1;
    }
    assert(text::texts(out@) =~= sliced(all, since, last));
    out
}

/// The size of some lines, each with its line break, in bytes.
pub open spec fn text_size(lines: Seq<Seq<char>>) -> nat
    decreases lines.len(),
{
    if lines.len() == 0 {
        0
    } else {
        text_size(lines.drop_last()) + vstd::utf8::encode_utf8(lines.last()).len() + 1
    }
}

proof fn lemma_size_grows(lines: Seq<Seq<char>>, k: int)
    requires
        0 <= k <= lines.len(),
    ensures
        text_size(lines.take(k)) <= text_size(lines),
    decreases lines.len(),
{
    if k < lines.len() {
        lemma_size_grows(lines.drop_last(), k);
        assert(lines.drop_last().take(k) =~= lines.take(k));
    } else {
        assert(lines.take(k) =~= lines);
    }
}

/// Tells whether some lines are over the cap.
pub fn too_large(lines: &Vec<String>) -> (r: bool)
    ensures
        r == (text_size(text::texts(lines@)) > DUMP_MAX_BYTES),
{
    let mut n: usize = 0;
    let mut i: usize = 0;
    let ghost all = text::texts(lines@);
    while i < lines.len()
        invariant
            i <= lines@.len(),
            all == text::texts(lines@),
            n == text_size(all.take(i as int)),
            n <= DUMP_MAX_BYTES,
        decreases lines@.len() - i,
    {
        let len: usize = lines[i].as_str().as_bytes().len();
        proof {
            assert(all.take(i + 1).drop_last() =~= all.take(i as int));
            lemma_size_grows(all, i + 1);
        }
        if len >= DUMP_MAX_BYTES - n {
            return true;
        }
        n += len + 1;
        i += 1;
    }
    assert(all.take(i as int) =~= all);
    false
}

pub open spec fn not_found(id: usize) -> Seq<char> {
    "pane "@ + text::decimal(id as nat) + " not found"@
}

/// Answers that a pane is not there.
pub fn pane_not_found(id: usize) -> (r: IpcResponse)
    ensures
        keymap::text_view(r.error) == Some(not_found(id)),
        crate::ipc::bare(IpcResponse { error: None, ..r }, false),
{
    let mut s = "pane ".to_owned();
    let n = text::decimal_text(id as u128);
    s.append(n.as_str());
    s.append(" not found");
    IpcResponse::error(s.as_str())
}

/// Tells whether an answer is what a request for text is owed: the lines that
/// it keeps, or that they are too many.
pub open spec fn answers_dump(
    r: IpcResponse,
    target: usize,
    lines: Seq<Seq<char>>,
    since: Option<usize>,
    last: Option<usize>,
) -> bool {
    let kept = sliced(lines, since, last);
    if text_size(kept) > DUMP_MAX_BYTES {
        &&& keymap::text_view(r.error) == Some("dump too large; use --last N"@)
        &&& crate::ipc::bare(IpcResponse { error: None, ..r }, false)
    } else {
        &&& r.dump is Some
        &&& r.dump->Some_0.pane == target
        &&& r.dump->Some_0.total == lines.len()
        &&& text::texts(r.dump->Some_0.lines@) == kept
        &&& crate::ipc::bare(IpcResponse { dump: None, ..r }, true)
    }
}

/// Answers a request for the text of a pane whose lines are `lines`.
pub fn dump_lines(
    target: usize,
    lines: &Vec<String>,
    since: Option<usize>,
    last: Option<usize>,
) -> (r: IpcResponse)
    ensures
        answers_dump(r, target, text::texts(lines@), since, last),
{
    let total: usize = lines.len();
    let kept = slice_lines(lines, since, last);
    if too_large(&kept) {
        return IpcResponse::error("dump too large; use --last N");
    }
    IpcResponse::with_dump(DumpPayload { pane: target, lines: kept, total })
}

/// Answers a request for the text of a pane. `lines` is the text of the pane
/// that [`dump_target`] gives.
pub fn handle_dump_mut(
    request: &IpcRequestExt,
    panes: &HashMap<usize, Pane>,
    active_pane: usize,
    lines: &Vec<String>,
) -> (r: IpcResponse)
    ensures
        match *request {
            IpcRequestExt::Dump { pane, since, last, .. } => match target_of(
                pane,
                active_pane,
                panes@,
            ) {
                Some(target) => answers_dump(r, target, text::texts(lines@), since, last),
                None => keymap::text_view(r.error) == Some(not_found(pane)) && crate::ipc::bare(
                    (IpcResponse { error: None, ..r }),
                    false,
                ),
            },
            _ => keymap::text_view(r.error) == Some("dump: bad dispatch (non-Dump variant)"@)
                && crate::ipc::bare((IpcResponse { error: None, ..r }), false),
        },
{
    match request {
        IpcRequestExt::Dump { pane, since, last, .. } => {
            match dump_target(*pane, active_pane, panes) {
                Some(target) => dump_lines(target, lines, *since, *last),
                None => pane_not_found(*pane),
            }
        },
        _ => IpcResponse::error("dump: bad dispatch (non-Dump variant)"),
    }
}

/// What is answered at once to a request that needs no text of a pane; a
/// request for text is answered by [`dump_lines`].
pub fn dispatch_ext(
    request: &IpcRequestExt,
    tabs: &Vec<TabSource<'_>>,
    focused_tab: usize,
    clients: &Vec<connection::ClientInfo>,
    session: &str,
    created_at: u64,
    now: u64,
) -> (r: IpcResponse)
    ensures
        match *request {
            IpcRequestExt::LsTree { session: filter } => answers_tree(
                r,
                sessions_of(
                    keymap::text_view(filter),
                    tabs@,
                    focused_tab,
                    clients@,
                    session@,
                    created_at,
                    now,
                ),
            ),
            IpcRequestExt::Dump { .. } => keymap::text_view(r.error) == Some(
                "dump: internal dispatch error (must use handle_dump_mut)"@,
            ) && crate::ipc::bare(IpcResponse { error: None, ..r }, false),
            IpcRequestExt::SendKeys { .. } => keymap::text_view(r.error) == Some(
                "send-keys: server-side handler not yet wired (issue #81)"@,
            ) && crate::ipc::bare(IpcResponse { error: None, ..r }, false),
        },
{
    match request {
        IpcRequestExt::LsTree { session: filter } => {
            let wanted: Option<&str> = match filter {
                Some(f) => Some(f.as_str()),
                None => None,
            };
            handle_ls_tree(wanted, tabs, focused_tab, clients, session, created_at, now)
        },
        IpcRequestExt::Dump { .. } => IpcResponse::error(
            "dump: internal dispatch error (must use handle_dump_mut)",
        ),
        IpcRequestExt::SendKeys { .. } => IpcResponse::error(
            "send-keys: server-side handler not yet wired (issue #81)",
        ),
    }
}

// ─── Laws ──────────────────────────────────────────────────

/// No more lines are kept than were asked for, and they are the last ones from
/// `since` on.
pub proof fn the_last_lines_are_kept<T>(
    lines: Seq<T>,
    since: Option<usize>,
    last: Option<usize>,
)
    ensures
        sliced(lines, since, last) == lines.skip(slice_start(lines.len(), since, last) as int),
        last matches Some(n) ==> sliced(lines, since, last).len() <= n,
        since matches Some(n) ==> n >= 1 ==> slice_start(lines.len(), since, last)
            >= layout::min(n - 1, lines.len() as int),
{
    assert(sliced(lines, since, last) =~= lines.skip(
        slice_start(lines.len(), since, last) as int,
    ));
}

} // verus!
