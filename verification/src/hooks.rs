//! Hooks: commands that users register for events of a session.
//!
//! A command is a list of arguments and never goes through a shell. An argument
//! may hold `${path}` references to fields of the event, each of which is
//! replaced by the value of the field as it stands: the value is not read
//! again, and the number of arguments does not change.

use vstd::prelude::*;
use vstd::string::*;

use crate::paths;
use crate::text;

pub mod logs;

verus! {

// ─── Events ────────────────────────────────────────────────

/// What hooks can be registered for. The names are part of the interface.
#[derive(Clone, Copy, Debug, PartialEq, Eq, Structural)]
pub enum HookEvent {
    /// The session was created.
    AfterSessionCreate,
    /// A client is about to attach.
    BeforeAttach,
    /// A client attached.
    AfterAttach,
    /// A client is about to detach.
    BeforeDetach,
    /// A client detached.
    AfterDetach,
    /// A pane was started.
    AfterPaneSpawn,
    /// The program of a pane ended.
    AfterPaneExit,
    /// A pane changed its working directory.
    OnCwdChange,
    /// The focus moved to another pane.
    OnFocusChange,
    /// The configuration was read again.
    OnConfigReload,
    /// The session is about to end.
    BeforeSessionDestroy,
}

pub open spec fn event_name(e: HookEvent) -> Seq<char> {
    match e {
        HookEvent::BeforeAttach => "before_attach"@,
        HookEvent::AfterAttach => "after_attach"@,
        HookEvent::BeforeDetach => "before_detach"@,
        HookEvent::AfterDetach => "after_detach"@,
        HookEvent::AfterSessionCreate => "after_session_create"@,
        HookEvent::BeforeSessionDestroy => "before_session_destroy"@,
        HookEvent::AfterPaneSpawn => "after_pane_spawn"@,
        HookEvent::AfterPaneExit => "after_pane_exit"@,
        HookEvent::OnCwdChange => "on_cwd_change"@,
        HookEvent::OnFocusChange => "on_focus_change"@,
        HookEvent::OnConfigReload => "on_config_reload"@,
    }
}

/// The events in the order of a session's life.
pub open spec fn all_events() -> Seq<HookEvent> {
    seq![
        HookEvent::AfterSessionCreate,
        HookEvent::BeforeAttach,
        HookEvent::AfterAttach,
        HookEvent::BeforeDetach,
        HookEvent::AfterDetach,
        HookEvent::AfterPaneSpawn,
        HookEvent::AfterPaneExit,
        HookEvent::OnCwdChange,
        HookEvent::OnFocusChange,
        HookEvent::OnConfigReload,
        HookEvent::BeforeSessionDestroy,
    ]
}

/// The event of a name.
pub open spec fn event_of(s: Seq<char>) -> Option<HookEvent> {
    if s == "before_attach"@ {
        Some(HookEvent::BeforeAttach)
    } else if s == "after_attach"@ {
        Some(HookEvent::AfterAttach)
    } else if s == "before_detach"@ {
        Some(HookEvent::BeforeDetach)
    } else if s == "after_detach"@ {
        Some(HookEvent::AfterDetach)
    } else if s == "after_session_create"@ {
        Some(HookEvent::AfterSessionCreate)
    } else if s == "before_session_destroy"@ {
        Some(HookEvent::BeforeSessionDestroy)
    } else if s == "after_pane_spawn"@ {
        Some(HookEvent::AfterPaneSpawn)
    } else if s == "after_pane_exit"@ {
        Some(HookEvent::AfterPaneExit)
    } else if s == "on_cwd_change"@ {
        Some(HookEvent::OnCwdChange)
    } else if s == "on_focus_change"@ {
        Some(HookEvent::OnFocusChange)
    } else if s == "on_config_reload"@ {
        Some(HookEvent::OnConfigReload)
    } else {
        None
    }
}

/// Every event is found by its name, and a name gives its event.
pub proof fn events_are_found_by_name(e: HookEvent, s: Seq<char>)
    ensures
        event_of(event_name(e)) == Some(e),
        event_of(s) == Some(e) ==> event_name(e) == s,
        all_events().contains(e),
{
    reveal_strlit("before_attach");
    reveal_strlit("after_attach");
    reveal_strlit("before_detach");
    reveal_strlit("after_detach");
    reveal_strlit("after_session_create");
    reveal_strlit("before_session_destroy");
    reveal_strlit("after_pane_spawn");
    reveal_strlit("after_pane_exit");
    reveal_strlit("on_cwd_change");
    reveal_strlit("on_focus_change");
    reveal_strlit("on_config_reload");
    let all = all_events();
    assert(all[0] == HookEvent::AfterSessionCreate && all[1] == HookEvent::BeforeAttach && all[2]
        == HookEvent::AfterAttach && all[3] == HookEvent::BeforeDetach && all[4]
        == HookEvent::AfterDetach && all[5] == HookEvent::AfterPaneSpawn && all[6]
        == HookEvent::AfterPaneExit && all[7] == HookEvent::OnCwdChange && all[8]
        == HookEvent::OnFocusChange && all[9] == HookEvent::OnConfigReload && all[10]
        == HookEvent::BeforeSessionDestroy);
    assert("before_attach"@.len() == 13);
    assert("after_attach"@.len() == 12);
    assert("before_detach"@.len() == 13 && "before_detach"@[7] == 'd' && "before_attach"@[7]
        == 'a' && "on_cwd_change"@[0] == 'o');
    assert("after_detach"@.len() == 12 && "after_detach"@[6] == 'd' && "after_attach"@[6] == 'a');
    assert("after_session_create"@.len() == 20);
    assert("before_session_destroy"@.len() == 22);
    assert("after_pane_spawn"@.len() == 16 && "after_pane_spawn"@[0] == 'a');
    assert("after_pane_exit"@.len() == 15 && "after_pane_exit"@[0] == 'a');
    assert("on_cwd_change"@.len() == 13);
    assert("on_focus_change"@.len() == 15 && "on_focus_change"@[0] == 'o');
    assert("on_config_reload"@.len() == 16 && "on_config_reload"@[0] == 'o');
    assert("before_attach"@[0] == 'b' && "before_detach"@[0] == 'b');
}

impl HookEvent {
    /// The name in configuration files and logs.
    pub fn name(self) -> (r: &'static str)
        ensures
            r@ == event_name(self),
    {
        match self {
            HookEvent::BeforeAttach => "before_attach",
            HookEvent::AfterAttach => "after_attach",
            HookEvent::BeforeDetach => "before_detach",
            HookEvent::AfterDetach => "after_detach",
            HookEvent::AfterSessionCreate => "after_session_create",
            HookEvent::BeforeSessionDestroy => "before_session_destroy",
            HookEvent::AfterPaneSpawn => "after_pane_spawn",
            HookEvent::AfterPaneExit => "after_pane_exit",
            HookEvent::OnCwdChange => "on_cwd_change",
            HookEvent::OnFocusChange => "on_focus_change",
            HookEvent::OnConfigReload => "on_config_reload",
        }
    }

    /// The event of a name.
    pub fn from_str(s: &str) -> (r: Option<HookEvent>)
        ensures
            r == event_of(s@),
    {
        if text::same_text(s, "before_attach") {
            Some(HookEvent::BeforeAttach)
        } else if text::same_text(s, "after_attach") {
            Some(HookEvent::AfterAttach)
        } else if text::same_text(s, "before_detach") {
            Some(HookEvent::BeforeDetach)
        } else if text::same_text(s, "after_detach") {
            Some(HookEvent::AfterDetach)
        } else if text::same_text(s, "after_session_create") {
            Some(HookEvent::AfterSessionCreate)
        } else if text::same_text(s, "before_session_destroy") {
            Some(HookEvent::BeforeSessionDestroy)
        } else if text::same_text(s, "after_pane_spawn") {
            Some(HookEvent::AfterPaneSpawn)
        } else if text::same_text(s, "after_pane_exit") {
            Some(HookEvent::AfterPaneExit)
        } else if text::same_text(s, "on_cwd_change") {
            Some(HookEvent::OnCwdChange)
        } else if text::same_text(s, "on_focus_change") {
            Some(HookEvent::OnFocusChange)
        } else if text::same_text(s, "on_config_reload") {
            Some(HookEvent::OnConfigReload)
        } else {
            None
        }
    }

    /// All events, in the order of a session's life.
    pub fn all() -> (r: Vec<HookEvent>)
        ensures
            r@ == all_events(),
    {
        let v: Vec<HookEvent> =
            vec![
            HookEvent::AfterSessionCreate,
            HookEvent::BeforeAttach,
            HookEvent::AfterAttach,
            HookEvent::BeforeDetach,
            HookEvent::AfterDetach,
            HookEvent::AfterPaneSpawn,
            HookEvent::AfterPaneExit,
            HookEvent::OnCwdChange,
            HookEvent::OnFocusChange,
            HookEvent::OnConfigReload,
            HookEvent::BeforeSessionDestroy,
        ];
        assert(v@ =~= all_events());
        v
    }
}

// ─── Fields of an event ────────────────────────────────────

/// The fields of an event by their dotted path, such as `pane.cwd`.
#[derive(Debug)]
pub struct HookPayload {
    fields: Vec<(String, String)>,
}

/// The fields of a list; the last one of a name counts.
pub open spec fn field_map(v: Seq<(String, String)>) -> Map<Seq<char>, Seq<char>>
    decreases v.len(),
{
    if v.len() == 0 {
        Map::empty()
    } else {
        field_map(v.drop_last()).insert(v.last().0@, v.last().1@)
    }
}

impl View for HookPayload {
    type V = Map<Seq<char>, Seq<char>>;

    closed spec fn view(&self) -> Map<Seq<char>, Seq<char>> {
        field_map(self.fields@)
    }
}

/// The value of a field.
pub open spec fn field(p: Map<Seq<char>, Seq<char>>, key: Seq<char>) -> Option<Seq<char>> {
    if p.contains_key(key) {
        Some(p[key])
    } else {
        None
    }
}

impl HookPayload {
    /// No field.
    pub fn new() -> (r: HookPayload)
        ensures
            r@ == Map::<Seq<char>, Seq<char>>::empty(),
    {
        HookPayload { fields: Vec::new() }
    }

    /// With one more field.
    pub fn set(self, key: &str, value: &str) -> (r: HookPayload)
        ensures
            r@ == self@.insert(key@, value@),
    {
        let mut p = self;
        p.insert(key, value);
        p
    }

    /// Sets a field.
    pub fn insert(&mut self, key: &str, value: &str)
        ensures
            final(self)@ == old(self)@.insert(key@, value@),
    {
        self.fields.push((key.to_owned(), value.to_owned()));
        assert(self.fields@.drop_last() =~= old(self).fields@);
    }

    /// The value of a field.
    pub fn get(&self, key: &str) -> (r: Option<&str>)
        ensures
            paths::text_of(r) == field(self@, key@),
    {
        find_field(&self.fields, key)
    }
}

/// Looks a name up in a list of fields.
pub fn find_field<'a>(fields: &'a Vec<(String, String)>, key: &str) -> (r: Option<&'a str>)
    ensures
        paths::text_of(r) == field(field_map(fields@), key@),
{
    let mut i: usize = fields.len();
    assert(fields@.take(i as int) =~= fields@);
    while i > 0
        invariant
            i <= fields@.len(),
            field(field_map(fields@), key@) == field(field_map(fields@.take(i as int)), key@),
        decreases i,
    {
        let ghost now = fields@.take(i as int);
        i -= 1;
        assert(now.drop_last() =~= fields@.take(i as int));
        if text::same_text(fields[i].0.as_str(), key) {
            return Some(fields[i].1.as_str());
        }
    }
    None
}

// ─── References in arguments ───────────────────────────────

/// What an argument becomes, and the paths that have no field: each `${path}`
/// is replaced by the value of the field, or by nothing where there is none. A
/// value that was put in is not looked at again.
pub open spec fn substituted(s: Seq<char>, p: Map<Seq<char>, Seq<char>>) -> (
    Seq<char>,
    Seq<Seq<char>>,
)
    decreases s.len(),
{
    if s.len() == 0 {
        (seq![], seq![])
    } else {
        let end = text::until(s.skip(2), '}') as int;
        if s.len() >= 2 && s[0] == '$' && s[1] == '{' && 2 + end < s.len() {
            let key = s.subrange(2, 2 + end);
            let (out, missing) = substituted(s.skip(3 + end), p);
            match field(p, key) {
                Some(v) => (v + out, missing),
                None => (out, seq![key] + missing),
            }
        } else {
            let (out, missing) = substituted(s.skip(1), p);
            (seq![s[0]] + out, missing)
        }
    }
}

/// Replaces the references of an argument. Paths without a field are added to
/// `missing`.
pub fn substitute(input: &str, payload: &HookPayload, missing: &mut Vec<String>) -> (r: String)
    ensures
        r@ == substituted(input@, payload@).0,
        text::texts(final(missing)@) == text::texts(old(missing)@) + substituted(
            input@,
            payload@,
        ).1,
{
    let n: usize = input.unicode_len();
    let mut out = String::new();
    let mut i: usize = 0;
    let ghost p = payload@;
    proof {
        assert(input@.skip(0) =~= input@);
        assert(out@ + substituted(input@, p).0 =~= substituted(input@, p).0);
        assert(text::texts(missing@) + substituted(input@, p).1 =~= text::texts(missing@)
            + substituted(input@, p).1);
    }
    while i < n
        invariant
            i <= n,
            n == input@.len(),
            p == payload@,
            out@ + substituted(input@.skip(i as int), p).0 == substituted(input@, p).0,
            text::texts(missing@) + substituted(input@.skip(i as int), p).1 == text::texts(
                old(missing)@,
            ) + substituted(input@, p).1,
        decreases n - i,
    {
        let ghost s = input@.skip(i as int);
        let ghost before = text::texts(missing@);
        let ghost had = out@;
        if n - i >= 2 && input.get_char(i) == '$' && input.get_char(i + 1) == '{' {
            let mut j: usize = i + 2;
            assert(s.skip(2) =~= input@.skip(i + 2));
            while j < n && input.get_char(j) != '}'
                invariant
                    i + 2 <= j <= n,
                    n == input@.len(),
                    text::until(input@.skip(i + 2), '}') == (j - i - 2) + text::until(
                        input@.skip(j as int),
                        '}',
                    ),
                decreases n - j,
            {
                assert(input@.skip(j as int).skip(1) =~= input@.skip(j + 1));
                j += 1;
            }
            if j < n {
                let key = input.substring_char(i + 2, j);
                let ghost end = (j - i - 2) as int;
                proof {
                    assert(text::until(s.skip(2), '}') == end);
                    assert(key@ =~= s.subrange(2, 2 + end));
                    assert(s.skip(3 + end) =~= input@.skip(j + 1));
                }
                let ghost rest = substituted(input@.skip(j + 1), p);
                match payload.get(key) {
                    Some(v) => {
                        out.append(v);
                        assert(out@ + rest.0 =~= had + (v@ + rest.0));
                    },
                    None => {
                        let k = key.to_owned();
                        proof {
                            text::lemma_texts_push(missing@, k);
                        }
                        missing.push(k);
                        assert(text::texts(missing@) + rest.1 =~= before + (seq![key@] + rest.1));
                    },
                }
                i = j + 1;
                continue ;
            }
            assert(input@.skip(n as int) =~= seq![]);
            assert(text::until(s.skip(2), '}') == n - i - 2);
        }
        let c = input.get_char(i);
        out.push(c);
        proof {
            assert(s[0] == c);
            assert(s.skip(1) =~= input@.skip(i + 1));
            text::lemma_until(s.skip(2), '}');
            if s.len() >= 2 {
                assert(s[1] == input@[i + 1]);
            }
            let rest = substituted(input@.skip(i + 1), p);
            assert(out@ + rest.0 =~= had + (seq![c] + rest.0));
        }
        i += 1;
    }
    proof {
        assert(input@.skip(i as int) =~= seq![]);
        assert(out@ + Seq::<char>::empty() =~= out@);
        assert(text::texts(missing@) + Seq::<Seq<char>>::empty() =~= text::texts(missing@));
    }
    out
}

/// A text without a dollar sign stays as it is.
pub proof fn plain_text_stays(s: Seq<char>, p: Map<Seq<char>, Seq<char>>)
    requires
        !s.contains('$'),
    ensures
        substituted(s, p) == (s, Seq::<Seq<char>>::empty()),
    decreases s.len(),
{
    if s.len() == 0 {
        assert(s =~= seq![]);
    } else {
        assert(s[0] != '$') by {
            assert(s.contains(s[0]));
        }
        assert(!s.skip(1).contains('$')) by {
            if s.skip(1).contains('$') {
                let i = s.skip(1).index_of('$');
                assert(s[i + 1] == '$');
            }
        }
        plain_text_stays(s.skip(1), p);
        assert(seq![s[0]] + s.skip(1) =~= s);
    }
}

/// A reference becomes the value of its field, whatever the value holds.
pub proof fn reference_becomes_its_value(key: Seq<char>, p: Map<Seq<char>, Seq<char>>)
    requires
        !key.contains('}'),
        p.contains_key(key),
    ensures
        substituted(seq!['$', '{'] + key + seq!['}'], p) == (p[key], Seq::<Seq<char>>::empty()),
{
    let s = seq!['$', '{'] + key + seq!['}'];
    let rest = s.skip(2);
    assert(rest =~= key + seq!['}']);
    text::lemma_until(rest, '}');
    let end = text::until(rest, '}') as int;
    assert(rest[key.len() as int] == '}');
    assert(end <= key.len());
    if end < key.len() {
        assert(rest[end] == key[end]);
        assert(key.contains('}'));
    }
    assert(s.subrange(2, 2 + end) =~= key);
    assert(s.skip(3 + end) =~= seq![]);
    assert(substituted(s.skip(3 + end), p) == (Seq::<char>::empty(), Seq::<Seq<char>>::empty()));
    assert(p[key] + Seq::<char>::empty() =~= p[key]);
}

// ─── Conditions ────────────────────────────────────────────

#[derive(Clone, Copy, Debug, PartialEq, Eq, Structural)]
pub enum WhenOp {
    Eq,
    Ne,
}

#[derive(Debug, PartialEq, Eq)]
pub enum WhenRhs {
    Str(String),
    Int(i64),
}

/// A condition on a field: `${path} == "text"`, `${path} != 5` and the like.
#[derive(Debug, PartialEq, Eq)]
pub struct WhenPredicate {
    pub lhs: String,
    pub op: WhenOp,
    pub rhs: WhenRhs,
}

#[verifier::ext_equal]
pub enum RhsView {
    Str(Seq<char>),
    Int(int),
}

#[verifier::ext_equal]
pub struct WhenView {
    pub lhs: Seq<char>,
    pub op: WhenOp,
    pub rhs: RhsView,
}

impl View for WhenPredicate {
    type V = WhenView;

    open spec fn view(&self) -> WhenView {
        WhenView {
            lhs: self.lhs@,
            op: self.op,
            rhs: match self.rhs {
                WhenRhs::Str(s) => RhsView::Str(s@),
                WhenRhs::Int(n) => RhsView::Int(n as int),
            },
        }
    }
}

/// Why a hook is refused.
#[derive(Debug)]
pub enum HookParseError {
    UnknownEvent(String),
    EmptyExec,
    EmptyProgram,
    InvalidWhen(String),
}

#[verifier::ext_equal]
pub enum HookErrorView {
    UnknownEvent(Seq<char>),
    EmptyExec,
    EmptyProgram,
    InvalidWhen(Seq<char>),
}

impl View for HookParseError {
    type V = HookErrorView;

    open spec fn view(&self) -> HookErrorView {
        match *self {
            HookParseError::UnknownEvent(s) => HookErrorView::UnknownEvent(s@),
            HookParseError::EmptyExec => HookErrorView::EmptyExec,
            HookParseError::EmptyProgram => HookErrorView::EmptyProgram,
            HookParseError::InvalidWhen(s) => HookErrorView::InvalidWhen(s@),
        }
    }
}

pub open spec fn hook_error_text(e: HookErrorView) -> Seq<char> {
    match e {
        HookErrorView::UnknownEvent(name) => "unknown hook event '"@ + name + "' (valid: "@
            + text::join(all_events().map_values(|e: HookEvent| event_name(e)), ", "@) + ")"@,
        HookErrorView::EmptyExec => "hook exec must be a non-empty array"@,
        HookErrorView::EmptyProgram => "hook exec[0] (program name) must not be empty"@,
        HookErrorView::InvalidWhen(msg) => "invalid when predicate: "@ + msg,
    }
}

impl HookParseError {
    pub fn to_string(&self) -> (r: String)
        ensures
            r@ == hook_error_text(self@),
    {
        match self {
            HookParseError::UnknownEvent(name) => {
                let all = HookEvent::all();
                let mut names: Vec<String> = Vec::new();
                let mut i: usize = 0;
                while i < all.len()
                    invariant
                        i <= all@.len(),
                        all@ == all_events(),
                        text::texts(names@) == all_events().map_values(
                            |e: HookEvent| event_name(e),
                        ).take(i as int),
                    decreases all@.len() - i,
                {
                    let name = all[i].name().to_owned();
                    proof {
                        text::lemma_texts_push(names@, name);
                        let want = all_events().map_values(|e: HookEvent| event_name(e));
                        assert(want.take(i + 1) =~= want.take(i as int).push(want[i as int]));
                    }
                    names.push(name);
                    i += 1;
                }
                assert(text::texts(names@) =~= all_events().map_values(
                    |e: HookEvent| event_name(e),
                ));
                let joined = text::join_text(&names, 0, ", ");
                assert(text::texts(names@).skip(0) =~= text::texts(names@));
                let mut s = "unknown hook event '".to_owned();
                s.append(name.as_str());
                s.append("' (valid: ");
                s.append(joined.as_str());
                s.append(")");
                s
            },
            HookParseError::EmptyExec => "hook exec must be a non-empty array".to_owned(),
            HookParseError::EmptyProgram => {
                "hook exec[0] (program name) must not be empty".to_owned()
            },
            HookParseError::InvalidWhen(msg) => {
                let mut s = "invalid when predicate: ".to_owned();
                s.append(msg.as_str());
                s
            },
        }
    }
}

/// The path of a reference `${path}`.
pub open spec fn var_ref(s: Seq<char>) -> Option<Seq<char>> {
    let t = text::trim(s);
    if text::starts_with(t, "${"@) && text::ends_with(t.skip("${"@.len() as int), "}"@) {
        let rest = t.skip("${"@.len() as int);
        let path = rest.take(rest.len() - "}"@.len());
        if path.len() == 0 {
            None
        } else {
            Some(path)
        }
    } else {
        None
    }
}

fn parse_var_ref(s: &str) -> (r: Option<String>)
    ensures
        match r {
            Some(p) => var_ref(s@) == Some(p@),
            None => var_ref(s@) is None,
        },
{
    let t = text::trim_text(s);
    match text::strip_prefix_text(t, "${") {
        Some(rest) => match text::strip_suffix_text(rest, "}") {
            Some(path) => if path.is_empty() {
                None
            } else {
                Some(path.to_owned())
            },
            None => None,
        },
        None => None,
    }
}

/// A text between quotes of one kind.
pub open spec fn unquoted(s: Seq<char>) -> Option<Seq<char>> {
    if s.len() >= 2 && ((s[0] == '"' && s.last() == '"') || (s[0] == '\'' && s.last() == '\'')) {
        Some(s.subrange(1, s.len() - 1))
    } else {
        None
    }
}

fn strip_quotes(s: &str) -> (r: Option<&str>)
    ensures
        paths::text_of(r) == unquoted(s@),
{
    let n: usize = s.unicode_len();
    if n < 2 {
        return None;
    }
    let first = s.get_char(0);
    let last = s.get_char(n - 1);
    if (first == '"' && last == '"') || (first == '\'' && last == '\'') {
        Some(s.substring_char(1, n - 1))
    } else {
        None
    }
}

/// Where the operator of a condition stands: the first `==`, or else the first
/// `!=`.
pub open spec fn operator(s: Seq<char>) -> Option<(nat, WhenOp)> {
    match text::find(s, "=="@) {
        Some(i) => Some((i, WhenOp::Eq)),
        None => match text::find(s, "!="@) {
            Some(i) => Some((i, WhenOp::Ne)),
            None => None,
        },
    }
}

/// The condition that a text states.
pub open spec fn when_of(src: Seq<char>) -> Result<WhenView, Seq<char>> {
    let t = text::trim(src);
    match operator(t) {
        None => Err("expected `==` or `!=` operator in `"@ + t + "`"@),
        Some((at, op)) => {
            let left = text::trim(t.take(at as int));
            let right = text::trim(t.skip(at as int + 2));
            match var_ref(left) {
                None => Err(
                    "left-hand side must be a `${path}` reference, got `"@ + left + "`"@,
                ),
                Some(lhs) => match unquoted(right) {
                    Some(s) => Ok(WhenView { lhs, op, rhs: RhsView::Str(s) }),
                    None => match text::parse_signed(right) {
                        Some(n) => Ok(WhenView { lhs, op, rhs: RhsView::Int(n) }),
                        None => Err(
                            "right-hand side must be a quoted string or integer literal, got `"@
                                + right + "`"@,
                        ),
                    },
                },
            }
        },
    }
}

/// Tells whether a condition holds of the fields of an event. A missing field
/// is the empty text; a field that is no number equals none.
pub open spec fn holds(w: WhenView, p: Map<Seq<char>, Seq<char>>) -> bool {
    let value = match field(p, w.lhs) {
        Some(v) => v,
        None => seq![],
    };
    let same = match w.rhs {
        RhsView::Str(s) => value == s,
        RhsView::Int(n) => text::parse_signed(value) == Some(n),
    };
    match w.op {
        WhenOp::Eq => same,
        WhenOp::Ne => !same,
    }
}

fn bad_when(start: &str, what: &str) -> (r: HookParseError)
    ensures
        r@ == HookErrorView::InvalidWhen(start@ + what@ + "`"@),
{
    let mut s = start.to_owned();
    s.append(what);
    s.append("`");
    HookParseError::InvalidWhen(s)
}

impl WhenPredicate {
    /// Reads a condition.
    pub fn parse(src: &str) -> (r: Result<WhenPredicate, HookParseError>)
        ensures
            match r {
                Ok(w) => when_of(src@) == Ok::<WhenView, Seq<char>>(w@),
                Err(e) => e@ is InvalidWhen && when_of(src@) == Err::<WhenView, Seq<char>>(
                    e@->InvalidWhen_0,
                ),
            },
    {
        let t = text::trim_text(src);
        proof {
            reveal_strlit("==");
            reveal_strlit("!=");
            text::lemma_find(t@, "=="@);
            text::lemma_find(t@, "!="@);
        }
        let (at, op): (usize, WhenOp) = match text::find_text(t, "==") {
            Some(i) => (i, WhenOp::Eq),
            None => match text::find_text(t, "!=") {
                Some(i) => (i, WhenOp::Ne),
                None => {
                    return Err(bad_when("expected `==` or `!=` operator in `", t));
                },
            },
        };
        let n: usize = t.unicode_len();
        let before = t.substring_char(0, at);
        let after = t.substring_char(at + 2, n);
        proof {
            assert(before@ =~= t@.take(at as int));
            assert(after@ =~= t@.skip(at as int + 2));
        }
        let left = text::trim_text(before);
        let right = text::trim_text(after);
        let lhs = match parse_var_ref(left) {
            Some(p) => p,
            None => {
                return Err(bad_when("left-hand side must be a `${path}` reference, got `", left));
            },
        };
        let rhs = match strip_quotes(right) {
            Some(s) => WhenRhs::Str(s.to_owned()),
            None => match text::parse_signed_text(right) {
                Some(n) => WhenRhs::Int(n),
                None => {
                    return Err(
                        bad_when(
                            "right-hand side must be a quoted string or integer literal, got `",
                            right,
                        ),
                    );
                },
            },
        };
        Ok(WhenPredicate { lhs, op, rhs })
    }

    /// Tells whether the condition holds of the fields of an event.
    pub fn evaluate(&self, payload: &HookPayload) -> (r: bool)
        ensures
            r == holds(self@, payload@),
    {
        let value = match payload.get(self.lhs.as_str()) {
            Some(v) => v,
            None => "",
        };
        proof {
            reveal_strlit("");
            assert(""@ =~= seq![]);
        }
        let same = match &self.rhs {
            WhenRhs::Str(s) => text::same_text(value, s.as_str()),
            WhenRhs::Int(n) => match text::parse_signed_text(value) {
                Some(v) => v == *n,
                None => false,
            },
        };
        match self.op {
            WhenOp::Eq => same,
            WhenOp::Ne => !same,
        }
    }
}

/// `==` and `!=` are opposites.
pub proof fn unequal_is_not_equal(
    lhs: Seq<char>,
    rhs: RhsView,
    p: Map<Seq<char>, Seq<char>>,
)
    ensures
        holds(WhenView { lhs, op: WhenOp::Ne, rhs }, p) == !holds(
            WhenView { lhs, op: WhenOp::Eq, rhs },
            p,
        ),
{
}

/// The text of a condition on `path`.
pub open spec fn condition(path: Seq<char>, op: Seq<char>, literal: Seq<char>) -> Seq<char> {
    "${"@ + path + "} "@ + op + " "@ + literal
}

proof fn lemma_condition_parts(path: Seq<char>, a: char, literal: Seq<char>)
    requires
        a == '=' || a == '!',
    ensures
        ({
            let head = seq!['$', '{'] + path + seq!['}', ' ', a, '='];
            let tail = text::trim_end(seq![' '] + literal);
            text::trim(head + (seq![' '] + literal)) == head + tail
        }),
{
    let head = seq!['$', '{'] + path + seq!['}', ' ', a, '='];
    let whole = head + (seq![' '] + literal);
    assert(whole[0] == '$');
    assert(head.last() == '=');
    text::lemma_trim_end_add(head, seq![' '] + literal);
}

proof fn lemma_left_len(left: Seq<char>, path: Seq<char>)
    requires
        var_ref(text::trim(left)) == Some(path),
    ensures
        path.len() + 3 <= left.len(),
{
    reveal_strlit("${");
    reveal_strlit("}");
    text::lemma_trim_len(left);
    text::lemma_trim_len(text::trim(left));
}

proof fn lemma_pair_at(s: Seq<char>, i: int, a: char, b: char)
    requires
        0 <= i,
        i + 2 <= s.len(),
    ensures
        text::starts_with(s.skip(i), seq![a, b]) == (s[i] == a && s[i + 1] == b),
{
    let t = s.skip(i).take(2);
    assert(t[0] == s[i] && t[1] == s[i + 1]);
    if s[i] == a && s[i + 1] == b {
        assert(t =~= seq![a, b]);
    } else {
        assert(seq![a, b][0] == a && seq![a, b][1] == b);
    }
}

proof fn lemma_operator_place(path: Seq<char>, a: char, literal: Seq<char>, at: nat, op: WhenOp)
    requires
        a == '=' || a == '!',
        a == '!' ==> text::find(literal, "=="@) is None,
        ({
            let t = seq!['$', '{'] + path + seq!['}', ' ', a, '='] + text::trim_end(
                seq![' '] + literal,
            );
            operator(t) == Some((at, op)) && var_ref(text::trim(t.take(at as int))) == Some(path)
        }),
    ensures
        at == path.len() + 4,
        op == if a == '=' {
            WhenOp::Eq
        } else {
            WhenOp::Ne
        },
{
    reveal_strlit("==");
    reveal_strlit("!=");
    assert("=="@ =~= seq!['=', '=']);
    assert("!="@ =~= seq!['!', '=']);
    let tail = text::trim_end(seq![' '] + literal);
    let t = seq!['$', '{'] + path + seq!['}', ' ', a, '='] + tail;
    let n = path.len() as int;
    text::lemma_trim_end_front(seq![' '] + literal);
    assert(t[n + 3] == ' ' && t[n + 4] == a && t[n + 5] == '=');
    text::lemma_find(t, "=="@);
    text::lemma_find(t, "!="@);
    lemma_left_len(t.take(at as int), path);
    lemma_pair_at(t, n + 4, a, '=');
    lemma_pair_at(t, at as int, '=', '=');
    lemma_pair_at(t, at as int, '!', '=');
    if a == '=' {
        text::lemma_find_first(t, "=="@, n + 4);
    } else {
        if text::find(t, "=="@) is Some {
            let j = at - (n + 6);
            if j >= 0 {
                assert(t[at as int] == tail[j] && t[at as int + 1] == tail[j + 1]);
                assert(tail[j] == (seq![' '] + literal)[j]);
                assert(tail[j + 1] == (seq![' '] + literal)[j + 1]);
                assert(j >= 1);
                lemma_pair_at(literal, j - 1, '=', '=');
                text::lemma_find_first(literal, "=="@, j - 1);
            } else if at == n + 5 {
                assert(t[at as int + 1] == tail[0]);
                assert(tail[0] == (seq![' '] + literal)[0]);
            }
            assert(false);
        }
        text::lemma_find_first(t, "!="@, n + 4);
    }
}

/// Two conditions on the same path with the same literal, one with `==` and
/// one with `!=`, are opposites, whatever the event. A quoted literal is held
/// against the field's text, where a missing field is the empty text; a number
/// against the number that the field reads as.
pub proof fn opposite_conditions(path: Seq<char>, literal: Seq<char>, eq: WhenView, ne: WhenView)
    requires
        when_of(condition(path, "=="@, literal)) == Ok::<WhenView, Seq<char>>(eq),
        when_of(condition(path, "!="@, literal)) == Ok::<WhenView, Seq<char>>(ne),
        eq.lhs == path,
        ne.lhs == path,
        text::find(literal, "=="@) is None,
    ensures
        forall|p: Map<Seq<char>, Seq<char>>| #[trigger] holds(ne, p) == !holds(eq, p),
        forall|p: Map<Seq<char>, Seq<char>>|
            #![trigger holds(eq, p)]
            holds(eq, p) == match unquoted(text::trim(literal)) {
                Some(s) => (match field(p, path) {
                    Some(v) => v,
                    None => seq![],
                }) == s,
                None => field(p, path) matches Some(v) && text::parse_signed(v) is Some
                    && text::parse_signed(v) == text::parse_signed(text::trim(literal)),
            },
{
    reveal_strlit("${");
    reveal_strlit("} ");
    reveal_strlit(" ");
    reveal_strlit("==");
    reveal_strlit("!=");
    let tail = text::trim_end(seq![' '] + literal);
    let head_eq = seq!['$', '{'] + path + seq!['}', ' ', '=', '='];
    let head_ne = seq!['$', '{'] + path + seq!['}', ' ', '!', '='];
    assert(condition(path, "=="@, literal) =~= head_eq + (seq![' '] + literal));
    assert(condition(path, "!="@, literal) =~= head_ne + (seq![' '] + literal));
    lemma_condition_parts(path, '=', literal);
    lemma_condition_parts(path, '!', literal);
    let (at_eq, op_eq) = operator(head_eq + tail)->Some_0;
    let (at_ne, op_ne) = operator(head_ne + tail)->Some_0;
    lemma_operator_place(path, '=', literal, at_eq, op_eq);
    lemma_operator_place(path, '!', literal, at_ne, op_ne);
    assert((head_eq + tail).skip(at_eq as int + 2) =~= tail);
    assert((head_ne + tail).skip(at_ne as int + 2) =~= tail);
    text::lemma_trim_again(seq![' '] + literal);
    text::lemma_trim_again(literal);
    assert(text::is_space(' '));
    assert(text::trim(tail) == text::trim(literal));
    assert(text::parse_signed(seq![]) is None);
}

// ─── Hooks ─────────────────────────────────────────────────

/// A hook as it stands in a configuration file.
#[derive(Debug)]
pub struct RawHook {
    pub event: String,
    pub argv: Vec<String>,
    pub when: Option<String>,
}

/// A hook that was checked.
#[derive(Debug)]
pub struct Hook {
    pub event: HookEvent,
    /// The program and its arguments, with their references.
    pub argv: Vec<String>,
    /// The hook only runs where this holds.
    pub when: Option<WhenPredicate>,
}

#[verifier::ext_equal]
pub struct HookView {
    pub event: HookEvent,
    pub argv: Seq<Seq<char>>,
    pub when: Option<WhenView>,
}

pub open spec fn when_view(w: Option<WhenPredicate>) -> Option<WhenView> {
    match w {
        Some(p) => Some(p@),
        None => None,
    }
}

impl View for Hook {
    type V = HookView;

    open spec fn view(&self) -> HookView {
        HookView {
            event: self.event,
            argv: text::texts(self.argv@),
            when: when_view(self.when),
        }
    }
}

/// What a raw hook comes to. A blank condition is none.
pub open spec fn hook_of(
    event: Seq<char>,
    argv: Seq<Seq<char>>,
    when: Option<Seq<char>>,
) -> Result<HookView, HookErrorView> {
    match event_of(event) {
        None => Err(HookErrorView::UnknownEvent(event)),
        Some(e) => if argv.len() == 0 {
            Err(HookErrorView::EmptyExec)
        } else if text::trim(argv[0]).len() == 0 {
            Err(HookErrorView::EmptyProgram)
        } else {
            match when {
                Some(s) => if text::trim(s).len() > 0 {
                    match when_of(s) {
                        Ok(w) => Ok(HookView { event: e, argv, when: Some(w) }),
                        Err(m) => Err(HookErrorView::InvalidWhen(m)),
                    }
                } else {
                    Ok(HookView { event: e, argv, when: None })
                },
                None => Ok(HookView { event: e, argv, when: None }),
            }
        },
    }
}

impl Hook {
    /// Checks a raw hook.
    pub fn from_raw(raw: RawHook) -> (r: Result<Hook, HookParseError>)
        ensures
            match r {
                Ok(h) => hook_of(
                    raw.event@,
                    text::texts(raw.argv@),
                    crate::keymap::text_view(raw.when),
                ) == Ok::<HookView, HookErrorView>(h@),
                Err(e) => hook_of(
                    raw.event@,
                    text::texts(raw.argv@),
                    crate::keymap::text_view(raw.when),
                ) == Err::<HookView, HookErrorView>(e@),
            },
    {
        let event = match HookEvent::from_str(raw.event.as_str()) {
            Some(e) => e,
            None => {
                return Err(HookParseError::UnknownEvent(raw.event));
            },
        };
        if raw.argv.len() == 0 {
            return Err(HookParseError::EmptyExec);
        }
        if text::trim_text(raw.argv[0].as_str()).is_empty() {
            return Err(HookParseError::EmptyProgram);
        }
        let mut when: Option<WhenPredicate> = None;
        match &raw.when {
            Some(s) => {
                if !text::trim_text(s.as_str()).is_empty() {
                    match WhenPredicate::parse(s.as_str()) {
                        Ok(w) => {
                            when = Some(w);
                        },
                        Err(e) => {
                            return Err(e);
                        },
                    }
                }
            },
            None => {},
        }
        Ok(Hook { event, argv: raw.argv, when })
    }
}

// ─── Which hooks run ───────────────────────────────────────

/// A hook that is to run: its arguments with their references replaced, and
/// the paths that had no field.
#[derive(Debug)]
pub struct HookRun {
    pub argv: Vec<String>,
    pub missing: Vec<String>,
}

#[verifier::ext_equal]
pub struct RunView {
    pub argv: Seq<Seq<char>>,
    pub missing: Seq<Seq<char>>,
}

impl View for HookRun {
    type V = RunView;

    open spec fn view(&self) -> RunView {
        RunView { argv: text::texts(self.argv@), missing: text::texts(self.missing@) }
    }
}

/// The paths without a field, over all arguments.
pub open spec fn missing_in(argv: Seq<Seq<char>>, p: Map<Seq<char>, Seq<char>>) -> Seq<Seq<char>>
    decreases argv.len(),
{
    if argv.len() == 0 {
        seq![]
    } else {
        missing_in(argv.drop_last(), p) + substituted(argv.last(), p).1
    }
}

pub open spec fn run_of(h: HookView, p: Map<Seq<char>, Seq<char>>) -> RunView {
    RunView {
        argv: h.argv.map_values(|s: Seq<char>| substituted(s, p).0),
        missing: missing_in(h.argv, p),
    }
}

/// Tells whether a hook runs on an event.
pub open spec fn applies(h: HookView, e: HookEvent, p: Map<Seq<char>, Seq<char>>) -> bool {
    h.event == e && (match h.when {
        Some(w) => holds(w, p),
        None => true,
    })
}

/// What runs on an event, in the order of registration.
pub open spec fn runs_for(hooks: Seq<HookView>, e: HookEvent, p: Map<Seq<char>, Seq<char>>) -> Seq<RunView>
    decreases hooks.len(),
{
    if hooks.len() == 0 {
        seq![]
    } else {
        let before = runs_for(hooks.drop_last(), e, p);
        if applies(hooks.last(), e, p) {
            before.push(run_of(hooks.last(), p))
        } else {
            before
        }
    }
}

/// How many hooks are registered for an event.
pub open spec fn registered(hooks: Seq<HookView>, e: HookEvent) -> nat
    decreases hooks.len(),
{
    if hooks.len() == 0 {
        0
    } else {
        registered(hooks.drop_last(), e) + (if hooks.last().event == e {
            1nat
        } else {
            0nat
        })
    }
}

/// A run has as many arguments as its hook: none is split and none is lost.
pub proof fn arguments_keep_their_number(h: HookView, p: Map<Seq<char>, Seq<char>>)
    ensures
        run_of(h, p).argv.len() == h.argv.len(),
{
}

/// No more hooks run than are registered for the event.
pub proof fn only_registered_hooks_run(
    hooks: Seq<HookView>,
    e: HookEvent,
    p: Map<Seq<char>, Seq<char>>,
)
    ensures
        runs_for(hooks, e, p).len() <= registered(hooks, e) <= hooks.len(),
    decreases hooks.len(),
{
    if hooks.len() > 0 {
        only_registered_hooks_run(hooks.drop_last(), e, p);
    }
}

/// How many hooks are registered for some events together.
pub open spec fn registered_for(hooks: Seq<HookView>, events: Seq<HookEvent>) -> nat
    decreases events.len(),
{
    if events.len() == 0 {
        0
    } else {
        registered_for(hooks, events.drop_last()) + registered(hooks, events.last())
    }
}

proof fn lemma_counts_push(hooks: Seq<HookView>, events: Seq<HookEvent>)
    requires
        hooks.len() > 0,
        events.no_duplicates(),
    ensures
        registered_for(hooks, events) == registered_for(hooks.drop_last(), events) + (
        if events.contains(hooks.last().event) {
            1nat
        } else {
            0nat
        }),
    decreases events.len(),
{
    if events.len() > 0 {
        let rest = events.drop_last();
        lemma_counts_push(hooks, rest);
        let e = hooks.last().event;
        if rest.contains(e) {
            let i = rest.index_of(e);
            assert(events[i] == e);
            assert(events[i] != events.last());
        } else if events.contains(e) {
            let i = events.index_of(e);
            if i < rest.len() {
                assert(rest[i] == e);
            }
        } else {
            assert(events.last() != e) by {
                assert(events[events.len() - 1] == events.last());
            }
        }
        if events.last() == e {
            assert(events[events.len() - 1] == e);
        }
    }
}

/// The hooks of all events together are the registered hooks.
pub proof fn counts_add_up(hooks: Seq<HookView>)
    ensures
        registered_for(hooks, all_events()) == hooks.len(),
    decreases hooks.len(),
{
    let all = all_events();
    if hooks.len() == 0 {
        lemma_no_counts(all);
        assert(hooks =~= seq![]);
    } else {
        assert(all.no_duplicates());
        events_are_found_by_name(hooks.last().event, seq![]);
        lemma_counts_push(hooks, all);
        counts_add_up(hooks.drop_last());
    }
}

proof fn lemma_no_counts(events: Seq<HookEvent>)
    ensures
        registered_for(seq![], events) == 0,
    decreases events.len(),
{
    if events.len() > 0 {
        lemma_no_counts(events.drop_last());
    }
}

/// The registered hooks of all executors, one list for each executor and its
/// clones.
#[derive(Debug)]
pub struct HookStore {
    lists: Vec<Vec<Hook>>,
}

/// Registered hooks: which list of a store they are, and where their logs go.
/// Clones stand for the same list, so that they read the same hooks whatever is
/// registered in the place of others. An executor that is not of a store has
/// no hooks there.
#[derive(Debug)]
pub struct HookExecutor {
    list: usize,
    log_dir: Option<String>,
}

pub open spec fn hook_views(v: Seq<Hook>) -> Seq<HookView> {
    v.map_values(|h: Hook| h@)
}

pub open spec fn run_views(v: Seq<HookRun>) -> Seq<RunView> {
    v.map_values(|h: HookRun| h@)
}

impl View for HookStore {
    type V = Seq<Seq<HookView>>;

    closed spec fn view(&self) -> Seq<Seq<HookView>> {
        self.lists@.map_values(|l: Vec<Hook>| hook_views(l@))
    }
}

impl HookStore {
    /// No hooks, of no executor.
    pub fn new() -> (r: HookStore)
        ensures
            r@ == Seq::<Seq<HookView>>::empty(),
    {
        let r = HookStore { lists: Vec::new() };
        assert(r@ =~= Seq::<Seq<HookView>>::empty());
        r
    }
}

/// A store with another list in the place of one.
pub open spec fn replaced(
    store: Seq<Seq<HookView>>,
    list: nat,
    hooks: Seq<HookView>,
) -> Seq<Seq<HookView>> {
    if list < store.len() {
        store.update(list as int, hooks)
    } else {
        store
    }
}

/// Replacing the hooks of an executor leaves none of the earlier ones, neither
/// for it nor for its clones, and leaves those of every other executor as they
/// are.
pub proof fn clones_share_their_hooks(
    e: HookExecutor,
    other: HookExecutor,
    store: Seq<Seq<HookView>>,
    hooks: Seq<HookView>,
)
    requires
        e.list() < store.len(),
    ensures
        ({
            let after = replaced(store, e.list(), hooks);
            &&& e.hooks(after) == hooks
            &&& other.list() == e.list() ==> other.hooks(store) == e.hooks(store)
                && other.hooks(after) == hooks
            &&& other.list() != e.list() ==> other.hooks(after) == other.hooks(store)
        }),
{
}

fn prepare(hook: &Hook, payload: &HookPayload) -> (r: HookRun)
    ensures
        r@ == run_of(hook@, payload@),
{
    let mut argv: Vec<String> = Vec::new();
    let mut missing: Vec<String> = Vec::new();
    let ghost all = text::texts(hook.argv@);
    let ghost want = all.map_values(|s: Seq<char>| substituted(s, payload@).0);
    let mut i: usize = 0;
    proof {
        assert(text::texts(argv@) =~= want.take(0));
        assert(text::texts(missing@) =~= missing_in(all.take(0), payload@));
    }
    while i < hook.argv.len()
        invariant
            i <= hook.argv@.len(),
            all == text::texts(hook.argv@),
            want == all.map_values(|s: Seq<char>| substituted(s, payload@).0),
            text::texts(argv@) == want.take(i as int),
            text::texts(missing@) == missing_in(all.take(i as int), payload@),
        decreases hook.argv@.len() - i,
    {
        let s = substitute(hook.argv[i].as_str(), payload, &mut missing);
        proof {
            text::lemma_texts_push(argv@, s);
            assert(want.take(i + 1) =~= want.take(i as int).push(want[i as int]));
            assert(all.take(i + 1).drop_last() =~= all.take(i as int));
        }
        argv.push(s);
        i += 1;
    }
    proof {
        assert(want.take(i as int) =~= want);
        assert(all.take(i as int) =~= all);
    }
    HookRun { argv, missing }
}

impl Clone for HookExecutor {
    fn clone(&self) -> (r: HookExecutor)
        ensures
            r.list() == self.list(),
            r.own_log_dir() == self.own_log_dir(),
    {
        HookExecutor {
            list: self.list,
            log_dir: match &self.log_dir {
                Some(d) => Some(d.clone()),
                None => None,
            },
        }
    }
}

impl HookExecutor {
    /// Which list of a store the hooks are.
    pub closed spec fn list(self) -> nat {
        self.list as nat
    }

    /// The hooks in a store.
    pub open spec fn hooks(self, store: Seq<Seq<HookView>>) -> Seq<HookView> {
        if self.list() < store.len() {
            store[self.list() as int]
        } else {
            seq![]
        }
    }

    /// Registers hooks.
    pub fn new(store: &mut HookStore, hooks: Vec<Hook>) -> (r: HookExecutor)
        ensures
            r.list() == old(store)@.len(),
            final(store)@ == old(store)@.push(hook_views(hooks@)),
            r.own_log_dir() is None,
    {
        let list: usize = store.lists.len();
        store.lists.push(hooks);
        assert(store@ =~= old(store)@.push(hook_views(hooks@)));
        HookExecutor { list, log_dir: None }
    }

    /// No hooks.
    pub fn empty(store: &mut HookStore) -> (r: HookExecutor)
        ensures
            r.list() == old(store)@.len(),
            final(store)@ == old(store)@.push(Seq::empty()),
            r.own_log_dir() is None,
    {
        let hooks: Vec<Hook> = Vec::new();
        assert(hook_views(hooks@) =~= seq![]);
        HookExecutor::new(store, hooks)
    }

    /// Registers other hooks in the place of all there were.
    pub fn replace(&self, store: &mut HookStore, hooks: Vec<Hook>)
        ensures
            final(store)@ == replaced(old(store)@, self.list(), hook_views(hooks@)),
    {
        if self.list < store.lists.len() {
            store.lists.set(self.list, hooks);
        }
        assert(store@ =~= replaced(old(store)@, self.list(), hook_views(hooks@)));
    }

    /// The directory that was set for logs.
    pub closed spec fn own_log_dir(self) -> Option<Seq<char>> {
        crate::keymap::text_view(self.log_dir)
    }

    /// With another directory for logs.
    pub fn with_log_dir(self, dir: &str) -> (r: HookExecutor)
        ensures
            r.list() == self.list(),
            r.own_log_dir() == Some(dir@),
    {
        HookExecutor { list: self.list, log_dir: Some(dir.to_owned()) }
    }

    /// The directory for logs: the one that was set, or else the usual one.
    pub fn log_dir(&self, xdg_state_home: Option<&str>, home: Option<&str>) -> (r: String)
        ensures
            r@ == (match self.own_log_dir() {
                Some(d) => d,
                None => log_dir(paths::text_of(xdg_state_home), paths::text_of(home)),
            }),
    {
        match &self.log_dir {
            Some(d) => d.clone(),
            None => hooks_log_dir(xdg_state_home, home),
        }
    }

    /// How many hooks are registered for an event.
    pub fn count_for(&self, store: &HookStore, event: HookEvent) -> (r: usize)
        ensures
            r == registered(self.hooks(store@), event),
    {
        if self.list >= store.lists.len() {
            return 0;
        }
        let hooks = &store.lists[self.list];
        let mut n: usize = 0;
        let mut i: usize = 0;
        let ghost all = hook_views(hooks@);
        assert(store@[self.list as int] == all);
        assert(all.take(0) =~= seq![]);
        while i < hooks.len()
            invariant
                i <= hooks@.len(),
                all == hook_views(hooks@),
                n == registered(all.take(i as int), event),
                n <= i,
            decreases hooks@.len() - i,
        {
            assert(all.take(i + 1).drop_last() =~= all.take(i as int));
            if hooks[i].event == event {
                n += 1;
            }
            i += 1;
        }
        assert(all.take(i as int) =~= all);
        n
    }

    /// How many hooks are registered.
    pub fn total(&self, store: &HookStore) -> (r: usize)
        ensures
            r == self.hooks(store@).len(),
    {
        if self.list >= store.lists.len() {
            return 0;
        }
        assert(store@[self.list as int] == hook_views(store.lists@[self.list as int]@));
        store.lists[self.list].len()
    }

    /// The hooks that run on an event, ready to be started.
    pub fn fire(&self, store: &HookStore, event: HookEvent, payload: &HookPayload) -> (r: Vec<
        HookRun,
    >)
        ensures
            run_views(r@) == runs_for(self.hooks(store@), event, payload@),
    {
        let mut out: Vec<HookRun> = Vec::new();
        assert(run_views(out@) =~= seq![]);
        if self.list >= store.lists.len() {
            return out;
        }
        let hooks = &store.lists[self.list];
        let mut i: usize = 0;
        let ghost all = hook_views(hooks@);
        let ghost p = payload@;
        assert(store@[self.list as int] == all);
        assert(all.take(0) =~= seq![]);
        while i < hooks.len()
            invariant
                i <= hooks@.len(),
                all == hook_views(hooks@),
                p == payload@,
                run_views(out@) == runs_for(all.take(i as int), event, p),
            decreases hooks@.len() - i,
        {
            assert(all.take(i + 1).drop_last() =~= all.take(i as int));
            assert(all[i as int] == hooks@[i as int]@);
            let hook = &hooks[i];
            if hook.event == event {
                let wanted = match &hook.when {
                    Some(w) => w.evaluate(payload),
                    None => true,
                };
                if wanted {
                    let run = prepare(hook, payload);
                    let ghost before = run_views(out@);
                    out.push(run);
                    assert(run_views(out@) =~= before.push(run@));
                }
            }
            i += 1;
        }
        assert(all.take(i as int) =~= all);
        out
    }
}

// ─── Running one hook ──────────────────────────────────────

/// How long a hook may run, in milliseconds.
pub const HOOK_TIMEOUT: u64 = 5_000;

/// Cap on one log file, in bytes.
pub const HOOK_LOG_MAX_BYTES: u64 = 1_048_576;

/// How many log files are kept for each event.
pub const HOOK_LOG_KEEP: usize = 5;

/// What the program answers when it is asked whether a child has ended.
#[derive(Clone, Copy, Debug, PartialEq, Eq, Structural)]
pub enum ChildPoll {
    Ended,
    Running,
    Unknown,
}

/// What to do with a child.
#[derive(Clone, Copy, Debug, PartialEq, Eq, Structural)]
pub enum WaitStep {
    /// It is over.
    Finish,
    /// Its time is up: kill it.
    Kill,
    /// Ask again soon.
    Wait,
}

/// What to do with a child that has been running for some time: it is killed
/// once the time is up.
pub fn wait_step(poll: ChildPoll, elapsed: u64) -> (r: WaitStep)
    ensures
        r == (match poll {
            ChildPoll::Running => if elapsed >= HOOK_TIMEOUT {
                WaitStep::Kill
            } else {
                WaitStep::Wait
            },
            _ => WaitStep::Finish,
        }),
{
    match poll {
        ChildPoll::Running => if elapsed >= HOOK_TIMEOUT {
            WaitStep::Kill
        } else {
            WaitStep::Wait
        },
        ChildPoll::Ended => WaitStep::Finish,
        ChildPoll::Unknown => WaitStep::Finish,
    }
}

/// A list of texts as Rust shows it when debugging.
pub uninterp spec fn shown(argv: Seq<Seq<char>>) -> Seq<char>;

/// Calls std's `Debug` formatting of a vector of strings, through `format!`.
/// The text depends on the strings alone.
#[verifier::external_body]
pub(crate) fn show_argv(argv: &Vec<String>) -> (r: String)
    ensures
        r@ == shown(text::texts(argv@)),
{
    format!("{:?}", argv)
}

/// The entry of a hook that could not be started.
pub fn spawn_failure_log(argv: &Vec<String>, error: &str) -> (r: String)
    ensures
        r@ == "[ezpn] failed to spawn hook "@ + shown(text::texts(argv@)) + ": "@ + error@
            + "\n"@,
{
    let mut s = "[ezpn] failed to spawn hook ".to_owned();
    let a = show_argv(argv);
    s.append(a.as_str());
    s.append(": ");
    s.append(error);
    s.append("\n");
    s
}

/// What a hook wrote, under a heading and ending with a line break; nothing
/// where it wrote nothing.
pub open spec fn section(heading: Seq<char>, body: Seq<char>) -> Seq<char> {
    if body.len() == 0 {
        seq![]
    } else if text::ends_with(body, "\n"@) {
        heading + body
    } else {
        heading + body + "\n"@
    }
}

fn push_section(s: &mut String, heading: &str, body: &str)
    ensures
        final(s)@ == old(s)@ + section(heading@, body@),
{
    if !body.is_empty() {
        s.append(heading);
        s.append(body);
        if !text::has_suffix(body, "\n") {
            s.append("\n");
        }
    }
    assert(s@ =~= old(s)@ + section(heading@, body@));
}

/// The last line of an entry.
pub open spec fn verdict(timed_out: bool, status: Seq<char>) -> Seq<char> {
    if timed_out {
        "[ezpn] timeout: killed after 5s ("@ + status + ")\n"@
    } else {
        "[ezpn] "@ + status + "\n"@
    }
}

/// The entry of a hook that ran.
pub open spec fn log_entry(
    event: Seq<char>,
    argv: Seq<char>,
    stdout: Seq<char>,
    stderr: Seq<char>,
    timed_out: bool,
    status: Seq<char>,
) -> Seq<char> {
    "[ezpn] event="@ + event + " argv="@ + argv + "\n"@ + section("[stdout]\n"@, stdout) + section(
        "[stderr]\n"@,
        stderr,
    ) + verdict(timed_out, status)
}

/// The entry of a hook that ran, given what it wrote and how it ended.
pub fn run_log(
    event_name: &str,
    argv: &Vec<String>,
    stdout: &str,
    stderr: &str,
    timed_out: bool,
    status: &str,
) -> (r: String)
    ensures
        r@ == log_entry(
            event_name@,
            shown(text::texts(argv@)),
            stdout@,
            stderr@,
            timed_out,
            status@,
        ),
{
    let a = show_argv(argv);
    let mut s = "[ezpn] event=".to_owned();
    s.append(event_name);
    s.append(" argv=");
    s.append(a.as_str());
    s.append("\n");
    push_section(&mut s, "[stdout]\n", stdout);
    push_section(&mut s, "[stderr]\n", stderr);
    let ghost before = s@;
    if timed_out {
        s.append("[ezpn] timeout: killed after 5s (");
        s.append(status);
        s.append(")\n");
    } else {
        s.append("[ezpn] ");
        s.append(status);
        s.append("\n");
    }
    assert(s@ =~= before + verdict(timed_out, status@));
    s
}

/// Where the logs of hooks lie: under the state directory, or else under the
/// home directory, or else here.
pub open spec fn log_dir(xdg: Option<Seq<char>>, home: Option<Seq<char>>) -> Seq<char> {
    if xdg is Some && xdg->Some_0.len() > 0 {
        paths::joined(paths::joined(xdg->Some_0, "ezpn"@), "hooks"@)
    } else if home is Some && home->Some_0.len() > 0 {
        paths::joined(
            paths::joined(
                paths::joined(paths::joined(home->Some_0, ".local"@), "state"@),
                "ezpn"@,
            ),
            "hooks"@,
        )
    } else {
        paths::joined(".ezpn"@, "hooks"@)
    }
}

/// Where the logs of hooks lie, given `XDG_STATE_HOME` and `HOME`.
pub fn hooks_log_dir(xdg_state_home: Option<&str>, home: Option<&str>) -> (r: String)
    ensures
        r@ == log_dir(paths::text_of(xdg_state_home), paths::text_of(home)),
{
    match xdg_state_home {
        Some(x) => {
            if !x.is_empty() {
                let d = paths::join_path(x, "ezpn");
                return paths::join_path(d.as_str(), "hooks");
            }
        },
        None => {},
    }
    match home {
        Some(h) => {
            if !h.is_empty() {
                let a = paths::join_path(h, ".local");
                let b = paths::join_path(a.as_str(), "state");
                let c = paths::join_path(b.as_str(), "ezpn");
                return paths::join_path(c.as_str(), "hooks");
            }
        },
        None => {},
    }
    paths::join_path(".ezpn", "hooks")
}

} // verus!
