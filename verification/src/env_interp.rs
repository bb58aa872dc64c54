//! References to variables and secrets in the texts of a project file.

use vstd::prelude::*;
use vstd::string::*;

use crate::hooks;
use crate::pane;
use crate::text;

verus! {

/// Where references are looked up. In each list the last entry of a name
/// counts. It has no `Debug`, so that no secret ends up in a log.
pub struct EnvContext {
    /// The variables of the pane itself.
    pub pane: Vec<(String, String)>,
    /// The variables of `.env.local`.
    pub dotenv: Vec<(String, String)>,
    /// The variables of the process.
    pub process: Vec<(String, String)>,
    /// The secrets, which only `${secret:KEY}` reaches.
    pub secrets: Vec<(String, String)>,
}

/// A context as maps from names to values.
#[verifier::ext_equal]
pub struct ContextView {
    pub pane: Map<Seq<char>, Seq<char>>,
    pub dotenv: Map<Seq<char>, Seq<char>>,
    pub process: Map<Seq<char>, Seq<char>>,
    pub secrets: Map<Seq<char>, Seq<char>>,
}

impl View for EnvContext {
    type V = ContextView;

    open spec fn view(&self) -> ContextView {
        ContextView {
            pane: hooks::field_map(self.pane@),
            dotenv: hooks::field_map(self.dotenv@),
            process: hooks::field_map(self.process@),
            secrets: hooks::field_map(self.secrets@),
        }
    }
}

/// The value of a variable: that of the pane, else that of `.env.local`, else
/// that of the process.
pub open spec fn variable(c: ContextView, name: Seq<char>) -> Option<Seq<char>> {
    match hooks::field(c.pane, name) {
        Some(v) => Some(v),
        None => match hooks::field(c.dotenv, name) {
            Some(v) => Some(v),
            None => hooks::field(c.process, name),
        },
    }
}

/// Why a text could not be expanded. No variant holds a value.
#[derive(Debug, PartialEq, Eq)]
pub enum ExpandError {
    /// A variable that has to be set is not.
    Required { name: String, message: String },
    /// There is no such secret.
    MissingSecret(String),
    /// What stands between the braces is no reference.
    BadReference(String),
    /// An opening brace is not closed.
    Unclosed,
}

#[verifier::ext_equal]
pub enum ExpandErrorView {
    Required { name: Seq<char>, message: Seq<char> },
    MissingSecret(Seq<char>),
    BadReference(Seq<char>),
    Unclosed,
}

impl View for ExpandError {
    type V = ExpandErrorView;

    open spec fn view(&self) -> ExpandErrorView {
        match *self {
            ExpandError::Required { name, message } => ExpandErrorView::Required {
                name: name@,
                message: message@,
            },
            ExpandError::MissingSecret(k) => ExpandErrorView::MissingSecret(k@),
            ExpandError::BadReference(b) => ExpandErrorView::BadReference(b@),
            ExpandError::Unclosed => ExpandErrorView::Unclosed,
        }
    }
}

/// The message of an error.
pub open spec fn error_text(e: ExpandErrorView) -> Seq<char> {
    match e {
        ExpandErrorView::Required { name, message } => "required variable "@ + name + " is not set"@
            + if message.len() == 0 {
            seq![]
        } else {
            ": "@ + message
        },
        ExpandErrorView::MissingSecret(k) => "no secret named "@ + k,
        ExpandErrorView::BadReference(b) => "bad reference ${"@ + b + "}"@,
        ExpandErrorView::Unclosed => "unclosed ${"@,
    }
}

impl ExpandError {
    /// The message shown to a user.
    pub fn to_string(&self) -> (r: String)
        ensures
            r@ == error_text(self@),
    {
        match self {
            ExpandError::Required { name, message } => {
                let mut s = "required variable ".to_owned();
                s.append(name.as_str());
                s.append(" is not set");
                let ghost head = s@;
                if !message.as_str().is_empty() {
                    s.append(": ");
                    s.append(message.as_str());
                }
                proof {
                    assert(head + Seq::<char>::empty() =~= head);
                    assert(head + ": "@ + message@ =~= head + (": "@ + message@));
                }
                s
            },
            ExpandError::MissingSecret(k) => {
                let mut s = "no secret named ".to_owned();
                s.append(k.as_str());
                s
            },
            ExpandError::BadReference(b) => {
                let mut s = "bad reference ${".to_owned();
                s.append(b.as_str());
                s.append("}");
                s
            },
            ExpandError::Unclosed => "unclosed ${".to_owned(),
        }
    }
}

// ─── Names ─────────────────────────────────────────────────

/// Tells whether a name may start with `c`.
pub open spec fn starts_name(c: char) -> bool {
    ('a' <= c <= 'z') || ('A' <= c <= 'Z') || c == '_'
}

/// Tells whether a name may go on with `c`.
pub open spec fn in_name(c: char) -> bool {
    starts_name(c) || ('0' <= c <= '9')
}

/// How many characters in front may stand inside a name.
pub open spec fn name_run(s: Seq<char>) -> nat
    decreases s.len(),
{
    if s.len() == 0 || !in_name(s[0]) {
        0
    } else {
        1 + name_run(s.skip(1))
    }
}

/// The length of the name in front of a text.
pub open spec fn name_len(s: Seq<char>) -> nat {
    if s.len() == 0 || !starts_name(s[0]) {
        0
    } else {
        name_run(s)
    }
}

pub proof fn lemma_name_run(s: Seq<char>)
    ensures
        name_run(s) <= s.len(),
    decreases s.len(),
{
    if s.len() > 0 && in_name(s[0]) {
        lemma_name_run(s.skip(1));
    }
}

fn name_start(c: char) -> (r: bool)
    ensures
        r == starts_name(c),
{
    ('a' <= c && c <= 'z') || ('A' <= c && c <= 'Z') || c == '_'
}

/// Where the name that starts at `at` ends.
fn name_end(s: &str, at: usize) -> (r: usize)
    requires
        at <= s@.len(),
    ensures
        at <= r <= s@.len(),
        r - at == name_len(s@.skip(at as int)),
{
    let n: usize = s.unicode_len();
    if at == n || !name_start(s.get_char(at)) {
        return at;
    }
    assert(s@.skip(at as int)[0] == s@[at as int]);
    let mut i: usize = at;
    while i < n
        invariant
            at <= i <= n,
            at < n,
            n == s@.len(),
            starts_name(s@.skip(at as int)[0]),
            name_run(s@.skip(at as int)) == (i - at) + name_run(s@.skip(i as int)),
        decreases n - i,
    {
        let c = s.get_char(i);
        if !(name_start(c) || ('0' <= c && c <= '9')) {
            return i;
        }
        assert(s@.skip(i as int).skip(1) =~= s@.skip(i + 1));
        i += 1;
    }
    i
}

// ─── References ────────────────────────────────────────────

/// The value of a variable, or nothing.
pub open spec fn value_or_nothing(c: ContextView, name: Seq<char>) -> Seq<char> {
    match variable(c, name) {
        Some(v) => v,
        None => seq![],
    }
}

/// What stands for `${body}` where the body names a variable: its value for
/// `NAME`, with a default for `NAME:-DEFAULT`, or with an error where it is not
/// set for `NAME:?MESSAGE`. A variable that is set to nothing counts as not set
/// in the last two.
pub open spec fn referred_variable(body: Seq<char>, c: ContextView) -> Result<
    Seq<char>,
    ExpandErrorView,
> {
    let n = name_len(body) as int;
    let name = body.take(n);
    let rest = body.skip(n);
    let value = value_or_nothing(c, name);
    if n == 0 {
        Err(ExpandErrorView::BadReference(body))
    } else if rest.len() == 0 {
        Ok(value)
    } else if rest.len() >= 2 && rest[0] == ':' && rest[1] == '-' {
        Ok(
            if value.len() > 0 {
                value
            } else {
                rest.skip(2)
            },
        )
    } else if rest.len() >= 2 && rest[0] == ':' && rest[1] == '?' {
        if value.len() > 0 {
            Ok(value)
        } else {
            Err(ExpandErrorView::Required { name, message: rest.skip(2) })
        }
    } else {
        Err(ExpandErrorView::BadReference(body))
    }
}

/// What stands for `${body}`: a secret for `secret:KEY`, else a variable.
pub open spec fn referred(body: Seq<char>, c: ContextView) -> Result<Seq<char>, ExpandErrorView> {
    if text::starts_with(body, "secret:"@) {
        let key = body.skip("secret:"@.len() as int);
        match hooks::field(c.secrets, key) {
            Some(v) => Ok(v),
            None => Err(ExpandErrorView::MissingSecret(key)),
        }
    } else {
        referred_variable(body, c)
    }
}

/// Tells whether an exec result is a spec result.
pub open spec fn comes_to(
    r: Result<String, ExpandError>,
    want: Result<Seq<char>, ExpandErrorView>,
) -> bool {
    match r {
        Ok(s) => want == Ok::<Seq<char>, ExpandErrorView>(s@),
        Err(e) => want == Err::<Seq<char>, ExpandErrorView>(e@),
    }
}

impl EnvContext {
    fn value(&self, name: &str) -> (r: String)
        ensures
            r@ == value_or_nothing(self@, name@),
    {
        match hooks::find_field(&self.pane, name) {
            Some(v) => {
                return v.to_owned();
            },
            None => {},
        }
        match hooks::find_field(&self.dotenv, name) {
            Some(v) => {
                return v.to_owned();
            },
            None => {},
        }
        match hooks::find_field(&self.process, name) {
            Some(v) => v.to_owned(),
            None => {
                let s = String::new();
                assert(s@ =~= seq![]);
                s
            },
        }
    }

    fn refer(&self, body: &str) -> (r: Result<String, ExpandError>)
        ensures
            comes_to(r, referred(body@, self@)),
    {
        match text::strip_prefix_text(body, "secret:") {
            Some(key) => match hooks::find_field(&self.secrets, key) {
                Some(v) => Ok(v.to_owned()),
                None => Err(ExpandError::MissingSecret(key.to_owned())),
            },
            None => self.refer_variable(body),
        }
    }

    #[verifier::spinoff_prover]
    fn refer_variable(&self, body: &str) -> (r: Result<String, ExpandError>)
        ensures
            comes_to(r, referred_variable(body@, self@)),
    {
        let len: usize = body.unicode_len();
        assert(body@.skip(0) =~= body@);
        let n: usize = name_end(body, 0);
        if n == 0 {
            return Err(ExpandError::BadReference(body.to_owned()));
        }
        let name = body.substring_char(0, n);
        assert(name@ =~= body@.take(n as int));
        let value = self.value(name);
        let ghost rest = body@.skip(n as int);
        if n == len {
            return Ok(value);
        }
        assert(rest[0] == body@[n as int]);
        if len - n >= 2 && body.get_char(n) == ':' {
            let after = body.substring_char(n + 2, len);
            assert(after@ =~= rest.skip(2));
            assert(rest[1] == body@[n + 1]);
            let mark = body.get_char(n + 1);
            if mark == '-' {
                if value.as_str().is_empty() {
                    return Ok(after.to_owned());
                }
                return Ok(value);
            }
            if mark == '?' {
                if value.as_str().is_empty() {
                    return Err(
                        ExpandError::Required { name: name.to_owned(), message: after.to_owned() },
                    );
                }
                return Ok(value);
            }
        }
        Err(ExpandError::BadReference(body.to_owned()))
    }
}

// ─── Texts ─────────────────────────────────────────────────

/// A text in front of what the rest of a text comes to.
pub open spec fn put_before(
    head: Seq<char>,
    rest: Result<Seq<char>, ExpandErrorView>,
) -> Result<Seq<char>, ExpandErrorView> {
    match rest {
        Ok(s) => Ok(head + s),
        Err(e) => Err(e),
    }
}

/// What a text comes to: `${...}` and `$NAME` are replaced, everything else
/// stays. A value that was put in is not looked at again. The first reference
/// that has no value ends it.
pub open spec fn expanded(s: Seq<char>, c: ContextView) -> Result<Seq<char>, ExpandErrorView>
    decreases s.len(),
{
    if s.len() == 0 {
        Ok(seq![])
    } else if s[0] == '$' && s.len() >= 2 && s[1] == '{' {
        let end = text::until(s.skip(2), '}') as int;
        if 2 + end < s.len() {
            match referred(s.subrange(2, 2 + end), c) {
                Ok(v) => put_before(v, expanded(s.skip(3 + end), c)),
                Err(e) => Err(e),
            }
        } else {
            Err(ExpandErrorView::Unclosed)
        }
    } else if s[0] == '$' && name_len(s.skip(1)) > 0 {
        let n = name_len(s.skip(1)) as int;
        proof {
            lemma_name_run(s.skip(1));
        }
        put_before(value_or_nothing(c, s.subrange(1, 1 + n)), expanded(s.skip(1 + n), c))
    } else {
        put_before(seq![s[0]], expanded(s.skip(1), c))
    }
}

proof fn lemma_put_before(a: Seq<char>, b: Seq<char>, r: Result<Seq<char>, ExpandErrorView>)
    ensures
        put_before(a, put_before(b, r)) == put_before(a + b, r),
{
    match r {
        Ok(s) => {
            assert(a + (b + s) =~= a + b + s);
        },
        Err(e) => {},
    }
}

/// Where the brace that is open at `at` closes, or the length of the text.
fn brace_end(s: &str, at: usize) -> (r: usize)
    requires
        at <= s@.len(),
    ensures
        at <= r <= s@.len(),
        r - at == text::until(s@.skip(at as int), '}'),
{
    let n: usize = s.unicode_len();
    let mut j: usize = at;
    while j < n && s.get_char(j) != '}'
        invariant
            at <= j <= n,
            n == s@.len(),
            text::until(s@.skip(at as int), '}') == (j - at) + text::until(s@.skip(j as int), '}'),
        decreases n - j,
    {
        assert(s@.skip(j as int).skip(1) =~= s@.skip(j + 1));
        j += 1;
    }
    j
}

/// Expands the references of a text.
pub fn expand(input: &str, c: &EnvContext) -> (r: Result<String, ExpandError>)
    ensures
        comes_to(r, expanded(input@, c@)),
{
    let n: usize = input.unicode_len();
    let mut out = String::new();
    let mut i: usize = 0;
    proof {
        assert(input@.skip(0) =~= input@);
        assert(out@ =~= seq![]);
        lemma_nothing_before(expanded(input@, c@));
    }
    while i < n
        invariant
            i <= n,
            n == input@.len(),
            put_before(out@, expanded(input@.skip(i as int), c@)) == expanded(input@, c@),
        decreases n - i,
    {
        let ghost s = input@.skip(i as int);
        let ghost had = out@;
        assert(s[0] == input@[i as int]);
        if input.get_char(i) == '$' && n - i >= 2 {
            assert(s[1] == input@[i + 1]);
            if input.get_char(i + 1) == '{' {
                let j: usize = brace_end(input, i + 2);
                let ghost end = (j - i - 2) as int;
                assert(s.skip(2) =~= input@.skip(i + 2));
                if j == n {
                    return Err(ExpandError::Unclosed);
                }
                let body = input.substring_char(i + 2, j);
                assert(body@ =~= s.subrange(2, 2 + end));
                assert(s.skip(3 + end) =~= input@.skip(j + 1));
                match c.refer(body) {
                    Ok(v) => {
                        out.append(v.as_str());
                        proof {
                            lemma_put_before(had, v@, expanded(input@.skip(j + 1), c@));
                        }
                        i = j + 1;
                        continue ;
                    },
                    Err(e) => {
                        return Err(e);
                    },
                }
            }
            let k: usize = name_end(input, i + 1);
            assert(s.skip(1) =~= input@.skip(i + 1));
            if k > i + 1 {
                let name = input.substring_char(i + 1, k);
                let ghost len = (k - i - 1) as int;
                assert(name@ =~= s.subrange(1, 1 + len));
                assert(s.skip(1 + len) =~= input@.skip(k as int));
                let v = c.value(name);
                out.append(v.as_str());
                proof {
                    lemma_put_before(had, v@, expanded(input@.skip(k as int), c@));
                }
                i = k;
                continue ;
            }
        }
        let ch = input.get_char(i);
        out.push(ch);
        proof {
            assert(s.skip(1) =~= input@.skip(i + 1));
            assert(out@ =~= had + seq![ch]);
            lemma_put_before(had, seq![ch], expanded(input@.skip(i + 1), c@));
        }
        i += 1;
    }
    proof {
        assert(input@.skip(i as int) =~= seq![]);
        assert(out@ + Seq::<char>::empty() =~= out@);
    }
    Ok(out)
}

proof fn lemma_nothing_before(r: Result<Seq<char>, ExpandErrorView>)
    ensures
        put_before(seq![], r) == r,
{
    match r {
        Ok(s) => {
            assert(Seq::<char>::empty() + s =~= s);
        },
        Err(e) => {},
    }
}

/// A text without a dollar sign stays as it is, whatever is set.
pub proof fn plain_text_expands_to_itself(s: Seq<char>, c: ContextView)
    requires
        !s.contains('$'),
    ensures
        expanded(s, c) == Ok::<Seq<char>, ExpandErrorView>(s),
    decreases s.len(),
{
    if s.len() == 0 {
        assert(s =~= seq![]);
    } else {
        assert(s[0] != '$') by {
            assert(s.contains(s[0]));
        }
        assert(!s.skip(1).contains('$')) by {
            if s.skip(1).contains('$') {
                let i = s.skip(1).index_of('$');
                assert(s[i + 1] == '$');
            }
        }
        plain_text_expands_to_itself(s.skip(1), c);
        assert(seq![s[0]] + s.skip(1) =~= s);
    }
}

/// A variable of the pane wins over one of `.env.local`, and that over one of
/// the process.
pub proof fn nearer_variables_win(c: ContextView, name: Seq<char>)
    ensures
        c.pane.contains_key(name) ==> variable(c, name) == Some(c.pane[name]),
        !c.pane.contains_key(name) && c.dotenv.contains_key(name) ==> variable(c, name) == Some(
            c.dotenv[name],
        ),
{
}

/// Secrets are reached by no other reference than `${secret:KEY}`.
pub proof fn secrets_stay_apart(s: Seq<char>, c: ContextView, d: ContextView)
    requires
        c.pane == d.pane,
        c.dotenv == d.dotenv,
        c.process == d.process,
        forall|i: int|
            0 <= i < s.len() ==> !text::starts_with(#[trigger] s.skip(i), "secret:"@),
    ensures
        expanded(s, c) == expanded(s, d),
    decreases s.len(),
{
    if s.len() > 0 {
        let end = text::until(s.skip(2), '}') as int;
        text::lemma_until(s.skip(2), '}');
        let n = name_len(s.skip(1)) as int;
        lemma_name_run(s.skip(1));
        if s[0] == '$' && s.len() >= 2 && s[1] == '{' {
            if 2 + end < s.len() {
                let body = s.subrange(2, 2 + end);
                assert(!text::starts_with(body, "secret:"@)) by {
                    if text::starts_with(body, "secret:"@) {
                        reveal_strlit("secret:");
                        let k = "secret:"@.len() as int;
                        assert(s.skip(2).take(k) =~= body.take(k));
                        assert(text::starts_with(s.skip(2), "secret:"@));
                    }
                }
                lemma_skips(s, 3 + end);
                secrets_stay_apart(s.skip(3 + end), c, d);
            }
        } else if s[0] == '$' && n > 0 {
            lemma_skips(s, 1 + n);
            secrets_stay_apart(s.skip(1 + n), c, d);
        } else {
            lemma_skips(s, 1);
            secrets_stay_apart(s.skip(1), c, d);
        }
    }
}

proof fn lemma_skips(s: Seq<char>, k: int)
    requires
        0 <= k <= s.len(),
        forall|i: int|
            0 <= i < s.len() ==> !text::starts_with(#[trigger] s.skip(i), "secret:"@),
    ensures
        forall|i: int|
            0 <= i < s.skip(k).len() ==> !text::starts_with(
                #[trigger] s.skip(k).skip(i),
                "secret:"@,
            ),
{
    assert forall|i: int| 0 <= i < s.skip(k).len() implies !text::starts_with(
        #[trigger] s.skip(k).skip(i),
        "secret:"@,
    ) by {
        assert(s.skip(k).skip(i) =~= s.skip(k + i));
    }
}

// ─── Files of variables ────────────────────────────────────

/// What one line of a file of variables holds: nothing for an empty line or a
/// comment, a name and a value around the first `=`, or an error.
pub open spec fn line_entry(line: Seq<char>) -> Result<Option<(Seq<char>, Seq<char>)>, ()> {
    let t = text::trim(line);
    let e = text::until(t, '=') as int;
    if t.len() == 0 || t[0] == '#' {
        Ok(None)
    } else if e == t.len() {
        Err(())
    } else {
        Ok(Some((text::trim(t.take(e)), text::trim(t.skip(e + 1)))))
    }
}

/// The variables of the first `k` lines, or the position of the first line that
/// is neither a variable nor a comment nor empty.
pub open spec fn lines_entries(lines: Seq<Seq<char>>, k: nat) -> Result<
    Seq<(Seq<char>, Seq<char>)>,
    nat,
>
    decreases k,
{
    if k == 0 {
        Ok(seq![])
    } else {
        match lines_entries(lines, (k - 1) as nat) {
            Err(at) => Err(at),
            Ok(done) => match line_entry(lines[k - 1]) {
                Ok(Some(entry)) => Ok(done.push(entry)),
                Ok(None) => Ok(done),
                Err(_) => Err((k - 1) as nat),
            },
        }
    }
}

/// The message about a line that is no variable, counted from one.
pub open spec fn line_error(at: nat) -> Seq<char> {
    "line "@ + text::decimal(at + 1) + ": expected KEY=VALUE"@
}

proof fn lemma_lines_error(lines: Seq<Seq<char>>, i: nat, k: nat)
    requires
        i <= k <= lines.len(),
        lines_entries(lines, i) is Err,
    ensures
        lines_entries(lines, k) == lines_entries(lines, i),
    decreases k,
{
    if i < k {
        lemma_lines_error(lines, i, (k - 1) as nat);
    }
}

fn read_line(line: &str) -> (r: Result<Option<(String, String)>, ()>)
    ensures
        match r {
            Ok(Some((k, v))) => line_entry(line@) == Ok::<Option<(Seq<char>, Seq<char>)>, ()>(
                Some((k@, v@)),
            ),
            Ok(None) => line_entry(line@) == Ok::<Option<(Seq<char>, Seq<char>)>, ()>(None),
            Err(_) => line_entry(line@) is Err,
        },
{
    let t = text::trim_text(line);
    let n: usize = t.unicode_len();
    if n == 0 || t.get_char(0) == '#' {
        return Ok(None);
    }
    let mut e: usize = 0;
    assert(t@.skip(0) =~= t@);
    while e < n && t.get_char(e) != '='
        invariant
            e <= n,
            n == t@.len(),
            text::until(t@, '=') == e + text::until(t@.skip(e as int), '='),
        decreases n - e,
    {
        assert(t@.skip(e as int).skip(1) =~= t@.skip(e + 1));
        e += 1;
    }
    if e == n {
        return Err(());
    }
    let k = t.substring_char(0, e);
    let v = t.substring_char(e + 1, n);
    assert(k@ =~= t@.take(e as int));
    assert(v@ =~= t@.skip(e + 1));
    Ok(Some((text::trim_text(k).to_owned(), text::trim_text(v).to_owned())))
}

/// Reads a file of variables, one `KEY=VALUE` a line.
pub fn parse_dotenv(contents: &str) -> (r: Result<Vec<(String, String)>, String>)
    ensures
        ({
            let lines = text::split_on(contents@, '\n');
            match (r, lines_entries(lines, lines.len())) {
                (Ok(v), Ok(entries)) => pane::pairs(v@) == entries,
                (Err(e), Err(at)) => e@ == line_error(at),
                _ => false,
            }
        }),
{
    let lines = text::split_text(contents, '\n');
    let ghost all = text::texts(lines@);
    let mut out: Vec<(String, String)> = Vec::new();
    let mut i: usize = 0;
    assert(pane::pairs(out@) =~= seq![]);
    while i < lines.len()
        invariant
            i <= lines@.len(),
            all == text::texts(lines@),
            all == text::split_on(contents@, '\n'),
            lines_entries(all, i as nat) == Ok::<Seq<(Seq<char>, Seq<char>)>, nat>(
                pane::pairs(out@),
            ),
        decreases lines@.len() - i,
    {
        match read_line(lines[i].as_str()) {
            Ok(Some(entry)) => {
                let ghost before = pane::pairs(out@);
                out.push(entry);
                assert(pane::pairs(out@) =~= before.push((entry.0@, entry.1@)));
            },
            Ok(None) => {},
            Err(_) => {
                proof {
                    lemma_lines_error(all, (i + 1) as nat, all.len());
                }
                let mut s = "line ".to_owned();
                let d = text::decimal_text(i as u128 + 1);
                s.append(d.as_str());
                s.append(": expected KEY=VALUE");
                return Err(s);
            },
        }
        i += 1;
    }
    Ok(out)
}

// ─── What references stand for ─────────────────────────────

/// The text is a name that a variable can have.
pub open spec fn is_name(name: Seq<char>) -> bool {
    &&& name.len() > 0
    &&& starts_name(name[0])
    &&& forall|i: int| 0 <= i < name.len() ==> in_name(#[trigger] name[i])
}

proof fn lemma_run_of_name(name: Seq<char>, rest: Seq<char>)
    requires
        forall|i: int| 0 <= i < name.len() ==> in_name(#[trigger] name[i]),
        rest.len() == 0 || !in_name(rest[0]),
    ensures
        name_run(name + rest) == name.len(),
    decreases name.len(),
{
    let s = name + rest;
    if name.len() > 0 {
        assert(s[0] == name[0]);
        assert(s.skip(1) =~= name.skip(1) + rest);
        assert forall|i: int| 0 <= i < name.skip(1).len() implies in_name(
            #[trigger] name.skip(1)[i],
        ) by {
            assert(name.skip(1)[i] == name[i + 1]);
        }
        lemma_run_of_name(name.skip(1), rest);
    } else {
        assert(s =~= rest);
    }
}

proof fn lemma_until_brace(body: Seq<char>, rest: Seq<char>)
    requires
        !body.contains('}'),
    ensures
        text::until(body + seq!['}'] + rest, '}') == body.len(),
{
    let s = body + seq!['}'] + rest;
    text::lemma_until(s, '}');
    assert(s[body.len() as int] == '}');
    let n = text::until(s, '}') as int;
    if n < body.len() {
        assert(s[n] == body[n]);
        assert(body.contains(body[n]));
    }
}

/// A name in braces, `${NAME}`, becomes the value of the variable, or nothing
/// where it is not set.
pub proof fn references_become_values(name: Seq<char>, c: ContextView)
    requires
        is_name(name),
    ensures
        expanded(seq!['$', '{'] + name + seq!['}'], c) == Ok::<Seq<char>, ExpandErrorView>(
            match variable(c, name) {
                Some(v) => v,
                None => seq![],
            },
        ),
{
    lemma_no_brace(name);
    lemma_in_braces(name, c);
    let e = Seq::<char>::empty();
    lemma_run_of_name(name, e);
    assert(name + e =~= name);
    assert(name.take(name.len() as int) =~= name);
    assert(name.skip(name.len() as int) =~= e);
    assert(!text::starts_with(name, "secret:"@)) by {
        reveal_strlit("secret:");
        if text::starts_with(name, "secret:"@) {
            assert(name.take(7)[6] == "secret:"@[6]);
            assert(name[6] == ':');
            assert(in_name(name[6]));
        }
    }
}

/// `${NAME:-DEFAULT}` becomes the value of the variable, or the default where it
/// is not set or empty. `${NAME:?MESSAGE}` becomes the value, or an error with
/// that message.
pub proof fn defaults_stand_in(name: Seq<char>, d: Seq<char>, c: ContextView)
    requires
        is_name(name),
        name != "secret"@,
        !d.contains('}'),
    ensures
        ({
            let v = match variable(c, name) {
                Some(v) => v,
                None => seq![],
            };
            &&& expanded(seq!['$', '{'] + (name + seq![':', '-'] + d) + seq!['}'], c) == Ok::<
                Seq<char>,
                ExpandErrorView,
            >(
                if v.len() > 0 {
                    v
                } else {
                    d
                },
            )
            &&& expanded(seq!['$', '{'] + (name + seq![':', '?'] + d) + seq!['}'], c) == (if v.len()
                > 0 {
                Ok::<Seq<char>, ExpandErrorView>(v)
            } else {
                Err(ExpandErrorView::Required { name, message: d })
            })
        }),
{
    lemma_no_brace(name);
    lemma_default(name, '-', d, c);
    lemma_default(name, '?', d, c);
}

proof fn lemma_no_brace(name: Seq<char>)
    requires
        is_name(name),
    ensures
        !name.contains('}'),
{
    if name.contains('}') {
        let i = name.index_of('}');
        assert(in_name(name[i]));
    }
}

proof fn lemma_in_braces(body: Seq<char>, c: ContextView)
    requires
        !body.contains('}'),
    ensures
        expanded(seq!['$', '{'] + body + seq!['}'], c) == referred(body, c),
{
    let s = seq!['$', '{'] + body + seq!['}'];
    let e = Seq::<char>::empty();
    lemma_until_brace(body, e);
    assert(s.skip(2) =~= body + seq!['}'] + e);
    assert(s.subrange(2, 2 + body.len() as int) =~= body);
    assert(s.skip(3 + body.len() as int) =~= e);
    assert(expanded(e, c) == Ok::<Seq<char>, ExpandErrorView>(seq![]));
    match referred(body, c) {
        Ok(v) => {
            assert(v + seq![] =~= v);
        },
        Err(_) => {},
    }
}

proof fn lemma_default(name: Seq<char>, mark: char, d: Seq<char>, c: ContextView)
    requires
        is_name(name),
        name != "secret"@,
        !d.contains('}'),
        mark == '-' || mark == '?',
    ensures
        ({
            let body = name + seq![':', mark] + d;
            &&& expanded(seq!['$', '{'] + body + seq!['}'], c) == referred_variable(body, c)
            &&& name_len(body) == name.len()
            &&& body.take(name.len() as int) == name
            &&& body.skip(name.len() as int) == seq![':', mark] + d
            &&& (seq![':', mark] + d).skip(2) == d
        }),
{
    let body = name + seq![':', mark] + d;
    let rest = seq![':', mark] + d;
    lemma_no_brace(name);
    assert(!body.contains('}')) by {
        if body.contains('}') {
            let i = body.index_of('}');
            if i < name.len() {
                assert(name[i] == '}');
                assert(name.contains('}'));
            } else if i >= name.len() + 2 {
                assert(d[i - name.len() - 2] == '}');
                assert(d.contains('}'));
            }
        }
    }
    lemma_in_braces(body, c);
    assert(body =~= name + rest);
    assert(rest[0] == ':');
    lemma_run_of_name(name, rest);
    assert(body[0] == name[0]);
    assert(body.take(name.len() as int) =~= name);
    assert(body.skip(name.len() as int) =~= rest);
    assert(rest.skip(2) =~= d);
    assert(!text::starts_with(body, "secret:"@)) by {
        reveal_strlit("secret:");
        reveal_strlit("secret");
        if text::starts_with(body, "secret:"@) {
            assert("secret:"@.len() == 7);
            assert("secret:"@[6] == ':');
            let t = body.take(7);
            assert(t == "secret:"@);
            assert(t[6] == ':' && body[6] == ':');
            if name.len() > 6 {
                assert(name[6] == body[6]);
                assert(in_name(name[6]));
            } else if name.len() < 6 {
                let k = name.len() as int;
                assert(body[k] == ':');
                assert(t[k] == ':');
                assert("secret:"@[k] == ':');
            } else {
                assert(name =~= "secret"@) by {
                    assert forall|i: int| 0 <= i < 6 implies name[i] == "secret"@[i] by {
                        assert(name[i] == t[i]);
                    }
                }
            }
        }
    }
}

/// A line of a file of variables is a name and a value around its first `=`,
/// without the blanks around them. A line that begins with `#` is a comment.
pub proof fn lines_set_variables(line: Seq<char>)
    ensures
        ({
            let t = text::trim(line);
            &&& t.len() > 0 && t[0] == '#' ==> line_entry(line) == Ok::<
                Option<(Seq<char>, Seq<char>)>,
                (),
            >(None)
            &&& t.len() > 0 && t[0] != '#' && t.contains('=') ==> (exists|at: int|
                0 <= at < t.len() && t[at] == '=' && !t.take(at).contains('=') && line_entry(line)
                    == Ok::<Option<(Seq<char>, Seq<char>)>, ()>(
                    Some((text::trim(t.take(at)), text::trim(#[trigger] t.skip(at + 1)))),
                ))
            &&& t.len() > 0 && t[0] != '#' && !t.contains('=') ==> line_entry(line) is Err
        }),
{
    let t = text::trim(line);
    let at = text::until(t, '=') as int;
    text::lemma_until(t, '=');
    if t.contains('=') {
        let i = t.index_of('=');
        assert(at < t.len());
        assert(!t.take(at).contains('=')) by {
            if t.take(at).contains('=') {
                let j = t.take(at).index_of('=');
                assert(t[j] == '=');
            }
        }
        assert(t.skip(at + 1) == t.skip(text::until(t, '=') as int + 1));
    } else if at < t.len() {
        assert(t.contains(t[at]));
    }
}

} // verus!
