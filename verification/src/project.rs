//! Project files (`.ezpn.toml`): the layout of a workspace and what runs in its
//! panes.
//!
//! The files are read by the program around the library. This module expands
//! the references of the project file and decides what its parts come to.

use std::collections::HashMap;

use vstd::prelude::*;
use vstd::string::*;

use crate::env_interp;
use crate::env_interp::EnvContext;
use crate::hooks;
use crate::hooks::{Hook, RawHook};
use crate::layout;
use crate::layout::Layout;
use crate::pane;
use crate::pane::PaneLaunch;
use crate::paths;
use crate::text;

verus! {

broadcast use vstd::std_specs::hash::group_hash_axioms;

// ─── The file ──────────────────────────────────────────────

/// When the program of a pane is started again after it ended.
#[derive(Clone, Copy, Debug, PartialEq, Eq, Structural)]
pub enum RestartPolicy {
    Never,
    OnFailure,
    Always,
}

impl Default for RestartPolicy {
    fn default() -> (r: RestartPolicy)
        ensures
            r == RestartPolicy::Never,
    {
        RestartPolicy::Never
    }
}

/// The layout: a spec such as `7:3/1:1`, or else a grid.
#[derive(Debug)]
pub struct WorkspaceSection {
    pub layout: Option<String>,
    pub rows: Option<usize>,
    pub cols: Option<usize>,
}

/// One pane.
#[derive(Debug)]
pub struct PaneSection {
    pub command: Option<String>,
    pub cwd: Option<String>,
    pub name: Option<String>,
    pub env: Vec<(String, String)>,
    pub restart: RestartPolicy,
    pub shell: Option<String>,
    /// Whether the scrollback of the pane is kept; the global setting where
    /// this is missing.
    pub persist_scrollback: Option<bool>,
}

/// A project file.
#[derive(Debug)]
pub struct ProjectConfig {
    pub workspace: Option<WorkspaceSection>,
    pub pane: Vec<PaneSection>,
    pub hooks: Vec<RawHook>,
}

// ─── Layout ────────────────────────────────────────────────

/// The most panes that a grid of a project file may have.
pub const MAX_PANES: usize = 100;

pub open spec fn or_usize(v: Option<usize>, default: usize) -> usize {
    match v {
        Some(n) => n,
        None => default,
    }
}

/// A grid of panes.
pub open spec fn grid(rows: nat, cols: nat) -> Layout {
    Layout { root: layout::grid_tree(rows, cols, 0), next_id: (rows * cols) as usize }
}

pub open spec fn too_many(rows: nat, cols: nat) -> Seq<char> {
    "maximum 100 panes (got "@ + text::decimal(rows) + "x"@ + text::decimal(cols) + "="@
        + text::decimal(rows * cols) + ")"@
}

/// The layout of a project: the spec, or else the grid of `rows` (one) by `cols`
/// (two). Without a workspace section it is a row of as many panes as there
/// are sections, and at least two.
pub open spec fn layout_of(c: ProjectConfig) -> Result<Layout, Seq<char>> {
    match c.workspace {
        Some(ws) => match ws.layout {
            Some(spec) => layout::spec_layout(spec@),
            None => {
                let rows = or_usize(ws.rows, 1);
                let cols = or_usize(ws.cols, 2);
                if rows == 0 || cols == 0 {
                    Err("rows and cols must be >= 1"@)
                } else if rows * cols > MAX_PANES {
                    Err(too_many(rows as nat, cols as nat))
                } else {
                    Ok(grid(rows as nat, cols as nat))
                }
            },
        },
        None => Ok(grid(1, layout::max(c.pane@.len() as int, 2) as nat)),
    }
}

fn too_many_text(rows: usize, cols: usize) -> (r: String)
    ensures
        r@ == too_many(rows as nat, cols as nat),
{
    assert(rows * cols <= 0xffff_ffff_ffff_ffff * 0xffff_ffff_ffff_ffff) by (nonlinear_arith)
        requires
            rows <= 0xffff_ffff_ffff_ffff,
            cols <= 0xffff_ffff_ffff_ffff,
    ;
    let product: u128 = rows as u128 * cols as u128;
    let mut s = "maximum 100 panes (got ".to_owned();
    let a = text::decimal_text(rows as u128);
    s.append(a.as_str());
    s.append("x");
    let b = text::decimal_text(cols as u128);
    s.append(b.as_str());
    s.append("=");
    let c = text::decimal_text(product);
    s.append(c.as_str());
    s.append(")");
    assert(rows as nat * cols as nat == product) by (nonlinear_arith)
        requires
            product == rows * cols,
    ;
    s
}

/// Works out the layout of a project.
pub fn resolve_layout(config: &ProjectConfig) -> (r: Result<Layout, String>)
    ensures
        match r {
            Ok(l) => layout_of(*config) == Ok::<Layout, Seq<char>>(l) && l.wf(),
            Err(e) => layout_of(*config) == Err::<Layout, Seq<char>>(e@),
        },
{
    match &config.workspace {
        Some(ws) => {
            match &ws.layout {
                Some(spec) => {
                    return Layout::from_spec(spec.as_str());
                },
                None => {},
            }
            let rows: usize = match ws.rows {
                Some(n) => n,
                None => 1,
            };
            let cols: usize = match ws.cols {
                Some(n) => n,
                None => 2,
            };
            if rows == 0 || cols == 0 {
                return Err("rows and cols must be >= 1".to_owned());
            }
            proof {
                assert(rows * cols <= 0xffff_ffff_ffff_ffff * 0xffff_ffff_ffff_ffff)
                    by (nonlinear_arith)
                    requires
                        rows <= 0xffff_ffff_ffff_ffff,
                        cols <= 0xffff_ffff_ffff_ffff,
                ;
                assert(rows as nat * cols as nat == rows * cols) by (nonlinear_arith);
            }
            if rows as u128 * cols as u128 > MAX_PANES as u128 {
                return Err(too_many_text(rows, cols));
            }
            Ok(Layout::from_grid(rows, cols))
        },
        None => {
            let n: usize = if config.pane.len() > 2 {
                config.pane.len()
            } else {
                2
            };
            Ok(Layout::from_grid(1, n))
        },
    }
}

// ─── Panes ─────────────────────────────────────────────────

/// A text of a pane section after its references were expanded, or why they
/// could not be. Messages never hold the value of a secret.
pub type Expanded = Result<String, String>;

/// The texts of a pane section after expansion. `env` is in the order in which
/// it was expanded.
pub struct PaneExpansion {
    pub env: Vec<(String, Expanded)>,
    pub command: Option<Expanded>,
    pub cwd: Option<Expanded>,
    pub name: Option<Expanded>,
    pub shell: Option<Expanded>,
}

/// A text after expansion, or the message of the error.
pub type ExpandedView = Result<Seq<char>, Seq<char>>;

#[verifier::ext_equal]
pub struct ExpansionView {
    pub env: Seq<(Seq<char>, ExpandedView)>,
    pub command: Option<ExpandedView>,
    pub cwd: Option<ExpandedView>,
    pub name: Option<ExpandedView>,
    pub shell: Option<ExpandedView>,
}

impl View for PaneExpansion {
    type V = ExpansionView;

    open spec fn view(&self) -> ExpansionView {
        ExpansionView {
            env: env_view(self.env@),
            command: optional_view(self.command),
            cwd: optional_view(self.cwd),
            name: optional_view(self.name),
            shell: optional_view(self.shell),
        }
    }
}

/// A text after expansion: what it comes to, or the message of the error.
pub open spec fn outcome(r: Result<Seq<char>, env_interp::ExpandErrorView>) -> Result<
    Seq<char>,
    Seq<char>,
> {
    match r {
        Ok(s) => Ok(s),
        Err(e) => Err(env_interp::error_text(e)),
    }
}

pub open spec fn expanded_view(x: Expanded) -> Result<Seq<char>, Seq<char>> {
    match x {
        Ok(s) => Ok(s@),
        Err(e) => Err(e@),
    }
}

pub open spec fn optional_view(x: Option<Expanded>) -> Option<Result<Seq<char>, Seq<char>>> {
    match x {
        Some(r) => Some(expanded_view(r)),
        None => None,
    }
}

pub open spec fn env_view(v: Seq<(String, Expanded)>) -> Seq<
    (Seq<char>, Result<Seq<char>, Seq<char>>),
> {
    v.map_values(|p: (String, Expanded)| (p.0@, expanded_view(p.1)))
}

/// The variables of a pane section after expansion.
pub open spec fn expanded_env(
    v: Seq<(String, String)>,
    c: env_interp::ContextView,
) -> Seq<(Seq<char>, Result<Seq<char>, Seq<char>>)> {
    v.map_values(|p: (String, String)| (p.0@, outcome(env_interp::expanded(p.1@, c))))
}

/// The variables of a pane section that could be expanded.
pub open spec fn own_variables(v: Seq<(String, String)>, c: env_interp::ContextView) -> Map<
    Seq<char>,
    Seq<char>,
>
    decreases v.len(),
{
    if v.len() == 0 {
        Map::empty()
    } else {
        let before = own_variables(v.drop_last(), c);
        match env_interp::expanded(v.last().1@, c) {
            Ok(s) => before.insert(v.last().0@, s),
            Err(_) => before,
        }
    }
}

/// A context without the variables of a pane.
pub open spec fn base_context(c: env_interp::ContextView) -> env_interp::ContextView {
    env_interp::ContextView { pane: Map::empty(), ..c }
}

/// The context for the texts of a pane: its own variables come first. They
/// cannot refer to each other.
pub open spec fn pane_context(
    section: PaneSection,
    c: env_interp::ContextView,
) -> env_interp::ContextView {
    env_interp::ContextView { pane: own_variables(section.env@, base_context(c)), ..c }
}

/// An optional text after expansion.
pub open spec fn expanded_text(v: Option<String>, c: env_interp::ContextView) -> Option<
    Result<Seq<char>, Seq<char>>,
> {
    match v {
        Some(s) => Some(outcome(env_interp::expanded(s@, c))),
        None => None,
    }
}

/// What the texts of a section come to.
pub open spec fn section_expanded(
    section: PaneSection,
    c: env_interp::ContextView,
) -> ExpansionView {
    let own = pane_context(section, c);
    ExpansionView {
        env: expanded_env(section.env@, base_context(c)),
        command: expanded_text(section.command, own),
        cwd: expanded_text(section.cwd, own),
        name: expanded_text(section.name, own),
        shell: expanded_text(section.shell, own),
    }
}

/// What the texts of all sections come to.
pub open spec fn sections_expanded(
    sections: Seq<PaneSection>,
    c: env_interp::ContextView,
) -> Seq<ExpansionView> {
    sections.map_values(|s: PaneSection| section_expanded(s, c))
}

pub open spec fn expansion_views(v: Seq<PaneExpansion>) -> Seq<ExpansionView> {
    v.map_values(|x: PaneExpansion| x@)
}

fn expand_text(v: &str, c: &EnvContext) -> (r: Expanded)
    ensures
        expanded_view(r) == outcome(env_interp::expanded(v@, c@)),
{
    match env_interp::expand(v, c) {
        Ok(s) => Ok(s),
        Err(e) => Err(e.to_string()),
    }
}

fn expand_optional(v: &Option<String>, c: &EnvContext) -> (r: Option<Expanded>)
    ensures
        optional_view(r) == expanded_text(*v, c@),
{
    match v {
        Some(s) => Some(expand_text(s.as_str(), c)),
        None => None,
    }
}

/// Expands the texts of a pane section. The variables of the pane stay in the
/// context.
pub fn expand_pane(section: &PaneSection, c: &mut EnvContext) -> (r: PaneExpansion)
    ensures
        r@ == section_expanded(*section, old(c)@),
        final(c)@ == pane_context(*section, old(c)@),
{
    c.pane = Vec::new();
    let ghost base = base_context(old(c)@);
    assert(c@ =~= base);
    let mut env: Vec<(String, Expanded)> = Vec::new();
    let mut own: Vec<(String, String)> = Vec::new();
    let mut i: usize = 0;
    proof {
        assert(section.env@.take(0) =~= seq![]);
        assert(env_view(env@) =~= expanded_env(section.env@, base).take(0));
        assert(hooks::field_map(own@) =~= Map::empty());
    }
    while i < section.env.len()
        invariant
            i <= section.env@.len(),
            c@ == base,
            env_view(env@) == expanded_env(section.env@, base).take(i as int),
            hooks::field_map(own@) == own_variables(section.env@.take(i as int), base),
        decreases section.env@.len() - i,
    {
        let ghost had = env_view(env@);
        let ghost owned = own@;
        let value = expand_text(section.env[i].1.as_str(), c);
        assert(section.env@.take(i + 1).drop_last() =~= section.env@.take(i as int));
        match &value {
            Ok(s) => {
                own.push((section.env[i].0.clone(), s.clone()));
                assert(own@.drop_last() =~= owned);
            },
            Err(_) => {},
        }
        let entry = (section.env[i].0.clone(), value);
        env.push(entry);
        proof {
            assert(env_view(env@) =~= had.push((entry.0@, expanded_view(entry.1))));
            let all = expanded_env(section.env@, base);
            assert(all.take(i + 1) =~= all.take(i as int).push(all[i as int]));
        }
        i += 1;
    }
    proof {
        assert(section.env@.take(i as int) =~= section.env@);
        let all = expanded_env(section.env@, base);
        assert(all.take(i as int) =~= all);
    }
    c.pane = own;
    assert(c@ =~= pane_context(*section, old(c)@));
    PaneExpansion {
        env,
        command: expand_optional(&section.command, c),
        cwd: expand_optional(&section.cwd, c),
        name: expand_optional(&section.name, c),
        shell: expand_optional(&section.shell, c),
    }
}

/// Expands the texts of every pane section.
pub fn expand_panes(sections: &Vec<PaneSection>, c: &mut EnvContext) -> (r: Vec<PaneExpansion>)
    ensures
        expansion_views(r@) == sections_expanded(sections@, old(c)@),
        base_context(final(c)@) == base_context(old(c)@),
{
    let mut out: Vec<PaneExpansion> = Vec::new();
    let mut i: usize = 0;
    while i < sections.len()
        invariant
            i <= sections@.len(),
            out@.len() == i,
            base_context(c@) == base_context(old(c)@),
            forall|k: int|
                0 <= k < i ==> (#[trigger] out@[k])@ == section_expanded(sections@[k], old(c)@),
        decreases sections@.len() - i,
    {
        let ghost before = c@;
        let x = expand_pane(&sections[i], c);
        proof {
            assert(pane_context(sections@[i as int], before) =~= pane_context(
                sections@[i as int],
                old(c)@,
            ));
            assert(base_context(c@) =~= base_context(before));
        }
        out.push(x);
        i += 1;
    }
    assert(expansion_views(out@) =~= sections_expanded(sections@, old(c)@));
    out
}

/// The message about a text that could not be expanded.
pub open spec fn expand_error(field: Seq<char>, key: Seq<char>, error: Seq<char>) -> Seq<char> {
    if key.len() == 0 {
        "interpolation error in `"@ + field + "`: "@ + error
    } else {
        "interpolation error in `"@ + field + "."@ + key + "`: "@ + error
    }
}

/// Tells which field a text that could not be expanded stands in.
pub fn format_expand_err(field: &str, key: &str, error: &str) -> (r: String)
    ensures
        r@ == expand_error(field@, key@, error@),
{
    let mut s = "interpolation error in `".to_owned();
    s.append(field);
    if !key.is_empty() {
        s.append(".");
        s.append(key);
    }
    s.append("`: ");
    s.append(error);
    s
}

/// What one pane section comes to.
#[verifier::ext_equal]
pub struct PlanView {
    pub env: Seq<(Seq<char>, Seq<char>)>,
    pub command: Option<Seq<char>>,
    pub cwd: Option<Seq<char>>,
    pub name: Option<Seq<char>>,
    pub shell: Option<Seq<char>>,
}

/// The variables of a pane, up to the first that could not be expanded.
pub open spec fn env_of(v: Seq<(Seq<char>, ExpandedView)>) -> Result<
    Seq<(Seq<char>, Seq<char>)>,
    Seq<char>,
>
    decreases v.len(),
{
    if v.len() == 0 {
        Ok(seq![])
    } else {
        match env_of(v.drop_last()) {
            Err(e) => Err(e),
            Ok(done) => match v.last().1 {
                Ok(s) => Ok(done.push((v.last().0, s))),
                Err(e) => Err(expand_error("env"@, v.last().0, e)),
            },
        }
    }
}

/// An optional text after expansion.
pub open spec fn field_of(v: Option<ExpandedView>, field: Seq<char>) -> Result<
    Option<Seq<char>>,
    Seq<char>,
> {
    match v {
        None => Ok(None),
        Some(Ok(s)) => Ok(Some(s)),
        Some(Err(e)) => Err(expand_error(field, seq![], e)),
    }
}

/// What a pane section comes to, or the first error: variables first, then
/// command, directory, name and shell. The directory is under that of the
/// project file.
pub open spec fn plan_of(x: ExpansionView, base_dir: Seq<char>) -> Result<PlanView, Seq<char>> {
    match env_of(x.env) {
        Err(e) => Err(e),
        Ok(env) => match field_of(x.command, "command"@) {
            Err(e) => Err(e),
            Ok(command) => match field_of(x.cwd, "cwd"@) {
                Err(e) => Err(e),
                Ok(cwd) => match field_of(x.name, "name"@) {
                    Err(e) => Err(e),
                    Ok(name) => match field_of(x.shell, "shell"@) {
                        Err(e) => Err(e),
                        Ok(shell) => Ok(
                            PlanView {
                                env,
                                command,
                                cwd: match cwd {
                                    Some(d) => Some(paths::under(base_dir, d)),
                                    None => None,
                                },
                                name,
                                shell,
                            },
                        ),
                    },
                },
            },
        },
    }
}

/// What one pane section comes to.
pub struct PanePlan {
    pub env: Vec<(String, String)>,
    pub command: Option<String>,
    pub cwd: Option<String>,
    pub name: Option<String>,
    pub shell: Option<String>,
}

impl View for PanePlan {
    type V = PlanView;

    open spec fn view(&self) -> PlanView {
        PlanView {
            env: pane::pairs(self.env@),
            command: crate::keymap::text_view(self.command),
            cwd: crate::keymap::text_view(self.cwd),
            name: crate::keymap::text_view(self.name),
            shell: crate::keymap::text_view(self.shell),
        }
    }
}

fn resolve_env(v: &Vec<(String, Expanded)>) -> (r: Result<Vec<(String, String)>, String>)
    ensures
        match r {
            Ok(env) => env_of(env_view(v@)) == Ok::<Seq<(Seq<char>, Seq<char>)>, Seq<char>>(
                pane::pairs(env@),
            ),
            Err(e) => env_of(env_view(v@)) == Err::<Seq<(Seq<char>, Seq<char>)>, Seq<char>>(e@),
        },
{
    let mut out: Vec<(String, String)> = Vec::new();
    let mut i: usize = 0;
    let ghost all = env_view(v@);
    proof {
        assert(all.take(0) =~= seq![]);
        assert(pane::pairs(out@) =~= seq![]);
    }
    while i < v.len()
        invariant
            i <= v@.len(),
            all == env_view(v@),
            env_of(all.take(i as int)) == Ok::<Seq<(Seq<char>, Seq<char>)>, Seq<char>>(
                pane::pairs(out@),
            ),
        decreases v@.len() - i,
    {
        assert(all.take(i + 1).drop_last() =~= all.take(i as int));
        assert(all[i as int] == (v@[i as int].0@, expanded_view(v@[i as int].1)));
        match &v[i].1 {
            Ok(s) => {
                let ghost before = pane::pairs(out@);
                let pair = (v[i].0.clone(), s.clone());
                out.push(pair);
                assert(pane::pairs(out@) =~= before.push((pair.0@, pair.1@)));
            },
            Err(e) => {
                let message = format_expand_err("env", v[i].0.as_str(), e.as_str());
                proof {
                    lemma_env_error(all, i as int);
                }
                return Err(message);
            },
        }
        i += 1;
    }
    assert(all.take(i as int) =~= all);
    Ok(out)
}

proof fn lemma_env_error(v: Seq<(Seq<char>, ExpandedView)>, i: int)
    requires
        0 <= i < v.len(),
        env_of(v.take(i + 1)) is Err,
    ensures
        env_of(v) == env_of(v.take(i + 1)),
    decreases v.len(),
{
    if i + 1 == v.len() {
        assert(v.take(i + 1) =~= v);
    } else {
        assert(v.drop_last().take(i + 1) =~= v.take(i + 1));
        lemma_env_error(v.drop_last(), i);
    }
}

fn resolve_field(v: &Option<Expanded>, field: &str) -> (r: Result<Option<String>, String>)
    ensures
        match r {
            Ok(s) => field_of(optional_view(*v), field@) == Ok::<Option<Seq<char>>, Seq<char>>(
                crate::keymap::text_view(s),
            ),
            Err(e) => field_of(optional_view(*v), field@) == Err::<Option<Seq<char>>, Seq<char>>(e@),
        },
{
    match v {
        None => Ok(None),
        Some(Ok(s)) => Ok(Some(s.clone())),
        Some(Err(e)) => {
            proof {
                reveal_strlit("");
                assert(""@ =~= seq![]);
            }
            Err(format_expand_err(field, "", e.as_str()))
        },
    }
}

/// Works out what a pane section comes to.
pub fn plan_pane(x: &PaneExpansion, base_dir: &str) -> (r: Result<PanePlan, String>)
    ensures
        match r {
            Ok(p) => plan_of(x@, base_dir@) == Ok::<PlanView, Seq<char>>(p@),
            Err(e) => plan_of(x@, base_dir@) == Err::<PlanView, Seq<char>>(e@),
        },
{
    let env = match resolve_env(&x.env) {
        Ok(v) => v,
        Err(e) => {
            return Err(e);
        },
    };
    let command = match resolve_field(&x.command, "command") {
        Ok(v) => v,
        Err(e) => {
            return Err(e);
        },
    };
    let cwd = match resolve_field(&x.cwd, "cwd") {
        Ok(Some(d)) => Some(paths::path_under(base_dir, d.as_str())),
        Ok(None) => None,
        Err(e) => {
            return Err(e);
        },
    };
    let name = match resolve_field(&x.name, "name") {
        Ok(v) => v,
        Err(e) => {
            return Err(e);
        },
    };
    let shell = match resolve_field(&x.shell, "shell") {
        Ok(v) => v,
        Err(e) => {
            return Err(e);
        },
    };
    Ok(PanePlan { env, command, cwd, name, shell })
}

// ─── The whole project ─────────────────────────────────────

/// A project that is ready to be started, by pane. It has no `Debug`, as its
/// texts may hold secrets.
pub struct ResolvedProject {
    pub layout: Layout,
    pub launches: HashMap<usize, PaneLaunch>,
    pub cwds: HashMap<usize, String>,
    pub names: HashMap<usize, String>,
    pub envs: HashMap<usize, Vec<(String, String)>>,
    pub restarts: HashMap<usize, RestartPolicy>,
    pub shells: HashMap<usize, String>,
    /// Only where the project file says so.
    pub persist_scrollback: HashMap<usize, bool>,
    pub hooks: Vec<Hook>,
}

/// What the panes of a project are, by pane. A launch without a command is a
/// shell.
#[verifier::ext_equal]
pub struct PanesView {
    pub launches: Map<usize, Option<Seq<char>>>,
    pub cwds: Map<usize, Seq<char>>,
    pub names: Map<usize, Seq<char>>,
    pub envs: Map<usize, Seq<(Seq<char>, Seq<char>)>>,
    pub restarts: Map<usize, RestartPolicy>,
    pub shells: Map<usize, Seq<char>>,
    pub persist_scrollback: Map<usize, bool>,
}

pub open spec fn launch_view(l: PaneLaunch) -> Option<Seq<char>> {
    match l {
        PaneLaunch::Shell => None,
        PaneLaunch::Command(c) => Some(c@),
    }
}

pub open spec fn text_map(m: Map<usize, String>) -> Map<usize, Seq<char>> {
    m.map_values(|s: String| s@)
}

impl View for ResolvedProject {
    type V = PanesView;

    open spec fn view(&self) -> PanesView {
        PanesView {
            launches: self.launches@.map_values(|l: PaneLaunch| launch_view(l)),
            cwds: text_map(self.cwds@),
            names: text_map(self.names@),
            envs: self.envs@.map_values(|e: Vec<(String, String)>| pane::pairs(e@)),
            restarts: self.restarts@,
            shells: text_map(self.shells@),
            persist_scrollback: self.persist_scrollback@,
        }
    }
}

pub open spec fn no_panes() -> PanesView {
    PanesView {
        launches: Map::empty(),
        cwds: Map::empty(),
        names: Map::empty(),
        envs: Map::empty(),
        restarts: Map::empty(),
        shells: Map::empty(),
        persist_scrollback: Map::empty(),
    }
}

/// A map with an entry more, if there is one.
pub open spec fn with_entry<T>(m: Map<usize, T>, id: usize, v: Option<T>) -> Map<usize, T> {
    match v {
        Some(t) => m.insert(id, t),
        None => m,
    }
}

/// With a pane of which there is no section: a shell.
pub open spec fn with_shell(v: PanesView, id: usize) -> PanesView {
    PanesView { launches: v.launches.insert(id, None), ..v }
}

/// With a pane.
pub open spec fn with_pane(
    v: PanesView,
    id: usize,
    plan: PlanView,
    restart: RestartPolicy,
    persist: Option<bool>,
) -> PanesView {
    PanesView {
        launches: v.launches.insert(id, plan.command),
        cwds: with_entry(v.cwds, id, plan.cwd),
        names: with_entry(v.names, id, plan.name),
        envs: with_entry(
            v.envs,
            id,
            if plan.env.len() > 0 {
                Some(plan.env)
            } else {
                None
            },
        ),
        restarts: with_entry(
            v.restarts,
            id,
            if restart != RestartPolicy::Never {
                Some(restart)
            } else {
                None
            },
        ),
        shells: with_entry(v.shells, id, plan.shell),
        persist_scrollback: with_entry(v.persist_scrollback, id, persist),
    }
}

/// The first `k` panes of a layout: the sections in turn, and shells where they
/// run out. The first section that cannot be expanded is the error.
pub open spec fn panes_of(
    ids: Seq<usize>,
    sections: Seq<PaneSection>,
    xs: Seq<ExpansionView>,
    base_dir: Seq<char>,
    k: nat,
) -> Result<PanesView, Seq<char>>
    decreases k,
{
    if k == 0 {
        Ok(no_panes())
    } else {
        let i = k - 1;
        match panes_of(ids, sections, xs, base_dir, i as nat) {
            Err(e) => Err(e),
            Ok(v) => if i < sections.len() {
                match plan_of(xs[i], base_dir) {
                    Err(e) => Err(e),
                    Ok(p) => Ok(
                        with_pane(
                            v,
                            ids[i],
                            p,
                            sections[i].restart,
                            sections[i].persist_scrollback,
                        ),
                    ),
                }
            } else {
                Ok(with_shell(v, ids[i]))
            },
        }
    }
}

proof fn lemma_panes_error(
    ids: Seq<usize>,
    sections: Seq<PaneSection>,
    xs: Seq<ExpansionView>,
    base_dir: Seq<char>,
    k: nat,
    n: nat,
)
    requires
        k <= n,
        panes_of(ids, sections, xs, base_dir, k) is Err,
    ensures
        panes_of(ids, sections, xs, base_dir, n) == panes_of(ids, sections, xs, base_dir, k),
    decreases n,
{
    if k < n {
        lemma_panes_error(ids, sections, xs, base_dir, k, (n - 1) as nat);
    }
}

/// The hooks of a project, up to the first that is refused.
pub open spec fn hooks_of(raw: Seq<RawHook>, path: Seq<char>) -> Result<
    Seq<hooks::HookView>,
    Seq<char>,
>
    decreases raw.len(),
{
    if raw.len() == 0 {
        Ok(seq![])
    } else {
        match hooks_of(raw.drop_last(), path) {
            Err(e) => Err(e),
            Ok(done) => {
                let h = raw.last();
                match hooks::hook_of(
                    h.event@,
                    text::texts(h.argv@),
                    crate::keymap::text_view(h.when),
                ) {
                    Ok(hook) => Ok(done.push(hook)),
                    Err(e) => Err(
                        "[[hooks]]["@ + text::decimal((raw.len() - 1) as nat) + "] in "@ + path
                            + ": "@ + hooks::hook_error_text(e),
                    ),
                }
            },
        }
    }
}

/// How far the program got before the panes: a message about `.env.local` or
/// about the secrets, or the texts after expansion.
pub enum EnvLoad {
    DotenvFailed(String),
    SecretsFailed(String),
    Ready(Vec<PaneExpansion>),
}

#[verifier::ext_equal]
pub enum EnvView {
    DotenvFailed(Seq<char>),
    SecretsFailed(Seq<char>),
    Ready(Seq<ExpansionView>),
}

impl View for EnvLoad {
    type V = EnvView;

    open spec fn view(&self) -> EnvView {
        match *self {
            EnvLoad::DotenvFailed(e) => EnvView::DotenvFailed(e@),
            EnvLoad::SecretsFailed(e) => EnvView::SecretsFailed(e@),
            EnvLoad::Ready(xs) => EnvView::Ready(expansion_views(xs@)),
        }
    }
}

/// The variables of `.env.local`, given what reading it gave: none where there
/// is no such file.
pub open spec fn dotenv_of(read: Result<Option<String>, String>) -> Result<
    Seq<(Seq<char>, Seq<char>)>,
    Seq<char>,
> {
    match read {
        Err(e) => Err(e@),
        Ok(None) => Ok(seq![]),
        Ok(Some(contents)) => {
            let lines = text::split_on(contents@, '\n');
            match env_interp::lines_entries(lines, lines.len()) {
                Ok(entries) => Ok(entries),
                Err(at) => Err(env_interp::line_error(at)),
            }
        },
    }
}

/// The names and values of a list; the last one of a name counts.
pub open spec fn pairs_map(v: Seq<(Seq<char>, Seq<char>)>) -> Map<Seq<char>, Seq<char>>
    decreases v.len(),
{
    if v.len() == 0 {
        Map::empty()
    } else {
        pairs_map(v.drop_last()).insert(v.last().0, v.last().1)
    }
}

proof fn lemma_pairs_map(v: Seq<(String, String)>)
    ensures
        hooks::field_map(v) == pairs_map(pane::pairs(v)),
    decreases v.len(),
{
    if v.len() > 0 {
        lemma_pairs_map(v.drop_last());
        assert(pane::pairs(v).drop_last() =~= pane::pairs(v.drop_last()));
    }
}

/// What the texts of the pane sections come to, given what reading `.env.local`
/// and the secrets gave and the variables of the process. A failure of
/// `.env.local` is told before one of the secrets.
pub open spec fn env_loaded(
    sections: Seq<PaneSection>,
    dotenv: Result<Option<String>, String>,
    secrets: Result<Vec<(String, String)>, String>,
    process: Seq<(String, String)>,
) -> EnvView {
    match dotenv_of(dotenv) {
        Err(e) => EnvView::DotenvFailed(e),
        Ok(entries) => match secrets {
            Err(e) => EnvView::SecretsFailed(e@),
            Ok(s) => EnvView::Ready(
                sections_expanded(
                    sections,
                    env_interp::ContextView {
                        pane: Map::empty(),
                        dotenv: pairs_map(entries),
                        process: hooks::field_map(process),
                        secrets: hooks::field_map(s@),
                    },
                ),
            ),
        },
    }
}

/// Reads `.env.local` and expands the texts of every pane section. A failure of
/// `.env.local` is told before one of the secrets.
pub fn load_env(
    sections: &Vec<PaneSection>,
    dotenv: &Result<Option<String>, String>,
    secrets: Result<Vec<(String, String)>, String>,
    process: Vec<(String, String)>,
) -> (r: EnvLoad)
    ensures
        r@ == env_loaded(sections@, *dotenv, secrets, process@),
{
    let variables = match dotenv {
        Err(e) => {
            return EnvLoad::DotenvFailed(e.clone());
        },
        Ok(None) => {
            let none: Vec<(String, String)> = Vec::new();
            assert(pane::pairs(none@) =~= seq![]);
            none
        },
        Ok(Some(contents)) => match env_interp::parse_dotenv(contents.as_str()) {
            Ok(v) => v,
            Err(e) => {
                return EnvLoad::DotenvFailed(e);
            },
        },
    };
    let secrets = match secrets {
        Ok(s) => s,
        Err(e) => {
            return EnvLoad::SecretsFailed(e);
        },
    };
    proof {
        lemma_pairs_map(variables@);
    }
    let mut c = EnvContext { pane: Vec::new(), dotenv: variables, process, secrets };
    assert(c@.pane =~= Map::empty());
    EnvLoad::Ready(expand_panes(sections, &mut c))
}

/// What a project file that could be read and parsed comes to. The layout
/// comes first, then the variables, the panes and the hooks.
pub open spec fn project_of(
    path: Seq<char>,
    c: ProjectConfig,
    env: EnvView,
    base_dir: Seq<char>,
) -> Result<(Layout, PanesView, Seq<hooks::HookView>), Seq<char>> {
    match layout_of(c) {
        Err(e) => Err(e),
        Ok(l) => match env {
            EnvView::DotenvFailed(e) => Err("loading .env.local: "@ + e),
            EnvView::SecretsFailed(e) => Err("loading secrets: "@ + e),
            EnvView::Ready(xs) => {
                let ids = layout::ids(l.root);
                match panes_of(ids, c.pane@, xs, base_dir, ids.len()) {
                    Err(e) => Err(e),
                    Ok(panes) => match hooks_of(c.hooks@, path) {
                        Err(e) => Err(e),
                        Ok(hs) => Ok((l, panes, hs)),
                    },
                }
            },
        },
    }
}

/// What loading a project file comes to, given what reading and parsing it gave
/// and what its references are looked up in.
pub open spec fn loaded(
    path: Seq<char>,
    read: Result<Result<ProjectConfig, String>, String>,
    dotenv: Result<Option<String>, String>,
    secrets: Result<Vec<(String, String)>, String>,
    process: Seq<(String, String)>,
    base_dir: Seq<char>,
) -> Result<(Layout, PanesView, Seq<hooks::HookView>), Seq<char>> {
    match read {
        Err(e) => Err("cannot read "@ + path + ": "@ + e@),
        Ok(Err(e)) => Err("parse error in "@ + path + ": "@ + e@),
        Ok(Ok(c)) => project_of(
            path,
            c,
            env_loaded(c.pane@, dotenv, secrets, process),
            base_dir,
        ),
    }
}

fn set_text(m: &mut HashMap<usize, String>, id: usize, v: Option<String>)
    ensures
        text_map(final(m)@) == with_entry(text_map(old(m)@), id, crate::keymap::text_view(v)),
{
    match v {
        Some(s) => {
            let _ = m.insert(id, s);
            assert(text_map(m@) =~= text_map(old(m)@).insert(id, s@));
        },
        None => {},
    }
}

impl ResolvedProject {
    /// A project without panes.
    fn start(layout: Layout) -> (r: ResolvedProject)
        ensures
            r@ == no_panes(),
            r.layout == layout,
            r.hooks@ == Seq::<Hook>::empty(),
    {
        let r = ResolvedProject {
            layout,
            launches: HashMap::new(),
            cwds: HashMap::new(),
            names: HashMap::new(),
            envs: HashMap::new(),
            restarts: HashMap::new(),
            shells: HashMap::new(),
            persist_scrollback: HashMap::new(),
            hooks: Vec::new(),
        };
        assert(r@ =~= no_panes());
        r
    }

    fn add_shell(&mut self, id: usize)
        ensures
            final(self)@ == with_shell(old(self)@, id),
            final(self).layout == old(self).layout,
            final(self).hooks == old(self).hooks,
    {
        let _ = self.launches.insert(id, PaneLaunch::Shell);
        assert(self@ =~= with_shell(old(self)@, id));
    }

    fn add_pane(
        &mut self,
        id: usize,
        plan: PanePlan,
        restart: RestartPolicy,
        persist: Option<bool>,
    )
        ensures
            final(self)@ == with_pane(old(self)@, id, plan@, restart, persist),
            final(self).layout == old(self).layout,
            final(self).hooks == old(self).hooks,
    {
        let ghost p = plan@;
        let launch = match plan.command {
            Some(c) => PaneLaunch::Command(c),
            None => PaneLaunch::Shell,
        };
        let _ = self.launches.insert(id, launch);
        assert(self@.launches =~= old(self)@.launches.insert(id, p.command));
        set_text(&mut self.cwds, id, plan.cwd);
        set_text(&mut self.names, id, plan.name);
        if plan.env.len() > 0 {
            let _ = self.envs.insert(id, plan.env);
            assert(self@.envs =~= old(self)@.envs.insert(id, p.env));
        }
        if restart != RestartPolicy::Never {
            let _ = self.restarts.insert(id, restart);
        }
        set_text(&mut self.shells, id, plan.shell);
        match persist {
            Some(b) => {
                let _ = self.persist_scrollback.insert(id, b);
            },
            None => {},
        }
        assert(self@ =~= with_pane(old(self)@, id, p, restart, persist));
    }
}

fn hook_refused(i: usize, path: &str, e: &hooks::HookParseError) -> (r: String)
    ensures
        r@ == "[[hooks]]["@ + text::decimal(i as nat) + "] in "@ + path@ + ": "@
            + hooks::hook_error_text(e@),
{
    let mut s = "[[hooks]][".to_owned();
    let n = text::decimal_text(i as u128);
    s.append(n.as_str());
    s.append("] in ");
    s.append(path);
    s.append(": ");
    let m = e.to_string();
    s.append(m.as_str());
    s
}

proof fn lemma_hooks_error(raw: Seq<RawHook>, path: Seq<char>, i: int)
    requires
        0 <= i < raw.len(),
        hooks_of(raw.take(i + 1), path) is Err,
    ensures
        hooks_of(raw, path) == hooks_of(raw.take(i + 1), path),
    decreases raw.len(),
{
    if i + 1 == raw.len() {
        assert(raw.take(i + 1) =~= raw);
    } else {
        assert(raw.drop_last().take(i + 1) =~= raw.take(i + 1));
        lemma_hooks_error(raw.drop_last(), path, i);
    }
}

fn copy_raw(raw: &RawHook) -> (r: RawHook)
    ensures
        r.event@ == raw.event@,
        text::texts(r.argv@) == text::texts(raw.argv@),
        crate::keymap::text_view(r.when) == crate::keymap::text_view(raw.when),
{
    let mut argv: Vec<String> = Vec::new();
    let mut i: usize = 0;
    assert(text::texts(argv@) =~= text::texts(raw.argv@).take(0));
    while i < raw.argv.len()
        invariant
            i <= raw.argv@.len(),
            text::texts(argv@) == text::texts(raw.argv@).take(i as int),
        decreases raw.argv@.len() - i,
    {
        let s = raw.argv[i].clone();
        proof {
            text::lemma_texts_push(argv@, s);
            let all = text::texts(raw.argv@);
            assert(all.take(i + 1) =~= all.take(i as int).push(all[i as int]));
        }
        argv.push(s);
        i += 1;
    }
    assert(text::texts(raw.argv@).take(i as int) =~= text::texts(raw.argv@));
    RawHook {
        event: raw.event.clone(),
        argv,
        when: match &raw.when {
            Some(s) => Some(s.clone()),
            None => None,
        },
    }
}

fn resolve_hooks(raw: &Vec<RawHook>, path: &str) -> (r: Result<Vec<Hook>, String>)
    ensures
        match r {
            Ok(hs) => hooks_of(raw@, path@) == Ok::<Seq<hooks::HookView>, Seq<char>>(
                hooks::hook_views(hs@),
            ),
            Err(e) => hooks_of(raw@, path@) == Err::<Seq<hooks::HookView>, Seq<char>>(e@),
        },
{
    let mut out: Vec<Hook> = Vec::new();
    let mut i: usize = 0;
    proof {
        assert(raw@.take(0) =~= seq![]);
        assert(hooks::hook_views(out@) =~= seq![]);
    }
    while i < raw.len()
        invariant
            i <= raw@.len(),
            hooks_of(raw@.take(i as int), path@) == Ok::<Seq<hooks::HookView>, Seq<char>>(
                hooks::hook_views(out@),
            ),
        decreases raw@.len() - i,
    {
        assert(raw@.take(i + 1).drop_last() =~= raw@.take(i as int));
        match Hook::from_raw(copy_raw(&raw[i])) {
            Ok(h) => {
                let ghost before = hooks::hook_views(out@);
                out.push(h);
                assert(hooks::hook_views(out@) =~= before.push(h@));
            },
            Err(e) => {
                let message = hook_refused(i, path, &e);
                proof {
                    lemma_hooks_error(raw@, path@, i as int);
                }
                return Err(message);
            },
        }
        i += 1;
    }
    assert(raw@.take(i as int) =~= raw@);
    Ok(out)
}

fn message(start: &str, e: &str) -> (r: String)
    ensures
        r@ == start@ + e@,
{
    let mut s = start.to_owned();
    s.append(e);
    s
}

fn message_at(start: &str, path: &str, e: &str) -> (r: String)
    ensures
        r@ == start@ + path@ + ": "@ + e@,
{
    let mut s = start.to_owned();
    s.append(path);
    s.append(": ");
    s.append(e);
    s
}

/// What loading comes to, held against a result.
pub open spec fn resolves_to(
    r: Result<ResolvedProject, String>,
    want: Result<(Layout, PanesView, Seq<hooks::HookView>), Seq<char>>,
) -> bool {
    match r {
        Ok(p) => want == Ok::<(Layout, PanesView, Seq<hooks::HookView>), Seq<char>>(
            (p.layout, p@, hooks::hook_views(p.hooks@)),
        ),
        Err(e) => want == Err::<(Layout, PanesView, Seq<hooks::HookView>), Seq<char>>(e@),
    }
}

/// Works out what a parsed project file comes to.
pub fn resolve_project(path: &str, config: &ProjectConfig, env: &EnvLoad, base_dir: &str) -> (r:
    Result<ResolvedProject, String>)
    requires
        env@ matches EnvView::Ready(xs) ==> xs.len() >= config.pane@.len(),
    ensures
        resolves_to(r, project_of(path@, *config, env@, base_dir@)),
        r matches Ok(p) ==> p.layout.wf(),
{
    let l = match resolve_layout(config) {
        Ok(l) => l,
        Err(e) => {
            return Err(e);
        },
    };
    let xs = match env {
        EnvLoad::DotenvFailed(e) => {
            return Err(message("loading .env.local: ", e.as_str()));
        },
        EnvLoad::SecretsFailed(e) => {
            return Err(message("loading secrets: ", e.as_str()));
        },
        EnvLoad::Ready(xs) => xs,
    };
    let ids = l.pane_ids();
    let mut p = ResolvedProject::start(l);
    let mut i: usize = 0;
    while i < ids.len()
        invariant
            i <= ids@.len(),
            ids@ == layout::ids(l.root),
            xs@.len() >= config.pane@.len(),
            layout_of(*config) == Ok::<Layout, Seq<char>>(l),
            env@ == EnvView::Ready(expansion_views(xs@)),
            p.layout == l,
            p.hooks@ == Seq::<Hook>::empty(),
            panes_of(ids@, config.pane@, expansion_views(xs@), base_dir@, i as nat) == Ok::<
                PanesView,
                Seq<char>,
            >(p@),
        decreases ids@.len() - i,
    {
        if i < config.pane.len() {
            assert(expansion_views(xs@)[i as int] == xs@[i as int]@);
            match plan_pane(&xs[i], base_dir) {
                Ok(plan) => {
                    let section = &config.pane[i];
                    p.add_pane(ids[i], plan, section.restart, section.persist_scrollback);
                },
                Err(e) => {
                    proof {
                        lemma_panes_error(
                            ids@,
                            config.pane@,
                            expansion_views(xs@),
                            base_dir@,
                            (i + 1) as nat,
                            ids@.len(),
                        );
                    }
                    return Err(e);
                },
            }
        } else {
            p.add_shell(ids[i]);
        }
        i += 1;
    }
    match resolve_hooks(&config.hooks, path) {
        Ok(hs) => {
            let ghost before = p@;
            p.hooks = hs;
            assert(p@ =~= before);
            Ok(p)
        },
        Err(e) => Err(e),
    }
}

/// Loads a project file, given what reading and parsing it gave, what reading
/// `.env.local` and the secrets gave, and the variables of the process.
pub fn load_project_from(
    path: &str,
    read: &Result<Result<ProjectConfig, String>, String>,
    dotenv: &Result<Option<String>, String>,
    secrets: Result<Vec<(String, String)>, String>,
    process: Vec<(String, String)>,
    base_dir: &str,
) -> (r: Result<ResolvedProject, String>)
    ensures
        resolves_to(r, loaded(path@, *read, *dotenv, secrets, process@, base_dir@)),
        r matches Ok(p) ==> p.layout.wf(),
{
    match read {
        Err(e) => Err(message_at("cannot read ", path, e.as_str())),
        Ok(Err(e)) => Err(message_at("parse error in ", path, e.as_str())),
        Ok(Ok(c)) => {
            let env = load_env(&c.pane, dotenv, secrets, process);
            resolve_project(path, c, &env, base_dir)
        },
    }
}

// ─── Laws ──────────────────────────────────────────────────

/// Every pane of the layout has something to run.
pub proof fn every_pane_has_a_launch(
    ids: Seq<usize>,
    sections: Seq<PaneSection>,
    xs: Seq<ExpansionView>,
    base_dir: Seq<char>,
    k: nat,
    i: int,
)
    requires
        0 <= i < k <= ids.len(),
        panes_of(ids, sections, xs, base_dir, k) is Ok,
    ensures
        panes_of(ids, sections, xs, base_dir, k)->Ok_0.launches.contains_key(ids[i]),
    decreases k,
{
    if i < k - 1 {
        every_pane_has_a_launch(ids, sections, xs, base_dir, (k - 1) as nat, i);
    }
}

/// Only what a section says about the scrollback is recorded: a pane of which
/// nothing is said falls back to the global setting.
pub proof fn only_explicit_overrides_are_recorded(
    ids: Seq<usize>,
    sections: Seq<PaneSection>,
    xs: Seq<ExpansionView>,
    base_dir: Seq<char>,
    k: nat,
    id: usize,
)
    requires
        k <= ids.len(),
        panes_of(ids, sections, xs, base_dir, k) is Ok,
        panes_of(ids, sections, xs, base_dir, k)->Ok_0.persist_scrollback.contains_key(id),
    ensures
        exists|i: int|
            0 <= i < k && i < sections.len() && #[trigger] ids[i] == id
                && sections[i].persist_scrollback is Some,
    decreases k,
{
    if k > 0 {
        let i = k - 1;
        let before = panes_of(ids, sections, xs, base_dir, i as nat)->Ok_0;
        if before.persist_scrollback.contains_key(id) {
            only_explicit_overrides_are_recorded(ids, sections, xs, base_dir, i as nat, id);
            let j = choose|j: int|
                0 <= j < i && j < sections.len() && #[trigger] ids[j] == id
                    && sections[j].persist_scrollback is Some;
            assert(ids[j] == id);
        } else {
            assert(ids[i] == id);
        }
    }
}

/// The sections go to the panes of the layout in turn: a pane runs the command
/// of its section, in its directory, under its name, with its shell, its
/// variables and its restart policy. A pane without a section runs a shell.
pub proof fn sections_go_to_their_panes(
    ids: Seq<usize>,
    sections: Seq<PaneSection>,
    xs: Seq<ExpansionView>,
    base_dir: Seq<char>,
    k: nat,
    i: int,
)
    requires
        0 <= i < k <= ids.len(),
        ids.no_duplicates(),
        panes_of(ids, sections, xs, base_dir, k) is Ok,
    ensures
        ({
            let v = panes_of(ids, sections, xs, base_dir, k)->Ok_0;
            let id = ids[i];
            &&& i >= sections.len() ==> v.launches[id] is None && !v.cwds.contains_key(id)
                && !v.names.contains_key(id) && !v.shells.contains_key(id)
                && !v.envs.contains_key(id) && !v.restarts.contains_key(id)
            &&& i < sections.len() ==> plan_of(xs[i], base_dir) is Ok && ({
                let p = plan_of(xs[i], base_dir)->Ok_0;
                &&& v.launches[id] == p.command
                &&& v.cwds.contains_key(id) == (p.cwd is Some)
                &&& p.cwd is Some ==> v.cwds[id] == p.cwd->0
                &&& v.names.contains_key(id) == (p.name is Some)
                &&& p.name is Some ==> v.names[id] == p.name->0
                &&& v.shells.contains_key(id) == (p.shell is Some)
                &&& p.shell is Some ==> v.shells[id] == p.shell->0
                &&& p.env.len() > 0 ==> v.envs[id] == p.env
                &&& sections[i].restart != RestartPolicy::Never ==> v.restarts[id]
                    == sections[i].restart
                &&& v.restarts.contains_key(id) == (sections[i].restart != RestartPolicy::Never)
            })
        }),
    decreases k,
{
    let l = (k - 1) as nat;
    lemma_no_entry(ids, sections, xs, base_dir, l, l as int);
    if i < l {
        sections_go_to_their_panes(ids, sections, xs, base_dir, l, i);
        assert(ids[i] != ids[l as int]);
    }
}

/// A pane that comes later has no entry yet.
proof fn lemma_no_entry(
    ids: Seq<usize>,
    sections: Seq<PaneSection>,
    xs: Seq<ExpansionView>,
    base_dir: Seq<char>,
    k: nat,
    j: int,
)
    requires
        k <= j < ids.len(),
        ids.no_duplicates(),
        panes_of(ids, sections, xs, base_dir, k) is Ok,
    ensures
        ({
            let v = panes_of(ids, sections, xs, base_dir, k)->Ok_0;
            let id = ids[j];
            &&& !v.cwds.contains_key(id) && !v.names.contains_key(id)
            &&& !v.shells.contains_key(id) && !v.envs.contains_key(id)
            &&& !v.restarts.contains_key(id)
        }),
    decreases k,
{
    if k > 0 {
        lemma_no_entry(ids, sections, xs, base_dir, (k - 1) as nat, j);
        assert(ids[k - 1] != ids[j]);
    }
}

/// A project that gives rows and columns has a grid of that many rows, each of
/// that many panes, side by side.
pub proof fn grids_have_their_rows_and_columns(c: ProjectConfig, ws: WorkspaceSection, area: layout::Rect)
    requires
        c.workspace == Some(ws),
        ws.layout is None,
        ws.rows matches Some(r) && r >= 1,
        ws.cols matches Some(n) && n >= 1,
        ws.rows->0 * ws.cols->0 <= MAX_PANES,
        area.fits(),
        layout_of(c) matches Ok(l) && layout::geometry::all_shown(l.root, area),
    ensures
        layout_of(c) matches Ok(l) && layout::geometry::in_rows(
            layout::rect_map(l.root, area),
            Seq::new(ws.rows->0 as nat, |i: int| ws.cols->0 as nat),
            0,
            area,
        ),
{
    layout::geometry::a_grid_stands_in_rows(ws.rows->0 as nat, ws.cols->0 as nat, area);
}

} // verus!
