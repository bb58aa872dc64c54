//! Session names and the sockets of sessions.

use vstd::prelude::*;
use vstd::string::*;

use crate::paths;
use crate::text;

verus! {

/// The variable that tells the daemon where to report that it is ready.
pub const READY_FD_ENV: &'static str = "EZPN_READY_FD";

/// How many further names are tried where a name is taken.
pub const MAX_SIBLINGS: u32 = 99;

// ─── Sockets ───────────────────────────────────────────────

/// The directory of session sockets.
pub open spec fn sockets_dir(xdg: Option<Seq<char>>) -> Seq<char> {
    match xdg {
        Some(d) => d,
        None => "/tmp"@,
    }
}

pub open spec fn socket_name(name: Seq<char>) -> Seq<char> {
    "ezpn-session-"@ + name + ".sock"@
}

/// The socket of a session, given `XDG_RUNTIME_DIR`.
pub fn socket_path(name: &str, xdg_runtime_dir: Option<&str>) -> (r: String)
    ensures
        r@ == paths::joined(sockets_dir(paths::text_of(xdg_runtime_dir)), socket_name(name@)),
{
    let dir = match xdg_runtime_dir {
        Some(d) => d,
        None => "/tmp",
    };
    let mut file = "ezpn-session-".to_owned();
    file.append(name);
    file.append(".sock");
    paths::join_path(dir, file.as_str())
}

/// The session that a file of the socket directory belongs to.
pub open spec fn session_in(file: Seq<char>) -> Option<Seq<char>> {
    let head = "ezpn-session-"@;
    let tail = ".sock"@;
    if text::starts_with(file, head) && text::ends_with(file.skip(head.len() as int), tail) {
        let rest = file.skip(head.len() as int);
        Some(rest.take(rest.len() - tail.len()))
    } else {
        None
    }
}

/// The session that a file of the socket directory belongs to.
pub fn session_of_file(file: &str) -> (r: Option<&str>)
    ensures
        paths::text_of(r) == session_in(file@),
{
    match text::strip_prefix_text(file, "ezpn-session-") {
        Some(rest) => text::strip_suffix_text(rest, ".sock"),
        None => None,
    }
}

/// A session is found again by the name of its socket.
pub proof fn sockets_name_their_session(name: Seq<char>)
    ensures
        session_in(socket_name(name)) == Some(name),
{
    let head = "ezpn-session-"@;
    let tail = ".sock"@;
    let file = socket_name(name);
    assert(file.take(head.len() as int) =~= head);
    let rest = file.skip(head.len() as int);
    assert(rest =~= name + tail);
    assert(rest.skip(rest.len() - tail.len()) =~= tail);
    assert(rest.take(rest.len() - tail.len()) =~= name);
}

// ─── Names ─────────────────────────────────────────────────

/// A character that a session name keeps: an ASCII letter or digit, a dash, an
/// underscore or a dot.
pub open spec fn is_safe(c: char) -> bool {
    ('a' <= c <= 'z') || ('A' <= c <= 'Z') || ('0' <= c <= '9') || c == '-' || c == '_' || c == '.'
}

pub open spec fn safe(c: char) -> char {
    if is_safe(c) {
        c
    } else {
        '_'
    }
}

/// A text with an underscore in the place of every other character.
pub open spec fn sanitized(s: Seq<char>) -> Seq<char> {
    s.map_values(|c: char| safe(c))
}

/// Makes a text safe as a part of a file name.
pub fn sanitize(s: &str) -> (r: String)
    ensures
        r@ == sanitized(s@),
        forall|i: int| 0 <= i < r@.len() ==> is_safe(#[trigger] r@[i]),
{
    let n: usize = s.unicode_len();
    let mut out = String::new();
    let mut i: usize = 0;
    assert(out@ =~= sanitized(s@).take(0));
    while i < n
        invariant
            i <= n,
            n == s@.len(),
            out@ == sanitized(s@).take(i as int),
        decreases n - i,
    {
        let c = s.get_char(i);
        let keep = ('a' <= c && c <= 'z') || ('A' <= c && c <= 'Z') || ('0' <= c && c <= '9') || c
            == '-' || c == '_' || c == '.';
        if keep {
            out.push(c);
        } else {
            out.push('_');
        }
        proof {
            let all = sanitized(s@);
            assert(all.take(i + 1) =~= all.take(i as int).push(all[i as int]));
        }
        i += 1;
    }
    assert(sanitized(s@).take(i as int) =~= sanitized(s@));
    out
}

/// The name that a directory gives to its session: `default` where there is no
/// directory or its name is empty.
pub open spec fn base_name(dir: Option<Seq<char>>) -> Seq<char> {
    sanitized(
        match dir {
            Some(n) if n.len() > 0 => n,
            _ => "default"@,
        },
    )
}

/// The name of a session in a directory of that name, or `default` where the
/// directory has none.
pub fn auto_base_name(dir_name: Option<&str>) -> (r: String)
    ensures
        r@ == base_name(paths::text_of(dir_name)),
        forall|i: int| 0 <= i < r@.len() ==> is_safe(#[trigger] r@[i]),
{
    match dir_name {
        Some(n) => if n.is_empty() {
            sanitize("default")
        } else {
            sanitize(n)
        },
        None => sanitize("default"),
    }
}

/// Making a safe text safe changes nothing.
pub proof fn sanitizing_twice_is_once(s: Seq<char>)
    ensures
        sanitized(sanitized(s)) == sanitized(s),
{
    assert(sanitized(sanitized(s)) =~= sanitized(s));
}

/// What is known of the socket of a name.
#[derive(Clone, Copy, Debug, PartialEq, Eq, Structural)]
pub enum SlotState {
    /// There is none.
    Free,
    /// A session answers.
    Alive,
    /// Nobody answers: the socket is left over and goes.
    Dead,
}

/// What a name comes to.
#[derive(Clone, Debug, PartialEq, Eq)]
pub enum SessionResolution {
    /// Start a session of this name.
    New(String),
    /// Attach to the session of this name.
    AttachExisting(String),
}

#[verifier::ext_equal]
pub enum ResolutionView {
    New(Seq<char>),
    AttachExisting(Seq<char>),
}

impl View for SessionResolution {
    type V = ResolutionView;

    open spec fn view(&self) -> ResolutionView {
        match *self {
            SessionResolution::New(s) => ResolutionView::New(s@),
            SessionResolution::AttachExisting(s) => ResolutionView::AttachExisting(s@),
        }
    }
}

/// What a name comes to, or nothing where it is taken.
pub open spec fn slot_of(name: Seq<char>, state: SlotState, allow_attach: bool) -> Option<
    ResolutionView,
> {
    match state {
        SlotState::Free => Some(ResolutionView::New(name)),
        SlotState::Dead => Some(ResolutionView::New(name)),
        SlotState::Alive => if allow_attach {
            Some(ResolutionView::AttachExisting(name))
        } else {
            None
        },
    }
}

/// Tries a name.
pub fn try_slot(name: &str, state: SlotState, allow_attach: bool) -> (r: Option<SessionResolution>)
    ensures
        match r {
            Some(s) => slot_of(name@, state, allow_attach) == Some(s@),
            None => slot_of(name@, state, allow_attach) is None,
        },
{
    match state {
        SlotState::Free => Some(SessionResolution::New(name.to_owned())),
        SlotState::Dead => Some(SessionResolution::New(name.to_owned())),
        SlotState::Alive => if allow_attach {
            Some(SessionResolution::AttachExisting(name.to_owned()))
        } else {
            None
        },
    }
}

/// The name that is tried in a turn: the preferred one, then with numbers.
pub open spec fn candidate(preferred: Seq<char>, turn: nat) -> Seq<char> {
    if turn == 0 {
        preferred
    } else {
        preferred + "-"@ + text::decimal(turn)
    }
}

/// The name that is tried in a turn.
pub fn candidate_name(preferred: &str, turn: u32) -> (r: String)
    ensures
        r@ == candidate(preferred@, turn as nat),
{
    let mut s = preferred.to_owned();
    if turn > 0 {
        s.append("-");
        let n = text::decimal_text(turn as u128);
        s.append(n.as_str());
    }
    s
}

/// The name where all others are taken: with the time and the process.
pub open spec fn last_resort(preferred: Seq<char>, millis: u128, pid: u32) -> Seq<char> {
    preferred + "-"@ + text::decimal(millis as nat) + "-"@ + text::decimal(pid as nat)
}

/// What comes next in the search for a name.
#[derive(Clone, Debug, PartialEq, Eq)]
pub enum ResolveStep {
    Done(SessionResolution),
    /// Look at the socket of this name.
    Probe(String),
}

#[verifier::ext_equal]
pub enum StepView {
    Done(ResolutionView),
    Probe(Seq<char>),
}

impl View for ResolveStep {
    type V = StepView;

    open spec fn view(&self) -> StepView {
        match *self {
            ResolveStep::Done(r) => StepView::Done(r@),
            ResolveStep::Probe(s) => StepView::Probe(s@),
        }
    }
}

/// The first of the turns from `k` on that a name comes of.
pub open spec fn resolved_from(
    preferred: Seq<char>,
    allow_attach: bool,
    slots: Seq<SlotState>,
    millis: u128,
    pid: u32,
    k: nat,
) -> StepView
    decreases 100 - k,
{
    if k > MAX_SIBLINGS {
        StepView::Done(ResolutionView::New(last_resort(preferred, millis, pid)))
    } else if k >= slots.len() {
        StepView::Probe(candidate(preferred, k))
    } else {
        match slot_of(candidate(preferred, k), slots[k as int], allow_attach) {
            Some(r) => StepView::Done(r),
            None => resolved_from(preferred, allow_attach, slots, millis, pid, k + 1),
        }
    }
}

/// Looks for a name, given what is known so far of the sockets of the names in
/// their turn. A name is free where it has no socket or only one left over;
/// one of a live session is attached to where that is allowed, and passed over
/// otherwise.
pub fn resolve_session_name(
    preferred: &str,
    allow_attach: bool,
    slots: &Vec<SlotState>,
    millis: u128,
    pid: u32,
) -> (r: ResolveStep)
    ensures
        r@ == resolved_from(preferred@, allow_attach, slots@, millis, pid, 0),
{
    let mut k: u32 = 0;
    while k <= MAX_SIBLINGS
        invariant
            k <= MAX_SIBLINGS + 1,
            resolved_from(preferred@, allow_attach, slots@, millis, pid, 0) == resolved_from(
                preferred@,
                allow_attach,
                slots@,
                millis,
                pid,
                k as nat,
            ),
        decreases MAX_SIBLINGS + 1 - k,
    {
        let name = candidate_name(preferred, k);
        if k as usize >= slots.len() {
            return ResolveStep::Probe(name);
        }
        match try_slot(name.as_str(), slots[k as usize], allow_attach) {
            Some(r) => {
                return ResolveStep::Done(r);
            },
            None => {},
        }
        k += 1;
    }
    let mut s = preferred.to_owned();
    s.append("-");
    let a = text::decimal_text(millis);
    s.append(a.as_str());
    s.append("-");
    let b = text::decimal_text(pid as u128);
    s.append(b.as_str());
    ResolveStep::Done(SessionResolution::New(s))
}

/// Looks for the name of a new session in a directory of that name. No session
/// is attached to.
pub fn auto_name(dir_name: Option<&str>, slots: &Vec<SlotState>, millis: u128, pid: u32) -> (r:
    ResolveStep)
    ensures
        r@ == resolved_from(
            base_name(paths::text_of(dir_name)),
            false,
            slots@,
            millis,
            pid,
            0,
        ),
{
    let base = auto_base_name(dir_name);
    resolve_session_name(base.as_str(), false, slots, millis, pid)
}

/// A name of which the socket is free or left over is taken as it is, whether
/// or not attaching is allowed.
pub proof fn a_free_name_is_taken(
    preferred: Seq<char>,
    allow_attach: bool,
    slots: Seq<SlotState>,
    millis: u128,
    pid: u32,
)
    requires
        slots.len() > 0,
        slots[0] != SlotState::Alive,
    ensures
        resolved_from(preferred, allow_attach, slots, millis, pid, 0) == StepView::Done(
            ResolutionView::New(preferred),
        ),
{
}

/// Where attaching is not allowed, no live session is attached to.
pub proof fn never_attaches_unasked(
    preferred: Seq<char>,
    slots: Seq<SlotState>,
    millis: u128,
    pid: u32,
    k: nat,
)
    ensures
        match resolved_from(preferred, false, slots, millis, pid, k) {
            StepView::Done(r) => r is New,
            StepView::Probe(_) => true,
        },
    decreases 100 - k,
{
    if k <= MAX_SIBLINGS && k < slots.len() {
        never_attaches_unasked(preferred, slots, millis, pid, k + 1);
    }
}

// ─── Lists ─────────────────────────────────────────────────

/// The time of `a` is later than that of `b`. A missing time is the earliest.
pub open spec fn more_recent(a: Option<u64>, b: Option<u64>) -> bool {
    match (a, b) {
        (Some(x), Some(y)) => x > y,
        (Some(_), None) => true,
        _ => false,
    }
}

fn is_more_recent(a: Option<u64>, b: Option<u64>) -> (r: bool)
    ensures
        r == more_recent(a, b),
{
    match a {
        Some(x) => match b {
            Some(y) => x > y,
            None => true,
        },
        None => false,
    }
}

/// The number `x` put after all of an order that are at least as recent.
pub open spec fn placed(order: Seq<usize>, times: Seq<Option<u64>>, x: usize) -> Seq<usize>
    decreases order.len(),
{
    if order.len() == 0 || !more_recent(times[x as int], times[order.last() as int]) {
        order.push(x)
    } else {
        placed(order.drop_last(), times, x).push(order.last())
    }
}

/// The numbers below `k`, the most recent first; of equal ones the first comes
/// first.
pub open spec fn recent_order(times: Seq<Option<u64>>, k: nat) -> Seq<usize>
    decreases k,
{
    if k == 0 {
        seq![]
    } else {
        placed(recent_order(times, (k - 1) as nat), times, (k - 1) as usize)
    }
}

fn place(order: &Vec<usize>, times: &Vec<Option<u64>>, x: usize) -> (r: Vec<usize>)
    requires
        x < times@.len(),
        forall|i: int| 0 <= i < order@.len() ==> (#[trigger] order@[i]) < times@.len(),
    ensures
        r@ == placed(order@, times@, x),
        forall|i: int| 0 <= i < r@.len() ==> (#[trigger] r@[i]) < times@.len(),
{
    let mut at: usize = order.len();
    let ghost whole = order@;
    assert(whole.take(at as int) =~= whole);
    while at > 0 && is_more_recent(times[x], times[order[at - 1]])
        invariant
            at <= order@.len(),
            whole == order@,
            x < times@.len(),
            forall|i: int| 0 <= i < order@.len() ==> (#[trigger] order@[i]) < times@.len(),
            placed(whole, times@, x) == placed(whole.take(at as int), times@, x) + whole.skip(
                at as int,
            ),
        decreases at,
    {
        proof {
            let s = whole.take(at as int);
            assert(s.drop_last() =~= whole.take(at - 1));
            assert(s.last() == whole[at - 1]);
            assert(placed(s, times@, x) + whole.skip(at as int) =~= placed(
                whole.take(at - 1),
                times@,
                x,
            ) + whole.skip(at - 1));
        }
        at -= 1;
    }
    let mut out: Vec<usize> = Vec::new();
    let mut i: usize = 0;
    while i < at
        invariant
            i <= at <= order@.len(),
            out@ == order@.take(i as int),
        decreases at - i,
    {
        out.push(order[i]);
        i += 1;
        assert(out@ =~= order@.take(i as int));
    }
    out.push(x);
    while i < order.len()
        invariant
            at <= i <= order@.len(),
            out@ == order@.take(at as int).push(x) + order@.subrange(at as int, i as int),
        decreases order@.len() - i,
    {
        out.push(order[i]);
        i += 1;
        assert(out@ =~= order@.take(at as int).push(x) + order@.subrange(at as int, i as int));
    }
    assert(out@ =~= placed(order@, times@, x));
    out
}

/// The order in which sessions are listed, given when their sockets were last
/// changed: the most recent first.
pub fn list_order(times: &Vec<Option<u64>>) -> (r: Vec<usize>)
    ensures
        r@ == recent_order(times@, times@.len()),
        forall|i: int| 0 <= i < r@.len() ==> (#[trigger] r@[i]) < times@.len(),
{
    let mut out: Vec<usize> = Vec::new();
    let mut k: usize = 0;
    while k < times.len()
        invariant
            k <= times@.len(),
            out@ == recent_order(times@, k as nat),
            forall|i: int| 0 <= i < out@.len() ==> (#[trigger] out@[i]) < times@.len(),
        decreases times@.len() - k,
    {
        out = place(&out, times, k);
        k += 1;
    }
    out
}

proof fn lemma_placed(order: Seq<usize>, times: Seq<Option<u64>>, x: usize)
    requires
        forall|i: int, j: int|
            0 <= i <= j < order.len() ==> !more_recent(
                times[#[trigger] order[j] as int],
                times[#[trigger] order[i] as int],
            ),
    ensures
        forall|i: int, j: int|
            0 <= i <= j < placed(order, times, x).len() ==> !more_recent(
                times[#[trigger] placed(order, times, x)[j] as int],
                times[#[trigger] placed(order, times, x)[i] as int],
            ),
        placed(order, times, x).to_multiset() == order.to_multiset().insert(x),
        forall|i: int|
            0 <= i < placed(order, times, x).len() ==> #[trigger] placed(order, times, x)[i] == x
                || order.contains(placed(order, times, x)[i]),
    decreases order.len(),
{
    broadcast use vstd::seq_lib::group_to_multiset_ensures;

    let r = placed(order, times, x);
    if order.len() == 0 || !more_recent(times[x as int], times[order.last() as int]) {
        assert forall|i: int, j: int| 0 <= i <= j < r.len() implies !more_recent(
            times[#[trigger] r[j] as int],
            times[#[trigger] r[i] as int],
        ) by {
            if j == order.len() && i < j {
                assert(!more_recent(
                    times[order[order.len() - 1] as int],
                    times[order[i] as int],
                ));
            }
        }
        assert forall|i: int| 0 <= i < r.len() implies #[trigger] r[i] == x || order.contains(
            r[i],
        ) by {
            if i < order.len() {
                assert(order[i] == r[i]);
            }
        }
    } else {
        let rest = order.drop_last();
        lemma_placed(rest, times, x);
        let p = placed(rest, times, x);
        assert forall|i: int| 0 <= i < p.len() implies !more_recent(
            times[order.last() as int],
            times[#[trigger] p[i] as int],
        ) by {
            if p[i] != x {
                assert(rest.contains(p[i]));
                let k = rest.index_of(p[i]);
                assert(order[k] == p[i]);
                assert(order[order.len() - 1] == order.last());
            }
        }
        assert forall|i: int, j: int| 0 <= i <= j < r.len() implies !more_recent(
            times[#[trigger] r[j] as int],
            times[#[trigger] r[i] as int],
        ) by {
            if j < p.len() {
                assert(r[j] == p[j] && r[i] == p[i]);
            } else if i < p.len() {
                assert(r[i] == p[i]);
            }
        }
        assert forall|i: int| 0 <= i < r.len() implies #[trigger] r[i] == x || order.contains(
            r[i],
        ) by {
            if i < p.len() {
                if p[i] != x {
                    assert(rest.contains(p[i]));
                    let k = rest.index_of(p[i]);
                    assert(order[k] == r[i]);
                }
            } else {
                assert(order[order.len() - 1] == r[i]);
            }
        }
        assert(rest.push(order.last()) =~= order);
        assert(p.push(order.last()).to_multiset() =~= order.to_multiset().insert(x));
    }
}

/// The list holds every session once, and none is more recent than one before
/// it.
pub proof fn recent_sessions_come_first(times: Seq<Option<u64>>, k: nat)
    requires
        k <= times.len(),
        k <= usize::MAX,
    ensures
        forall|i: int, j: int|
            0 <= i <= j < recent_order(times, k).len() ==> !more_recent(
                times[#[trigger] recent_order(times, k)[j] as int],
                times[#[trigger] recent_order(times, k)[i] as int],
            ),
        recent_order(times, k).len() == k,
        recent_order(times, k).to_multiset() == Seq::new(
            k,
            |i: int| i as usize,
        ).to_multiset(),
    decreases k,
{
    broadcast use vstd::seq_lib::group_to_multiset_ensures;

    if k == 0 {
        assert(recent_order(times, 0) =~= Seq::new(0, |i: int| i as usize));
    } else {
        let m = (k - 1) as nat;
        recent_sessions_come_first(times, m);
        lemma_placed(recent_order(times, m), times, m as usize);
        let below = Seq::new(m, |i: int| i as usize);
        let all = Seq::new(k, |i: int| i as usize);
        assert(all =~= below.push(m as usize));
        assert(recent_order(times, k).to_multiset() =~= all.to_multiset());
        assert(recent_order(times, k).len() == recent_order(times, k).to_multiset().len());
        assert(all.to_multiset().len() == all.len());
    }
}

} // verus!
