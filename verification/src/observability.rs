//! Names and texts of logs and crash reports, and the log lines that are kept
//! for a report.

use vstd::prelude::*;
use vstd::string::*;

use crate::pane::intercept;
use crate::paths;
use crate::text;

verus! {

/// How many log lines are kept for a crash report.
pub const CRASH_RING_CAPACITY: usize = 200;

/// How many log files are kept.
pub const MAX_LOG_FILES: usize = 5;

// ─── Directories and names ─────────────────────────────────

/// Where the program keeps its state: under the state directory, or else under
/// the home directory, or else here.
pub open spec fn state_home(xdg: Option<Seq<char>>, home: Option<Seq<char>>) -> Seq<char> {
    if xdg is Some && xdg->Some_0.len() > 0 {
        paths::joined(xdg->Some_0, "ezpn"@)
    } else if home is Some && home->Some_0.len() > 0 {
        paths::joined(paths::joined(paths::joined(home->Some_0, ".local"@), "state"@), "ezpn"@)
    } else {
        ".ezpn"@
    }
}

/// Where the program keeps its state, given `XDG_STATE_HOME` and `HOME`.
pub fn state_dir(xdg_state_home: Option<&str>, home: Option<&str>) -> (r: String)
    ensures
        r@ == state_home(paths::text_of(xdg_state_home), paths::text_of(home)),
{
    match xdg_state_home {
        Some(x) => {
            if !x.is_empty() {
                return paths::join_path(x, "ezpn");
            }
        },
        None => {},
    }
    match home {
        Some(h) => {
            if !h.is_empty() {
                let a = paths::join_path(h, ".local");
                let b = paths::join_path(a.as_str(), "state");
                return paths::join_path(b.as_str(), "ezpn");
            }
        },
        None => {},
    }
    ".ezpn".to_owned()
}

/// Where logs go.
pub fn log_dir(xdg_state_home: Option<&str>, home: Option<&str>) -> (r: String)
    ensures
        r@ == paths::joined(
            state_home(paths::text_of(xdg_state_home), paths::text_of(home)),
            "log"@,
        ),
{
    let d = state_dir(xdg_state_home, home);
    paths::join_path(d.as_str(), "log")
}

/// Where crash reports go.
pub fn crash_dir(xdg_state_home: Option<&str>, home: Option<&str>) -> (r: String)
    ensures
        r@ == paths::joined(
            state_home(paths::text_of(xdg_state_home), paths::text_of(home)),
            "crash"@,
        ),
{
    let d = state_dir(xdg_state_home, home);
    paths::join_path(d.as_str(), "crash")
}

/// A character that a file name keeps: an ASCII letter or digit, a dash or an
/// underscore.
pub open spec fn is_plain(c: char) -> bool {
    ('a' <= c <= 'z') || ('A' <= c <= 'Z') || ('0' <= c <= '9') || c == '-' || c == '_'
}

pub open spec fn plain(c: char) -> char {
    if is_plain(c) {
        c
    } else {
        '_'
    }
}

/// A name with an underscore in the place of every other character; `ezpn` where
/// there is none.
pub open spec fn file_name(s: Seq<char>) -> Seq<char> {
    if s.len() == 0 {
        "ezpn"@
    } else {
        s.map_values(|c: char| plain(c))
    }
}

/// Makes a session name safe as a part of a file name.
pub fn sanitize_filename(name: &str) -> (r: String)
    ensures
        r@ == file_name(name@),
{
    let n: usize = name.unicode_len();
    if n == 0 {
        return "ezpn".to_owned();
    }
    let ghost all = name@.map_values(|c: char| plain(c));
    let mut out = String::new();
    let mut i: usize = 0;
    assert(out@ =~= all.take(0));
    while i < n
        invariant
            i <= n,
            n == name@.len(),
            all == name@.map_values(|c: char| plain(c)),
            out@ == all.take(i as int),
        decreases n - i,
    {
        let c = name.get_char(i);
        let keep = ('a' <= c && c <= 'z') || ('A' <= c && c <= 'Z') || ('0' <= c && c <= '9') || c
            == '-' || c == '_';
        if keep {
            out.push(c);
        } else {
            out.push('_');
        }
        assert(all.take(i + 1) =~= all.take(i as int).push(all[i as int]));
        i += 1;
    }
    assert(all.take(i as int) =~= all);
    out
}

// ─── Recent log lines ──────────────────────────────────────

/// The lines of a text, each with its line break. The last has none where the
/// text does not end with one.
pub open spec fn lines_of(s: Seq<char>) -> Seq<Seq<char>>
    decreases s.len(),
{
    let n = text::until(s, '\n') as int;
    if s.len() == 0 {
        seq![]
    } else if n >= s.len() {
        seq![s]
    } else {
        seq![s.take(n + 1)] + lines_of(s.skip(n + 1))
    }
}

/// The last `n` items.
pub open spec fn last_of<T>(s: Seq<T>, n: nat) -> Seq<T> {
    if s.len() <= n {
        s
    } else {
        s.skip(s.len() - n)
    }
}

/// The log lines that are kept for a crash report.
#[derive(Debug)]
pub struct LogRing {
    lines: Vec<String>,
}

impl View for LogRing {
    type V = Seq<Seq<char>>;

    closed spec fn view(&self) -> Seq<Seq<char>> {
        text::texts(self.lines@)
    }
}

proof fn lemma_one_more(s: Seq<Seq<char>>, x: Seq<char>, n: nat)
    requires
        n > 0,
    ensures
        last_of(last_of(s, n).push(x), n) == last_of(s.push(x), n),
{
    assert(last_of(last_of(s, n).push(x), n) =~= last_of(s.push(x), n));
}

impl LogRing {
    pub open spec fn wf(self) -> bool {
        self@.len() <= CRASH_RING_CAPACITY
    }

    /// No lines.
    pub fn new() -> (r: LogRing)
        ensures
            r@ == Seq::<Seq<char>>::empty(),
            r.wf(),
    {
        let lines: Vec<String> = Vec::new();
        assert(text::texts(lines@) =~= seq![]);
        LogRing { lines }
    }

    /// How many lines are kept.
    pub fn len(&self) -> (r: usize)
        ensures
            r == self@.len(),
    {
        self.lines.len()
    }

    /// A line, from the oldest on.
    pub fn line(&self, i: usize) -> (r: Option<&str>)
        ensures
            paths::text_of(r) == (if i < self@.len() {
                Some(self@[i as int])
            } else {
                None
            }),
    {
        if i < self.lines.len() {
            Some(self.lines[i].as_str())
        } else {
            None
        }
    }

    fn push_line(&mut self, line: String)
        requires
            old(self).wf(),
        ensures
            final(self).wf(),
            final(self)@ == last_of(old(self)@.push(line@), CRASH_RING_CAPACITY as nat),
    {
        let ghost before = self.lines@;
        if self.lines.len() == CRASH_RING_CAPACITY {
            let _ = self.lines.remove(0);
            assert(self.lines@ =~= before.skip(1));
        }
        let ghost mid = self.lines@;
        self.lines.push(line);
        proof {
            text::lemma_texts_push(mid, line);
            assert(text::texts(self.lines@) =~= last_of(
                text::texts(before).push(line@),
                CRASH_RING_CAPACITY as nat,
            ));
        }
    }

    /// Keeps the lines of a record, and of all lines the most recent ones.
    pub fn push_text(&mut self, s: &str)
        requires
            old(self).wf(),
        ensures
            final(self).wf(),
            final(self)@ == last_of(old(self)@ + lines_of(s@), CRASH_RING_CAPACITY as nat),
    {
        let n: usize = s.unicode_len();
        let mut start: usize = 0;
        let ghost had = old(self)@;
        let ghost cap = CRASH_RING_CAPACITY as nat;
        let ghost mut done: Seq<Seq<char>> = seq![];
        proof {
            assert(s@.skip(0) =~= s@);
            assert(done + lines_of(s@) =~= lines_of(s@));
            assert(last_of(had + done, cap) =~= had);
        }
        while start < n
            invariant
                start <= n,
                n == s@.len(),
                cap == CRASH_RING_CAPACITY,
                self.wf(),
                self@ == last_of(had + done, cap),
                done + lines_of(s@.skip(start as int)) == lines_of(s@),
            decreases n - start,
        {
            let ghost rest = s@.skip(start as int);
            let mut end: usize = start;
            while end < n && s.get_char(end) != '\n'
                invariant
                    start <= end <= n,
                    n == s@.len(),
                    text::until(s@.skip(start as int), '\n') == (end - start) + text::until(
                        s@.skip(end as int),
                        '\n',
                    ),
                decreases n - end,
            {
                assert(s@.skip(end as int).skip(1) =~= s@.skip(end + 1));
                end += 1;
            }
            let stop: usize = if end < n {
                end + 1
            } else {
                n
            };
            let line = s.substring_char(start, stop).to_owned();
            proof {
                let k = text::until(rest, '\n') as int;
                assert(k == end - start) by {
                    if end == n {
                        assert(s@.skip(n as int) =~= seq![]);
                    }
                }
                if end < n {
                    assert(line@ =~= rest.take(k + 1));
                    assert(rest.skip(k + 1) =~= s@.skip(stop as int));
                } else {
                    assert(line@ =~= rest);
                    assert(s@.skip(stop as int) =~= seq![]);
                }
                let after = done.push(line@);
                assert(after + lines_of(s@.skip(stop as int)) =~= done + lines_of(rest));
                lemma_one_more(had + done, line@, cap);
                assert((had + done).push(line@) =~= had + after);
            }
            self.push_line(line);
            proof {
                done = done.push(line@);
            }
            start = stop;
        }
        proof {
            assert(s@.skip(start as int) =~= seq![]);
            assert(done + lines_of(s@.skip(start as int)) =~= done);
        }
    }

    /// Keeps the lines of a record that was written as bytes. What is no UTF-8
    /// is replaced.
    pub fn push_ring(&mut self, data: &[u8])
        requires
            old(self).wf(),
        ensures
            final(self).wf(),
            final(self)@ == last_of(
                old(self)@ + lines_of(intercept::lossy_text(data@)),
                CRASH_RING_CAPACITY as nat,
            ),
    {
        let s = intercept::utf8_lossy(data);
        self.push_text(s.as_str());
    }
}

/// The kept lines are never more than there is room for, and the newest line is
/// among them.
pub proof fn the_newest_line_is_kept(ring: Seq<Seq<char>>, s: Seq<char>)
    requires
        s.len() > 0,
    ensures
        ({
            let after = last_of(ring + lines_of(s), CRASH_RING_CAPACITY as nat);
            &&& after.len() <= CRASH_RING_CAPACITY
            &&& after.last() == lines_of(s).last()
        }),
        lines_of(s).len() > 0,
{
    lemma_lines(s);
    let all = ring + lines_of(s);
    assert(all.last() == lines_of(s).last());
}

proof fn lemma_lines(s: Seq<char>)
    requires
        s.len() > 0,
    ensures
        lines_of(s).len() > 0,
{
}

/// The lines of a text put together are the text.
pub proof fn lines_make_the_text(s: Seq<char>)
    ensures
        lines_of(s).flatten() == s,
    decreases s.len(),
{
    text::lemma_until(s, '\n');
    let n = text::until(s, '\n') as int;
    if s.len() == 0 {
        assert(lines_of(s).flatten() =~= s);
    } else if n >= s.len() {
        seq![s].lemma_flatten_one_element();
        assert(lines_of(s).flatten() =~= s);
    } else {
        let first = s.take(n + 1);
        let rest = s.skip(n + 1);
        lines_make_the_text(rest);
        let all = seq![first] + lines_of(rest);
        assert(all.first() == first);
        assert(all.drop_first() =~= lines_of(rest));
        assert(all.flatten() =~= first + lines_of(rest).flatten());
        assert(first + rest =~= s);
    }
}

// ─── Crash reports ─────────────────────────────────────────

/// The name of a crash report.
pub fn crash_file(unix: u64, pid: u32) -> (r: String)
    ensures
        r@ == text::decimal(unix as nat) + "-"@ + text::decimal(pid as nat) + ".txt"@,
{
    let mut s = text::decimal_text(unix as u128);
    s.append("-");
    let p = text::decimal_text(pid as u128);
    s.append(p.as_str());
    s.append(".txt");
    s
}

/// A crash report: when and where, the message and the calls, and the recent
/// log lines.
pub open spec fn report(
    unix: u64,
    pid: u32,
    panic: Seq<char>,
    backtrace: Seq<char>,
    recent: Seq<Seq<char>>,
) -> Seq<char> {
    "ezpn crash dump\n"@ + "unix: "@ + text::decimal(unix as nat) + "\npid: "@ + text::decimal(
        pid as nat,
    ) + "\npanic: "@ + panic + "\n\nbacktrace:\n"@ + backtrace
        + "\n\nrecent log lines (up to 200):\n"@ + text::join(recent, seq![])
}

/// The text of a crash report.
pub fn crash_report(unix: u64, pid: u32, panic: &str, backtrace: &str, ring: &LogRing) -> (r:
    String)
    ensures
        r@ == report(unix, pid, panic@, backtrace@, ring@),
{
    let mut s = "ezpn crash dump\n".to_owned();
    s.append("unix: ");
    let u = text::decimal_text(unix as u128);
    s.append(u.as_str());
    s.append("\npid: ");
    let p = text::decimal_text(pid as u128);
    s.append(p.as_str());
    s.append("\npanic: ");
    s.append(panic);
    s.append("\n\nbacktrace:\n");
    s.append(backtrace);
    s.append("\n\nrecent log lines (up to 200):\n");
    proof {
        reveal_strlit("");
        assert(""@ =~= seq![]);
        assert(text::texts(ring.lines@).skip(0) =~= ring@);
    }
    let lines = text::join_text(&ring.lines, 0, "");
    s.append(lines.as_str());
    s
}

} // verus!
