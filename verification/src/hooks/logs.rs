//! The log files of hooks: which one the next entry goes to, and which are
//! removed.

use vstd::prelude::*;
use vstd::string::*;

use crate::hooks::HOOK_LOG_MAX_BYTES;
use crate::text;

verus! {

/// A file of the log directory: its name, when it was last written, and its
/// size in bytes.
#[derive(Debug)]
pub struct LogFile {
    pub name: String,
    pub modified: u64,
    pub size: u64,
}

/// Tells whether a file holds the log of an event.
pub open spec fn is_log_of(name: Seq<char>, event: Seq<char>) -> bool {
    text::starts_with(name, event + "-"@) && text::ends_with(name, ".log"@)
}

fn log_of(name: &str, event: &str) -> (r: bool)
    ensures
        r == is_log_of(name@, event@),
{
    let mut prefix = event.to_owned();
    prefix.append("-");
    text::has_prefix(name, prefix.as_str()) && text::has_suffix(name, ".log")
}

/// The log of an event that was written last, among the first `k` files; of
/// several the first.
pub open spec fn newest(files: Seq<LogFile>, event: Seq<char>, k: nat) -> Option<int>
    decreases k,
{
    if k == 0 {
        None
    } else {
        let best = newest(files, event, (k - 1) as nat);
        let f = files[k - 1];
        if is_log_of(f.name@, event) && (match best {
            None => true,
            Some(b) => f.modified > files[b].modified,
        }) {
            Some(k - 1)
        } else {
            best
        }
    }
}

fn newest_log(files: &Vec<LogFile>, event: &str) -> (r: Option<usize>)
    ensures
        match r {
            Some(i) => i < files@.len() && newest(files@, event@, files@.len()) == Some(i as int),
            None => newest(files@, event@, files@.len()) is None,
        },
{
    let mut best: Option<usize> = None;
    let mut k: usize = 0;
    while k < files.len()
        invariant
            k <= files@.len(),
            match best {
                Some(i) => i < k && newest(files@, event@, k as nat) == Some(i as int),
                None => newest(files@, event@, k as nat) is None,
            },
        decreases files@.len() - k,
    {
        if log_of(files[k].name.as_str(), event) {
            let better = match best {
                None => true,
                Some(b) => files[k].modified > files[b].modified,
            };
            if better {
                best = Some(k);
            }
        }
        k += 1;
    }
    best
}

/// The name of a log file that is begun at a time (seconds).
pub open spec fn fresh_log(event: Seq<char>, now: u64) -> Seq<char> {
    event + "-"@ + text::decimal(now as nat) + ".log"@
}

/// The file that an entry of `len` bytes goes to: the newest log of the event
/// where the entry fits under the cap, else a new one.
pub open spec fn target(files: Seq<LogFile>, event: Seq<char>, len: nat, now: u64) -> Seq<char> {
    match newest(files, event, files.len()) {
        Some(i) => if files[i].size + len <= HOOK_LOG_MAX_BYTES {
            files[i].name@
        } else {
            fresh_log(event, now)
        },
        None => fresh_log(event, now),
    }
}

/// The file that the next entry goes to.
pub fn log_target(files: &Vec<LogFile>, event: &str, len: u64, now: u64) -> (r: String)
    ensures
        r@ == target(files@, event@, len as nat, now),
{
    match newest_log(files, event) {
        Some(i) => {
            let size: u64 = files[i].size;
            if size <= HOOK_LOG_MAX_BYTES && len <= HOOK_LOG_MAX_BYTES - size {
                return files[i].name.clone();
            }
        },
        None => {},
    }
    let mut s = event.to_owned();
    s.append("-");
    let n = text::decimal_text(now as u128);
    s.append(n.as_str());
    s.append(".log");
    s
}

// ─── Old files ─────────────────────────────────────────────

/// The log `j` was written after the log `i`; of two written at one time the
/// later in the list.
pub open spec fn later(files: Seq<LogFile>, j: int, i: int) -> bool {
    files[j].modified > files[i].modified || (files[j].modified == files[i].modified && j > i)
}

/// The logs of an event among the first `k` files.
pub open spec fn logs(files: Seq<LogFile>, event: Seq<char>, k: int) -> Set<int> {
    Set::new(|j: int| 0 <= j < k && j < files.len() && is_log_of(files[j].name@, event))
}

/// The logs of an event among the first `k` files that were written after `i`.
pub open spec fn later_logs(files: Seq<LogFile>, event: Seq<char>, i: int, k: int) -> Set<int> {
    logs(files, event, k).filter(|j: int| later(files, j, i))
}

/// Tells whether a file is to go: it is a log of the event, and at least `keep`
/// others were written after it.
pub open spec fn is_stale(files: Seq<LogFile>, event: Seq<char>, keep: nat, i: int) -> bool {
    is_log_of(files[i].name@, event) && later_logs(files, event, i, files.len() as int).len()
        >= keep
}

/// The files among the first `k` that are to go.
pub open spec fn stale(files: Seq<LogFile>, event: Seq<char>, keep: nat, k: nat) -> Seq<int>
    decreases k,
{
    if k == 0 {
        seq![]
    } else {
        let before = stale(files, event, keep, (k - 1) as nat);
        if is_stale(files, event, keep, k - 1) {
            before.push(k - 1)
        } else {
            before
        }
    }
}

proof fn lemma_logs_finite(files: Seq<LogFile>, event: Seq<char>, k: int)
    requires
        0 <= k,
    ensures
        logs(files, event, k).finite(),
        logs(files, event, k).len() <= k,
{
    vstd::set_lib::lemma_int_range(0, k);
    vstd::set_lib::lemma_len_subset(
        logs(files, event, k),
        vstd::set_lib::set_int_range(0, k),
    );
}

proof fn lemma_later_finite(files: Seq<LogFile>, event: Seq<char>, i: int, k: int)
    requires
        0 <= k,
    ensures
        later_logs(files, event, i, k).finite(),
        later_logs(files, event, i, k).len() <= k,
{
    lemma_logs_finite(files, event, k);
    vstd::set_lib::lemma_len_subset(later_logs(files, event, i, k), logs(files, event, k));
}

fn count_later(files: &Vec<LogFile>, event: &str, i: usize) -> (r: usize)
    requires
        i < files@.len(),
    ensures
        r == later_logs(files@, event@, i as int, files@.len() as int).len(),
{
    let mut n: usize = 0;
    let mut k: usize = 0;
    assert(later_logs(files@, event@, i as int, 0) =~= Set::<int>::empty());
    while k < files.len()
        invariant
            k <= files@.len(),
            i < files@.len(),
            n <= k,
            n == later_logs(files@, event@, i as int, k as int).len(),
        decreases files@.len() - k,
    {
        let ghost before = later_logs(files@, event@, i as int, k as int);
        proof {
            lemma_later_finite(files@, event@, i as int, k as int);
        }
        let counts = log_of(files[k].name.as_str(), event) && (files[k].modified
            > files[i].modified || (files[k].modified == files[i].modified && k > i));
        if counts {
            n += 1;
            assert(later_logs(files@, event@, i as int, k + 1) =~= before.insert(k as int));
        } else {
            assert(later_logs(files@, event@, i as int, k + 1) =~= before);
        }
        k += 1;
    }
    n
}

pub open spec fn positions(v: Seq<usize>) -> Seq<int> {
    v.map_values(|i: usize| i as int)
}

/// The files that are to go so that `keep` logs of an event stay.
pub fn stale_logs(files: &Vec<LogFile>, event: &str, keep: usize) -> (r: Vec<usize>)
    ensures
        positions(r@) == stale(files@, event@, keep as nat, files@.len()),
{
    let mut out: Vec<usize> = Vec::new();
    let mut k: usize = 0;
    assert(positions(out@) =~= seq![]);
    while k < files.len()
        invariant
            k <= files@.len(),
            positions(out@) == stale(files@, event@, keep as nat, k as nat),
        decreases files@.len() - k,
    {
        if log_of(files[k].name.as_str(), event) && count_later(files, event, k) >= keep {
            let ghost before = positions(out@);
            out.push(k);
            assert(positions(out@) =~= before.push(k as int));
        }
        k += 1;
    }
    out
}

proof fn lemma_rank_drops(files: Seq<LogFile>, event: Seq<char>, i: int, j: int)
    requires
        0 <= i < files.len(),
        0 <= j < files.len(),
        is_log_of(files[j].name@, event),
        later(files, j, i),
    ensures
        later_logs(files, event, j, files.len() as int).len() < later_logs(
            files,
            event,
            i,
            files.len() as int,
        ).len(),
{
    let n = files.len() as int;
    let above_j = later_logs(files, event, j, n);
    let above_i = later_logs(files, event, i, n);
    lemma_later_finite(files, event, i, n);
    lemma_later_finite(files, event, j, n);
    assert(above_j.insert(j).subset_of(above_i));
    assert(!above_j.contains(j));
    vstd::set_lib::lemma_len_subset(above_j.insert(j), above_i);
}

/// What stays is at most `keep` logs of the event.
pub proof fn few_logs_stay(files: Seq<LogFile>, event: Seq<char>, keep: nat)
    ensures
        logs(files, event, files.len() as int).filter(
            |i: int| !is_stale(files, event, keep, i),
        ).len() <= keep,
{
    let n = files.len() as int;
    let kept = logs(files, event, n).filter(|i: int| !is_stale(files, event, keep, i));
    lemma_logs_finite(files, event, n);
    vstd::set_lib::lemma_len_subset(kept, logs(files, event, n));
    let rank = |i: int| later_logs(files, event, i, n).len() as int;
    assert(vstd::relations::injective_on(rank, kept)) by {
        assert forall|a: int, b: int|
            kept.contains(a) && kept.contains(b) && #[trigger] rank(a) == #[trigger] rank(
                b,
            ) implies a == b by {
            if a != b {
                if later(files, a, b) {
                    lemma_rank_drops(files, event, b, a);
                } else {
                    assert(later(files, b, a));
                    lemma_rank_drops(files, event, a, b);
                }
            }
        }
    }
    let image = kept.map(rank);
    vstd::set_lib::lemma_map_size(kept, image, rank);
    vstd::set_lib::lemma_int_range(0, keep as int);
    assert(image.subset_of(vstd::set_lib::set_int_range(0, keep as int)));
    vstd::set_lib::lemma_len_subset(image, vstd::set_lib::set_int_range(0, keep as int));
}

/// A log that goes was written before every log that stays.
pub proof fn the_oldest_go(files: Seq<LogFile>, event: Seq<char>, keep: nat, i: int, j: int)
    requires
        0 <= i < files.len(),
        0 <= j < files.len(),
        is_stale(files, event, keep, i),
        is_log_of(files[j].name@, event),
        !is_stale(files, event, keep, j),
    ensures
        later(files, j, i),
{
    if !later(files, j, i) {
        if i == j {
        } else {
            assert(later(files, i, j));
            lemma_rank_drops(files, event, j, i);
        }
    }
}

/// Where no more than `keep` logs of the event are there, all stay.
pub proof fn few_logs_all_stay(files: Seq<LogFile>, event: Seq<char>, keep: nat, i: int)
    requires
        logs(files, event, files.len() as int).len() <= keep,
        0 <= i < files.len(),
    ensures
        !is_stale(files, event, keep, i),
{
    let n = files.len() as int;
    if is_log_of(files[i].name@, event) {
        let above = later_logs(files, event, i, n);
        lemma_later_finite(files, event, i, n);
        lemma_logs_finite(files, event, n);
        assert(above.insert(i).subset_of(logs(files, event, n)));
        assert(!above.contains(i));
        vstd::set_lib::lemma_len_subset(above.insert(i), logs(files, event, n));
    }
}

} // verus!
