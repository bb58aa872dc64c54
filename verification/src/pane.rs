//! Panes: what the multiplexer keeps and decides for each of them.
//!
//! The pseudo terminal, the child process and the terminal emulator belong to
//! the program around the library. They hand in what they read and take back
//! what is to be written.

use vstd::prelude::*;
use vstd::string::*;

use crate::bytes;
use crate::keys::KeyEvent;
use crate::terminal_state::{
    ClipboardPolicy, KittyKbdFlags, MouseEncoding, MouseMode, MouseProtocol, Osc52Decision,
    Osc52GetPolicy, Osc52SetPolicy, ThemePalette,
};
use crate::text;

pub mod encode;
pub mod intercept;

verus! {

/// What runs in a pane.
#[derive(Clone, Debug, PartialEq, Eq)]
pub enum PaneLaunch {
    Shell,
    Command(String),
}

/// Which line goes first when the scrollback is over its budget.
#[derive(Clone, Copy, Debug, PartialEq, Eq, Structural)]
pub enum ScrollbackEviction {
    OldestLine,
    LargestLine,
}

/// A report of the working directory counts as fresh for this long
/// (milliseconds). Later the operating system is asked.
pub const REPORTED_CWD_FRESH_FOR: u64 = 30_000;

/// Budget of bytes in the scrollback of a pane, unless configured.
pub const DEFAULT_SCROLLBACK_BYTES: usize = 33_554_432;

/// Most chunks of output taken from a pane at a time.
pub const MAX_DRAIN: usize = 8;

// ─── Launching ─────────────────────────────────────────────

/// The arguments that the shell of a pane is started with.
pub open spec fn shell_args(launch: PaneLaunch) -> Seq<Seq<char>> {
    match launch {
        PaneLaunch::Shell => seq![],
        PaneLaunch::Command(c) => seq!["-l"@, "-c"@, c@],
    }
}

pub fn launch_args(launch: &PaneLaunch) -> (r: Vec<String>)
    ensures
        text::texts(r@) == shell_args(*launch),
{
    match launch {
        PaneLaunch::Shell => {
            let v: Vec<String> = Vec::new();
            assert(text::texts(v@) =~= seq![]);
            v
        },
        PaneLaunch::Command(command) => {
            let v: Vec<String> = vec!["-l".to_owned(), "-c".to_owned(), command.clone()];
            assert(text::texts(v@) =~= shell_args(*launch));
            v
        },
    }
}

/// The views of pairs of texts.
pub open spec fn pairs(v: Seq<(String, String)>) -> Seq<(Seq<char>, Seq<char>)> {
    v.map_values(|p: (String, String)| (p.0@, p.1@))
}

/// The variables that every pane starts with, before its own.
pub fn base_env() -> (r: Vec<(String, String)>)
    ensures
        pairs(r@) == seq![
            ("TERM"@, "xterm-256color"@),
            ("COLORTERM"@, "truecolor"@),
            ("EZPN"@, "1"@),
        ],
{
    let v: Vec<(String, String)> = vec![
        ("TERM".to_owned(), "xterm-256color".to_owned()),
        ("COLORTERM".to_owned(), "truecolor".to_owned()),
        ("EZPN".to_owned(), "1".to_owned()),
    ];
    assert(pairs(v@) =~= seq![
        ("TERM"@, "xterm-256color"@),
        ("COLORTERM"@, "truecolor"@),
        ("EZPN"@, "1"@),
    ]);
    v
}

// ─── Scrollback budget ─────────────────────────────────────

/// How many rows are over the budget: none while the estimate is within it (or
/// the budget is zero, which is no budget), else the excess in rows of four
/// bytes for each column, but at least one.
pub open spec fn rows_over(byte_budget: nat, byte_estimate: nat, cols: nat) -> nat {
    if byte_budget == 0 || byte_estimate <= byte_budget {
        0
    } else {
        let row = if cols == 0 {
            1
        } else {
            cols * 4
        };
        let n = (byte_estimate - byte_budget) as nat / row;
        if n == 0 {
            1
        } else {
            n
        }
    }
}

/// The number of rows that are over the budget. Both policies give the same.
pub fn compute_eviction(
    byte_budget: usize,
    byte_estimate: usize,
    cols: u16,
    policy: ScrollbackEviction,
) -> (r: usize)
    ensures
        r == rows_over(byte_budget as nat, byte_estimate as nat, cols as nat),
{
    if byte_budget == 0 || byte_estimate <= byte_budget {
        return 0;
    }
    let row: usize = if cols == 0 {
        1
    } else {
        cols as usize * 4
    };
    let n: usize = (byte_estimate - byte_budget) / row;
    if n == 0 {
        1
    } else {
        n
    }
}

// ─── Synchronized output ───────────────────────────────────

pub open spec fn sync_open() -> Seq<u8> {
    seq![0x1bu8, 0x5b, 0x3f, 0x32, 0x30, 0x32, 0x36, 0x68]
}

pub open spec fn sync_close() -> Seq<u8> {
    seq![0x1bu8, 0x5b, 0x3f, 0x32, 0x30, 0x32, 0x36, 0x6c]
}

/// How deep synchronized output is nested and when its window was opened,
/// after the brackets that begin at the positions `..k`.
pub open spec fn synced(
    data: Seq<u8>,
    k: nat,
    start: (u16, Option<u64>),
    now: u64,
) -> (u16, Option<u64>)
    decreases k,
{
    if k == 0 {
        start
    } else {
        let (depth, opened) = synced(data, (k - 1) as nat, start, now);
        let s = data.skip(k - 1);
        if bytes::starts_with(s, sync_open()) {
            (
                if depth == 0xffff {
                    depth
                } else {
                    (depth + 1) as u16
                },
                if depth == 0 {
                    Some(now)
                } else {
                    opened
                },
            )
        } else if bytes::starts_with(s, sync_close()) {
            let d = if depth == 0 {
                0
            } else {
                (depth - 1) as u16
            };
            (
                d,
                if d == 0 {
                    None
                } else {
                    opened
                },
            )
        } else {
            (depth, opened)
        }
    }
}

/// Counts the brackets of synchronized output in a chunk.
pub fn scan_sync_brackets(data: &[u8], depth: &mut u16, opened_at: &mut Option<u64>, now: u64)
    ensures
        (*final(depth), *final(opened_at)) == synced(
            data@,
            data@.len(),
            (*old(depth), *old(opened_at)),
            now,
        ),
{
    let open: Vec<u8> = vec![0x1b, 0x5b, 0x3f, 0x32, 0x30, 0x32, 0x36, 0x68];
    let close: Vec<u8> = vec![0x1b, 0x5b, 0x3f, 0x32, 0x30, 0x32, 0x36, 0x6c];
    assert(open@ =~= sync_open());
    assert(close@ =~= sync_close());
    let ghost start = (*depth, *opened_at);
    let mut i: usize = 0;
    while i < data.len()
        invariant
            i <= data@.len(),
            open@ == sync_open(),
            close@ == sync_close(),
            (*depth, *opened_at) == synced(data@, i as nat, start, now),
        decreases data@.len() - i,
    {
        if bytes::has_bytes_at(data, i, &open) {
            if *depth == 0 {
                *opened_at = Some(now);
            }
            if *depth < 0xffff {
                *depth = *depth + 1;
            }
        } else if bytes::has_bytes_at(data, i, &close) {
            if *depth > 0 {
                *depth = *depth - 1;
            }
            if *depth == 0 {
                *opened_at = None;
            }
        }
        i += 1;
    }
}

// ─── Reading back the scrollback ───────────────────────────

/// The windows over the scrollback, oldest first: how many rows up each one
/// begins, and how many of its rows belong to it. `max` is the number of rows
/// in the scrollback, `rows` the height of the screen.
pub open spec fn windows(max: nat, rows: nat) -> Seq<(nat, nat)>
    decreases max,
{
    if max == 0 || rows == 0 {
        seq![]
    } else if max <= rows {
        seq![(max, max)]
    } else {
        seq![(max, rows)] + windows((max - rows) as nat, rows)
    }
}

/// The rows of the windows of a plan, one after the other.
pub open spec fn window_rows<T>(history: Seq<T>, plan: Seq<(nat, nat)>) -> Seq<T>
    decreases plan.len(),
{
    if plan.len() == 0 {
        seq![]
    } else {
        let (up, take) = plan[0];
        history.subrange(history.len() - up, history.len() - up + take) + window_rows(
            history,
            plan.skip(1),
        )
    }
}

/// The windows cover the scrollback: each of its rows once, in order.
pub proof fn windows_cover_the_scrollback<T>(history: Seq<T>, rows: nat)
    requires
        rows > 0,
    ensures
        window_rows(history, windows(history.len(), rows)) == history,
{
    lemma_windows(history, history.len(), rows);
    assert(history.skip(0) =~= history);
}

proof fn lemma_windows<T>(history: Seq<T>, max: nat, rows: nat)
    requires
        rows > 0,
        max <= history.len(),
    ensures
        window_rows(history, windows(max, rows)) == history.skip(history.len() - max),
    decreases max,
{
    let plan = windows(max, rows);
    let h = history.len();
    if max == 0 {
        assert(history.skip(h - max) =~= seq![]);
    } else if max <= rows {
        assert(plan.skip(1) =~= seq![]);
        assert(window_rows(history, plan.skip(1)) =~= seq![]);
        assert(history.subrange(h - max, h - max + max) + seq![] =~= history.skip(h - max));
    } else {
        let rest = windows((max - rows) as nat, rows);
        lemma_windows(history, (max - rows) as nat, rows);
        assert(plan.skip(1) =~= rest);
        assert(plan[0] == (max, rows));
        assert(history.subrange(h - max, h - max + rows) + history.skip(h - (max - rows))
            =~= history.skip(h - max));
    }
}

pub open spec fn windows_view(v: Seq<(usize, usize)>) -> Seq<(nat, nat)> {
    v.map_values(|w: (usize, usize)| (w.0 as nat, w.1 as nat))
}

/// Plans the reading of a scrollback of `max` rows through a screen of `rows`.
pub fn dump_windows(max: usize, rows: u16) -> (r: Vec<(usize, usize)>)
    requires
        rows > 0,
    ensures
        windows_view(r@) == windows(max as nat, rows as nat),
{
    let mut out: Vec<(usize, usize)> = Vec::new();
    let mut up: usize = max;
    let step: usize = rows as usize;
    assert(windows_view(out@) + windows(max as nat, rows as nat) =~= windows(
        max as nat,
        rows as nat,
    ));
    while up > 0
        invariant
            up <= max,
            step == rows,
            rows > 0,
            windows_view(out@) + windows(up as nat, rows as nat) == windows(
                max as nat,
                rows as nat,
            ),
        decreases up,
    {
        let take: usize = if up <= step {
            up
        } else {
            step
        };
        let ghost before = windows_view(out@);
        out.push((up, take));
        proof {
            assert(windows_view(out@) =~= before.push((up as nat, take as nat)));
            if up > step {
                assert(windows_view(out@) + windows((up - step) as nat, rows as nat) =~= before + (
                seq![(up as nat, rows as nat)] + windows((up - step) as nat, rows as nat)));
            } else {
                assert(windows_view(out@) + windows(0, rows as nat) =~= before + seq![
                    (up as nat, up as nat),
                ]);
            }
        }
        up = if up > step {
            up - step
        } else {
            0
        };
    }
    assert(windows_view(out@) + windows(0, rows as nat) =~= windows_view(out@));
    out
}

// ─── Pane ──────────────────────────────────────────────────

/// The state of one pane. Times are in milliseconds.
#[derive(Clone)]
pub struct Pane {
    /// Terminal state, pending clipboard sequences and answers.
    pub ctx: intercept::InterceptCtx,
    pub alive: bool,
    pub launch: PaneLaunch,
    /// 0 = live (bottom), >0 = scrolled up that many lines.
    pub scroll_offset: usize,
    pub name: Option<String>,
    pub exit_code: Option<u32>,
    /// How deep synchronized output is nested.
    pub sync_depth: u16,
    /// When the current window of synchronized output was opened.
    pub sync_opened_at: Option<u64>,
    pub initial_cwd: Option<String>,
    pub initial_env: Vec<(String, String)>,
    pub initial_shell: Option<String>,
    pub clipboard_policy: ClipboardPolicy,
    pub theme_palette: ThemePalette,
    /// Budget of bytes in the scrollback; 0 is no budget.
    pub scrollback_byte_budget: usize,
    pub eviction_policy: ScrollbackEviction,
    /// Upper bound on the bytes in the scrollback.
    pub scrollback_byte_estimate: usize,
}

/// What one chunk of output changes, besides what is on the screen.
#[verifier::ext_equal]
pub struct ChunkEffect {
    pub ctx: intercept::CtxView,
    pub sync: (u16, Option<u64>),
    pub estimate: nat,
}

/// The effect of one chunk: its sequences are intercepted, its brackets
/// counted and its length added to the estimate, which starts over when it is
/// over the budget.
pub open spec fn chunk_effect(
    e: ChunkEffect,
    policy: ClipboardPolicy,
    palette: ThemePalette,
    budget: nat,
    cols: nat,
    data: Seq<u8>,
    now: u64,
) -> ChunkEffect {
    let sum = e.estimate + data.len();
    let estimate = if sum > usize::MAX {
        usize::MAX as nat
    } else {
        sum
    };
    ChunkEffect {
        ctx: intercept::intercepted(e.ctx, policy, palette, data, now),
        sync: synced(data, data.len(), e.sync, now),
        estimate: if rows_over(budget, estimate, cols) > 0 {
            0
        } else {
            estimate
        },
    }
}

/// The effect of the chunks `..k`.
pub open spec fn chunks_effect(
    e: ChunkEffect,
    policy: ClipboardPolicy,
    palette: ThemePalette,
    budget: nat,
    cols: nat,
    chunks: Seq<Seq<u8>>,
    k: nat,
    now: u64,
) -> ChunkEffect
    decreases k,
{
    if k == 0 {
        e
    } else {
        chunk_effect(
            chunks_effect(e, policy, palette, budget, cols, chunks, (k - 1) as nat, now),
            policy,
            palette,
            budget,
            cols,
            chunks[k - 1],
            now,
        )
    }
}

/// The part of a pane that output changes.
pub open spec fn effect_of(p: Pane) -> ChunkEffect {
    ChunkEffect {
        ctx: p.ctx@,
        sync: (p.sync_depth, p.sync_opened_at),
        estimate: p.scrollback_byte_estimate as nat,
    }
}

impl Pane {
    pub open spec fn wf(self) -> bool {
        self.theme_palette.wf()
    }

    /// A pane that was just started.
    pub fn new(
        launch: PaneLaunch,
        initial_cwd: Option<String>,
        initial_env: Vec<(String, String)>,
    ) -> (r: Pane)
        ensures
            r.wf(),
            r.alive,
            r.launch == launch,
            r.initial_cwd == initial_cwd,
            r.initial_env == initial_env,
            r.scroll_offset == 0,
            r.name is None && r.exit_code is None && r.initial_shell is None,
            r.ctx@.state == crate::terminal_state::fresh_terminal(),
            r.ctx@.osc52_pending.len() == 0 && r.ctx@.replies.len() == 0,
            r.ctx@.osc_carry.len() == 0 && r.ctx@.csi_carry.len() == 0,
            r.sync_depth == 0 && r.sync_opened_at is None,
            r.clipboard_policy.set == Osc52SetPolicy::Confirm,
            r.clipboard_policy.get == Osc52GetPolicy::Deny,
            r.clipboard_policy.max_bytes == 1_048_576,
            !r.theme_palette.active(),
            r.scrollback_byte_budget == DEFAULT_SCROLLBACK_BYTES,
            r.eviction_policy == ScrollbackEviction::OldestLine,
            r.scrollback_byte_estimate == 0,
    {
        Pane {
            ctx: intercept::InterceptCtx::new(),
            alive: true,
            launch,
            scroll_offset: 0,
            name: None,
            exit_code: None,
            sync_depth: 0,
            sync_opened_at: None,
            initial_cwd,
            initial_env,
            initial_shell: None,
            clipboard_policy: ClipboardPolicy::default(),
            theme_palette: ThemePalette::default(),
            scrollback_byte_budget: DEFAULT_SCROLLBACK_BYTES,
            eviction_policy: ScrollbackEviction::OldestLine,
            scrollback_byte_estimate: 0,
        }
    }

    /// Sets the scrollback budget and the eviction policy.
    pub fn set_scrollback_budget(&mut self, byte_budget: usize, policy: ScrollbackEviction)
        ensures
            *final(self) == (Pane {
                scrollback_byte_budget: byte_budget,
                eviction_policy: policy,
                ..*old(self)
            }),
    {
        self.scrollback_byte_budget = byte_budget;
        self.eviction_policy = policy;
    }

    /// Tells how many rows are over the budget. Where any are, the estimate
    /// starts over.
    pub fn evict_if_oversized(&mut self, cols: u16) -> (r: usize)
        ensures
            r == rows_over(
                old(self).scrollback_byte_budget as nat,
                old(self).scrollback_byte_estimate as nat,
                cols as nat,
            ),
            *final(self) == (Pane {
                scrollback_byte_estimate: if r > 0 {
                    0
                } else {
                    old(self).scrollback_byte_estimate
                },
                ..*old(self)
            }),
    {
        let evicted: usize = compute_eviction(
            self.scrollback_byte_budget,
            self.scrollback_byte_estimate,
            cols,
            self.eviction_policy,
        );
        if evicted > 0 {
            self.scrollback_byte_estimate = 0;
        }
        evicted
    }

    pub fn set_clipboard_policy(&mut self, policy: ClipboardPolicy)
        ensures
            *final(self) == (Pane { clipboard_policy: policy, ..*old(self) }),
    {
        self.clipboard_policy = policy;
    }

    pub fn set_theme_palette(&mut self, palette: ThemePalette)
        ensures
            *final(self) == (Pane { theme_palette: palette, ..*old(self) }),
    {
        self.theme_palette = palette;
    }

    /// Takes one chunk of output. Returns the number of scrollback rows over
    /// the budget.
    pub fn take_chunk(&mut self, data: &[u8], cols: u16, now: u64) -> (r: usize)
        requires
            old(self).wf(),
        ensures
            final(self).wf(),
            effect_of(*final(self)) == chunk_effect(
                effect_of(*old(self)),
                old(self).clipboard_policy,
                old(self).theme_palette,
                old(self).scrollback_byte_budget as nat,
                cols as nat,
                data@,
                now,
            ),
            *final(self) == (Pane {
                ctx: final(self).ctx,
                sync_depth: final(self).sync_depth,
                sync_opened_at: final(self).sync_opened_at,
                scrollback_byte_estimate: final(self).scrollback_byte_estimate,
                scroll_offset: 0,
                ..*old(self)
            }),
            r == rows_over(
                old(self).scrollback_byte_budget as nat,
                if old(self).scrollback_byte_estimate + data@.len() > usize::MAX {
                    usize::MAX as nat
                } else {
                    old(self).scrollback_byte_estimate as nat + data@.len()
                },
                cols as nat,
            ),
    {
        intercept::intercept_chunk(
            &mut self.ctx,
            &self.clipboard_policy,
            &self.theme_palette,
            data,
            now,
        );
        scan_sync_brackets(data, &mut self.sync_depth, &mut self.sync_opened_at, now);
        let n: usize = data.len();
        self.scrollback_byte_estimate = if usize::MAX - self.scrollback_byte_estimate < n {
            usize::MAX
        } else {
            self.scrollback_byte_estimate + n
        };
        self.scroll_offset = 0;
        self.evict_if_oversized(cols)
    }

    /// Takes the output that was read from the pane: the chunks, whether the
    /// output has ended, and the exit code where the child has exited. Tells
    /// whether anything is new: a chunk, or the end of the pane. An open window
    /// of synchronized output is closed when the pane ends.
    pub fn read_output(
        &mut self,
        chunks: &Vec<Vec<u8>>,
        disconnected: bool,
        exit: Option<u32>,
        cols: u16,
        now: u64,
    ) -> (r: bool)
        requires
            old(self).wf(),
        ensures
            final(self).wf(),
            final(self).alive == (old(self).alive && !disconnected && exit is None),
            final(self).exit_code == if old(self).alive && !disconnected && exit is Some {
                exit
            } else {
                old(self).exit_code
            },
            r == (chunks@.len() > 0 || final(self).alive != old(self).alive),
            ({
                let e = chunks_effect(
                    effect_of(*old(self)),
                    old(self).clipboard_policy,
                    old(self).theme_palette,
                    old(self).scrollback_byte_budget as nat,
                    cols as nat,
                    bytes::lists(chunks@),
                    chunks@.len(),
                    now,
                );
                effect_of(*final(self)) == ChunkEffect {
                    sync: if !final(self).alive && e.sync.0 > 0 {
                        (0, None)
                    } else {
                        e.sync
                    },
                    ..e
                }
            }),
            final(self).scroll_offset == if chunks@.len() > 0 {
                0
            } else {
                old(self).scroll_offset
            },
            *final(self) == (Pane {
                ctx: final(self).ctx,
                sync_depth: final(self).sync_depth,
                sync_opened_at: final(self).sync_opened_at,
                scrollback_byte_estimate: final(self).scrollback_byte_estimate,
                scroll_offset: final(self).scroll_offset,
                alive: final(self).alive,
                exit_code: final(self).exit_code,
                ..*old(self)
            }),
    {
        let was_alive = self.alive;
        let ghost all = bytes::lists(chunks@);
        let mut i: usize = 0;
        while i < chunks.len()
            invariant
                i <= chunks@.len(),
                all == bytes::lists(chunks@),
                self.wf(),
                effect_of(*self) == chunks_effect(
                    effect_of(*old(self)),
                    old(self).clipboard_policy,
                    old(self).theme_palette,
                    old(self).scrollback_byte_budget as nat,
                    cols as nat,
                    all,
                    i as nat,
                    now,
                ),
                self.scroll_offset == if i > 0 {
                    0
                } else {
                    old(self).scroll_offset
                },
                *self == (Pane {
                    ctx: self.ctx,
                    sync_depth: self.sync_depth,
                    sync_opened_at: self.sync_opened_at,
                    scrollback_byte_estimate: self.scrollback_byte_estimate,
                    scroll_offset: self.scroll_offset,
                    ..*old(self)
                }),
            decreases chunks@.len() - i,
        {
            assert(all[i as int] == chunks@[i as int]@);
            let _ = self.take_chunk(chunks[i].as_slice(), cols, now);
            i += 1;
        }
        if disconnected {
            self.alive = false;
        }
        if self.alive {
            if exit.is_some() {
                self.exit_code = exit;
                self.alive = false;
            }
        }
        if !self.alive && self.sync_depth > 0 {
            self.sync_depth = 0;
            self.sync_opened_at = None;
        }
        chunks.len() > 0 || was_alive != self.alive
    }

    /// Whether the pane is inside a window of synchronized output.
    pub fn in_sync(&self) -> (r: bool)
        ensures
            r == (self.sync_depth > 0),
    {
        self.sync_depth > 0
    }

    pub fn sync_opened_at(&self) -> (r: Option<u64>)
        ensures
            r == self.sync_opened_at,
    {
        self.sync_opened_at
    }

    /// Closes any open window of synchronized output.
    pub fn force_close_sync(&mut self)
        ensures
            *final(self) == if old(self).sync_depth > 0 {
                Pane { sync_depth: 0, sync_opened_at: None, ..*old(self) }
            } else {
                *old(self)
            },
    {
        if self.sync_depth > 0 {
            self.sync_depth = 0;
            self.sync_opened_at = None;
        }
    }

    /// The bytes that a key sends to the program in the pane.
    pub fn write_key(&self, key: KeyEvent) -> (r: Vec<u8>)
        ensures
            r@ == encode::key_bytes(key),
    {
        encode::encode_key(key)
    }

    /// A pane is resized only to a size that has cells.
    pub fn resize(&self, cols: u16, rows: u16) -> (r: bool)
        ensures
            r == (cols != 0 && rows != 0),
    {
        cols != 0 && rows != 0
    }

    pub fn is_alive(&self) -> (r: bool)
        ensures
            r == self.alive,
    {
        self.alive
    }

    /// Takes note that input could not be written: the program is gone.
    pub fn write_failed(&mut self)
        ensures
            *final(self) == (Pane { alive: false, ..*old(self) }),
    {
        self.alive = false;
    }

    /// Marks the pane as ended: its child was killed.
    pub fn kill(&mut self)
        ensures
            *final(self) == (Pane { alive: false, ..*old(self) }),
    {
        self.alive = false;
    }

    /// Scrolls up, at most to the first of the `available` scrollback rows.
    pub fn scroll_up(&mut self, lines: usize, available: usize)
        requires
            old(self).scroll_offset + lines <= usize::MAX,
        ensures
            *final(self) == (Pane {
                scroll_offset: scrolled_back(
                    old(self).scroll_offset as int,
                    lines as int,
                    available as int,
                ) as usize,
                ..*old(self)
            }),
    {
        let probe: usize = self.scroll_offset + lines;
        self.scroll_offset = if probe <= available {
            probe
        } else {
            available
        };
    }

    pub fn scroll_down(&mut self, lines: usize)
        ensures
            *final(self) == (Pane {
                scroll_offset: scrolled_forward(
                    old(self).scroll_offset as int,
                    lines as int,
                ) as usize,
                ..*old(self)
            }),
    {
        self.scroll_offset = if self.scroll_offset >= lines {
            self.scroll_offset - lines
        } else {
            0
        };
    }

    pub fn scroll_offset(&self) -> (r: usize)
        ensures
            r == self.scroll_offset,
    {
        self.scroll_offset
    }

    pub fn is_scrolled(&self) -> (r: bool)
        ensures
            r == (self.scroll_offset > 0),
    {
        self.scroll_offset > 0
    }

    pub fn snap_to_bottom(&mut self)
        ensures
            *final(self) == (Pane { scroll_offset: 0, ..*old(self) }),
    {
        self.scroll_offset = 0;
    }

    /// Whether the program asked for mouse events, as far as this pane or the
    /// terminal emulator knows.
    pub fn wants_mouse(&self, emulator: bool) -> (r: bool)
        ensures
            r == (self.ctx.state.mouse_mode.protocol != MouseProtocol::Off || emulator),
    {
        !self.ctx.state.mouse_mode.is_off() || emulator
    }

    /// The bytes of a mouse event, in the encoding that the program asked for.
    /// `emulator_sgr` tells whether the terminal emulator saw it ask for SGR.
    pub fn send_mouse_event(
        &self,
        button: u16,
        col: u16,
        row: u16,
        release: bool,
        emulator_sgr: bool,
    ) -> (r: Vec<u8>)
        requires
            col < 0xffff,
            row < 0xffff,
        ensures
            r@ == encode::mouse_bytes(
                self.ctx.state.mouse_mode.encoding == MouseEncoding::Sgr || emulator_sgr,
                button,
                col,
                row,
                release,
            ),
    {
        let sgr = match self.ctx.state.mouse_mode.encoding {
            MouseEncoding::Sgr => true,
            MouseEncoding::X10 => emulator_sgr,
        };
        encode::encode_mouse(sgr, button, col, row, release)
    }

    /// The bytes of a turn of the mouse wheel.
    pub fn send_mouse_scroll(&self, up: bool, col: u16, row: u16, emulator_sgr: bool) -> (r: Vec<
        u8,
    >)
        requires
            col < 0xffff,
            row < 0xffff,
        ensures
            r@ == encode::mouse_bytes(
                self.ctx.state.mouse_mode.encoding == MouseEncoding::Sgr || emulator_sgr,
                wheel_button(up),
                col,
                row,
                false,
            ),
    {
        let button: u16 = if up {
            64
        } else {
            65
        };
        self.send_mouse_event(button, col, row, false, emulator_sgr)
    }

    pub fn launch(&self) -> (r: &PaneLaunch)
        ensures
            *r == self.launch,
    {
        &self.launch
    }

    /// The label of the pane: its name, else the title that its program set,
    /// else its command, else the shell.
    pub fn launch_label(&self, shell: &str, osc_title: &str) -> (r: String)
        ensures
            r@ == pane_label(*self, shell@, osc_title@),
    {
        match &self.name {
            Some(name) => {
                return name.clone();
            },
            None => {},
        }
        if !osc_title.is_empty() {
            return osc_title.to_owned();
        }
        match &self.launch {
            PaneLaunch::Shell => shell.to_owned(),
            PaneLaunch::Command(command) => command.clone(),
        }
    }

    pub fn exit_code(&self) -> (r: Option<u32>)
        ensures
            r == self.exit_code,
    {
        self.exit_code
    }

    pub fn name(&self) -> (r: Option<&str>)
        ensures
            match r {
                Some(n) => self.name matches Some(s) && n@ == s@,
                None => self.name is None,
            },
    {
        match &self.name {
            Some(s) => Some(s.as_str()),
            None => None,
        }
    }

    pub fn set_name(&mut self, name: Option<String>)
        ensures
            *final(self) == (Pane { name, ..*old(self) }),
    {
        self.name = name;
    }

    /// Takes the clipboard sequences to be forwarded.
    pub fn take_osc52(&mut self) -> (r: Vec<Vec<u8>>)
        ensures
            r == old(self).ctx.osc52_pending,
            final(self).ctx.osc52_pending@.len() == 0,
            *final(self) == (Pane {
                ctx: intercept::InterceptCtx {
                    osc52_pending: final(self).ctx.osc52_pending,
                    ..old(self).ctx
                },
                ..*old(self)
            }),
    {
        let mut taken: Vec<Vec<u8>> = Vec::new();
        std::mem::swap(&mut taken, &mut self.ctx.osc52_pending);
        taken
    }

    /// Takes the answers to be written to the program.
    pub fn take_replies(&mut self) -> (r: Vec<u8>)
        ensures
            r == old(self).ctx.replies,
            final(self).ctx.replies@.len() == 0,
            *final(self) == (Pane {
                ctx: intercept::InterceptCtx {
                    replies: final(self).ctx.replies,
                    ..old(self).ctx
                },
                ..*old(self)
            }),
    {
        let mut taken: Vec<u8> = Vec::new();
        std::mem::swap(&mut taken, &mut self.ctx.replies);
        taken
    }

    pub fn bracketed_paste(&self) -> (r: bool)
        ensures
            r == self.ctx.state.bracketed_paste,
    {
        self.ctx.state.bracketed_paste
    }

    pub fn wants_focus(&self) -> (r: bool)
        ensures
            r == self.ctx.state.focus_reporting,
    {
        self.ctx.state.focus_reporting
    }

    pub fn mouse_mode(&self) -> (r: MouseMode)
        ensures
            r == self.ctx.state.mouse_mode,
    {
        self.ctx.state.mouse_mode
    }

    pub fn kitty_kbd_active(&self) -> (r: KittyKbdFlags)
        ensures
            r.0 == crate::terminal_state::kitty_active(self.ctx.state.kitty_kbd@),
    {
        self.ctx.state.kitty_kbd.active()
    }

    pub fn osc52_decision(&self) -> (r: Osc52Decision)
        ensures
            r == self.ctx.state.osc52_decision,
    {
        self.ctx.state.osc52_decision
    }

    /// Sets the user's answer for this pane.
    pub fn set_osc52_decision(&mut self, decision: Osc52Decision)
        ensures
            *final(self) == (Pane {
                ctx: intercept::InterceptCtx {
                    state: crate::terminal_state::PaneTerminalState {
                        osc52_decision: decision,
                        ..old(self).ctx.state
                    },
                    ..old(self).ctx
                },
                ..*old(self)
            }),
    {
        self.ctx.state.osc52_decision = decision;
    }

    /// Takes the clipboard sequences that wait for the user's answer.
    pub fn take_osc52_pending_confirm(&mut self) -> (r: Vec<Vec<u8>>)
        ensures
            r == old(self).ctx.state.osc52_pending_confirm,
            final(self).ctx.state.osc52_pending_confirm@.len() == 0,
            *final(self) == with_confirm(*old(self), final(self).ctx.state.osc52_pending_confirm),
    {
        let mut taken: Vec<Vec<u8>> = Vec::new();
        std::mem::swap(&mut taken, &mut self.ctx.state.osc52_pending_confirm);
        taken
    }

    /// Puts sequences that were taken back in front of those that wait.
    pub fn requeue_osc52_pending_confirm(&mut self, payloads: Vec<Vec<u8>>)
        ensures
            final(self).ctx.state.osc52_pending_confirm@ == payloads@ + old(
                self,
            ).ctx.state.osc52_pending_confirm@,
            *final(self) == with_confirm(*old(self), final(self).ctx.state.osc52_pending_confirm),
    {
        let mut all = payloads;
        all.append(&mut self.ctx.state.osc52_pending_confirm);
        self.ctx.state.osc52_pending_confirm = all;
    }

    pub fn initial_cwd(&self) -> (r: Option<&str>)
        ensures
            match r {
                Some(n) => self.initial_cwd matches Some(s) && n@ == s@,
                None => self.initial_cwd is None,
            },
    {
        match &self.initial_cwd {
            Some(s) => Some(s.as_str()),
            None => None,
        }
    }

    pub fn initial_env(&self) -> (r: &Vec<(String, String)>)
        ensures
            *r == self.initial_env,
    {
        &self.initial_env
    }

    pub fn initial_shell(&self) -> (r: Option<&str>)
        ensures
            match r {
                Some(n) => self.initial_shell matches Some(s) && n@ == s@,
                None => self.initial_shell is None,
            },
    {
        match &self.initial_shell {
            Some(s) => Some(s.as_str()),
            None => None,
        }
    }

    pub fn set_initial_shell(&mut self, shell: Option<String>)
        ensures
            *final(self) == (Pane { initial_shell: shell, ..*old(self) }),
    {
        self.initial_shell = shell;
    }

    /// The directory that the shell reported, while the report is fresh.
    pub fn reported_cwd(&self, now: u64) -> (r: Option<&str>)
        ensures
            match r {
                Some(n) => fresh_cwd(*self, now) == Some(n@),
                None => fresh_cwd(*self, now) is None,
            },
    {
        match &self.ctx.state.reported_cwd {
            Some((p, at)) => {
                let age: u64 = if now >= *at {
                    now - *at
                } else {
                    0
                };
                if age < REPORTED_CWD_FRESH_FOR {
                    Some(p.as_str())
                } else {
                    None
                }
            },
            None => None,
        }
    }

    /// The working directory of the pane: a fresh report, else what the
    /// operating system says of the running child, else where it was started.
    pub fn live_cwd(&self, now: u64, from_system: Option<&str>) -> (r: Option<String>)
        ensures
            match r {
                Some(n) => live_dir(*self, now, str_view(from_system)) == Some(n@),
                None => live_dir(*self, now, str_view(from_system)) is None,
            },
    {
        match self.reported_cwd(now) {
            Some(p) => {
                return Some(p.to_owned());
            },
            None => {},
        }
        if self.alive {
            match from_system {
                Some(p) => {
                    return Some(p.to_owned());
                },
                None => {},
            }
        }
        match &self.initial_cwd {
            Some(s) => Some(s.clone()),
            None => None,
        }
    }
}

pub open spec fn str_view(s: Option<&str>) -> Option<Seq<char>> {
    match s {
        Some(t) => Some(t@),
        None => None,
    }
}

/// A pane with another queue of clipboard sequences to be confirmed.
pub open spec fn with_confirm(p: Pane, queue: Vec<Vec<u8>>) -> Pane {
    Pane {
        ctx: intercept::InterceptCtx {
            state: crate::terminal_state::PaneTerminalState {
                osc52_pending_confirm: queue,
                ..p.ctx.state
            },
            ..p.ctx
        },
        ..p
    }
}

pub open spec fn pane_label(p: Pane, shell: Seq<char>, osc_title: Seq<char>) -> Seq<char> {
    match p.name {
        Some(name) => name@,
        None => if osc_title.len() > 0 {
            osc_title
        } else {
            match p.launch {
                PaneLaunch::Shell => shell,
                PaneLaunch::Command(c) => c@,
            }
        },
    }
}

/// The reported directory, where the report is at most 30 seconds old.
pub open spec fn fresh_cwd(p: Pane, now: u64) -> Option<Seq<char>> {
    match p.ctx.state.reported_cwd {
        Some((dir, at)) => if now < at || now - at < 30_000 {
            Some(dir@)
        } else {
            None
        },
        None => None,
    }
}

pub open spec fn live_dir(p: Pane, now: u64, from_system: Option<Seq<char>>) -> Option<Seq<char>> {
    if fresh_cwd(p, now) is Some {
        fresh_cwd(p, now)
    } else if p.alive && from_system is Some {
        from_system
    } else {
        match p.initial_cwd {
            Some(s) => Some(s@),
            None => None,
        }
    }
}

// ─── Scrolling ─────────────────────────────────────────────

/// How many lines above the newest ones a pane shows after it was scrolled
/// back, of the `available` ones.
pub open spec fn scrolled_back(offset: int, lines: int, available: int) -> int {
    if offset + lines <= available {
        offset + lines
    } else {
        available
    }
}

/// How many lines above the newest ones a pane shows after it was scrolled
/// forward.
pub open spec fn scrolled_forward(offset: int, lines: int) -> int {
    if offset >= lines {
        offset - lines
    } else {
        0
    }
}

/// Scrolling back goes away from the newest lines, by as many as asked for or
/// as there are; scrolling forward goes towards them and stops there. One takes
/// the other back.
pub proof fn scrolling_goes_both_ways(offset: int, lines: int, available: int)
    requires
        0 <= offset <= available,
        0 <= lines,
    ensures
        offset <= scrolled_back(offset, lines, available) <= available,
        0 <= scrolled_forward(offset, lines) <= offset,
        offset + lines <= available ==> scrolled_back(offset, lines, available) - offset == lines
            && scrolled_forward(scrolled_back(offset, lines, available), lines) == offset,
        lines <= offset ==> scrolled_back(scrolled_forward(offset, lines), lines, available)
            == offset,
        lines >= available - offset ==> scrolled_back(offset, lines, available) == available,
        lines >= offset ==> scrolled_forward(offset, lines) == 0,
{
}

/// The mouse button that a turn of the wheel is reported as.
pub open spec fn wheel_button(up: bool) -> u16 {
    if up {
        64
    } else {
        65
    }
}

/// In the older form a turn up is the byte 0x60 and a turn down 0x61, in the SGR
/// form they are the numbers 64 and 65.
pub proof fn the_wheel_has_its_buttons(col: u16, row: u16)
    requires
        col < 0xffff,
        row < 0xffff,
    ensures
        encode::mouse_bytes(false, wheel_button(true), col, row, false)[3] == 0x60,
        encode::mouse_bytes(false, wheel_button(false), col, row, false)[3] == 0x61,
        wheel_button(true) == 64 && wheel_button(false) == 65,
{
}

/// A pane is labelled by the name that the user gave it, else by the title that
/// its program set, else by its command.
pub proof fn the_users_name_comes_first(p: Pane, shell: Seq<char>, osc_title: Seq<char>)
    ensures
        p.name matches Some(name) ==> pane_label(p, shell, osc_title) == name@,
        p.name is None && osc_title.len() > 0 ==> pane_label(p, shell, osc_title) == osc_title,
        p.name is None && osc_title.len() == 0 ==> (p.launch matches PaneLaunch::Command(c)
            ==> pane_label(p, shell, osc_title) == c@),
        p.name is None && osc_title.len() == 0 && p.launch is Shell ==> pane_label(
            p,
            shell,
            osc_title,
        ) == shell,
{
}

/// `ESC [ ? 2 0 2 6 h` opens synchronized output and `ESC [ ? 2 0 2 6 l` closes it
/// again; the window counts from the first of nested ones.
pub proof fn brackets_open_and_close(depth: u16, opened: Option<u64>, now: u64)
    requires
        depth < 0xffff,
    ensures
        ({
            let on = seq![0x1bu8, 0x5b, 0x3f, 0x32, 0x30, 0x32, 0x36, 0x68];
            let off = seq![0x1bu8, 0x5b, 0x3f, 0x32, 0x30, 0x32, 0x36, 0x6c];
            &&& synced(on, 1, (depth, opened), now) == ((depth + 1) as u16, if depth == 0 {
                Some(now)
            } else {
                opened
            })
            &&& depth > 0 ==> synced(off, 1, (depth, opened), now) == ((depth - 1) as u16, if depth
                == 1 {
                None
            } else {
                opened
            })
        }),
{
    let on = seq![0x1bu8, 0x5b, 0x3f, 0x32, 0x30, 0x32, 0x36, 0x68];
    let off = seq![0x1bu8, 0x5b, 0x3f, 0x32, 0x30, 0x32, 0x36, 0x6c];
    assert(on.skip(0) =~= on);
    assert(off.skip(0) =~= off);
    assert(on.take(8) =~= on);
    assert(off.take(8) =~= off);
    assert(on[7] == 0x68 && off[7] == 0x6c);
    reveal_with_fuel(synced, 2);
}

} // verus!
