//! What is drawn on the screen: borders, titles, pane contents and the status
//! bar, as lists of drawing operations.

use std::collections::HashMap;

use vstd::prelude::*;
use vstd::string::*;

use crate::layout;
use crate::layout::{Layout, Rect, SepLine};
use crate::text;

pub mod boxes;
pub mod paint;
pub mod screen;

verus! {

broadcast use vstd::std_specs::hash::group_hash_axioms;

// ─── Drawing operations ────────────────────────────────────

#[derive(Clone, Copy, Debug, PartialEq, Eq, Structural)]
pub enum Color {
    Reset,
    Red,
    DarkRed,
    Yellow,
    Cyan,
    White,
    Grey,
    DarkGrey,
    Rgb { r: u8, g: u8, b: u8 },
    AnsiValue(u8),
}

/// One operation on the terminal.
#[derive(Clone, Debug, PartialEq, Eq)]
pub enum DrawOp {
    HideCursor,
    ShowCursor,
    ClearAll,
    MoveTo(u16, u16),
    Foreground(Color),
    Background(Color),
    ResetColor,
    Bold,
    Italic,
    Underlined,
    Reverse,
    ResetAttributes,
    BeginSync,
    EndSync,
    Print(String),
}

#[verifier::ext_equal]
pub enum Draw {
    HideCursor,
    ShowCursor,
    ClearAll,
    MoveTo(u16, u16),
    Foreground(Color),
    Background(Color),
    ResetColor,
    Bold,
    Italic,
    Underlined,
    Reverse,
    ResetAttributes,
    BeginSync,
    EndSync,
    Print(Seq<char>),
}

impl View for DrawOp {
    type V = Draw;

    open spec fn view(&self) -> Draw {
        match *self {
            DrawOp::HideCursor => Draw::HideCursor,
            DrawOp::ShowCursor => Draw::ShowCursor,
            DrawOp::ClearAll => Draw::ClearAll,
            DrawOp::MoveTo(x, y) => Draw::MoveTo(x, y),
            DrawOp::Foreground(c) => Draw::Foreground(c),
            DrawOp::Background(c) => Draw::Background(c),
            DrawOp::ResetColor => Draw::ResetColor,
            DrawOp::Bold => Draw::Bold,
            DrawOp::Italic => Draw::Italic,
            DrawOp::Underlined => Draw::Underlined,
            DrawOp::Reverse => Draw::Reverse,
            DrawOp::ResetAttributes => Draw::ResetAttributes,
            DrawOp::BeginSync => Draw::BeginSync,
            DrawOp::EndSync => Draw::EndSync,
            DrawOp::Print(s) => Draw::Print(s@),
        }
    }
}

/// The operations of a list.
pub open spec fn drawn(ops: Seq<DrawOp>) -> Seq<Draw> {
    ops.map_values(|o: DrawOp| o@)
}

/// Adds one operation.
pub fn put(ops: &mut Vec<DrawOp>, op: DrawOp)
    ensures
        drawn(final(ops)@) == drawn(old(ops)@).push(op@),
{
    ops.push(op);
    assert(drawn(ops@) =~= drawn(old(ops)@).push(op@));
}

/// Adds the printing of a text.
pub fn print(ops: &mut Vec<DrawOp>, s: &str)
    ensures
        drawn(final(ops)@) == drawn(old(ops)@).push(Draw::Print(s@)),
{
    put(ops, DrawOp::Print(s.to_owned()));
}

/// The same text printed `n` times.
pub open spec fn repeated(s: Seq<char>, n: nat) -> Seq<Draw> {
    Seq::new(n, |i: int| Draw::Print(s))
}

/// Adds the printing of a text `n` times.
pub fn print_times(ops: &mut Vec<DrawOp>, s: &str, n: usize)
    ensures
        drawn(final(ops)@) == drawn(old(ops)@) + repeated(s@, n as nat),
{
    let mut i: usize = 0;
    assert(drawn(ops@) + repeated(s@, 0) =~= drawn(ops@));
    while i < n
        invariant
            i <= n,
            drawn(ops@) == drawn(old(ops)@) + repeated(s@, i as nat),
        decreases n - i,
    {
        print(ops, s);
        i += 1;
        assert(drawn(ops@) =~= drawn(old(ops)@) + repeated(s@, i as nat));
    }
}

// ─── Border styles ─────────────────────────────────────────

#[derive(Clone, Copy, Debug, PartialEq, Eq, Structural)]
pub enum BorderStyle {
    Single,
    Rounded,
    Heavy,
    Double,
    /// Borders that are not drawn.
    Blank,
}

#[derive(Clone, Copy, Debug)]
pub struct BorderChars {
    pub h: &'static str,
    pub v: &'static str,
    pub tl: &'static str,
    pub tr: &'static str,
    pub bl: &'static str,
    pub br: &'static str,
    pub tj: &'static str,
    pub bj: &'static str,
    pub lj: &'static str,
    pub rj: &'static str,
    pub xj: &'static str,
}

#[verifier::ext_equal]
pub struct BorderTexts {
    pub h: Seq<char>,
    pub v: Seq<char>,
    pub tl: Seq<char>,
    pub tr: Seq<char>,
    pub bl: Seq<char>,
    pub br: Seq<char>,
    pub tj: Seq<char>,
    pub bj: Seq<char>,
    pub lj: Seq<char>,
    pub rj: Seq<char>,
    pub xj: Seq<char>,
}

impl View for BorderChars {
    type V = BorderTexts;

    open spec fn view(&self) -> BorderTexts {
        BorderTexts {
            h: self.h@,
            v: self.v@,
            tl: self.tl@,
            tr: self.tr@,
            bl: self.bl@,
            br: self.br@,
            tj: self.tj@,
            bj: self.bj@,
            lj: self.lj@,
            rj: self.rj@,
            xj: self.xj@,
        }
    }
}

pub open spec fn border_texts(style: BorderStyle) -> BorderTexts {
    match style {
        BorderStyle::Single => BorderTexts {
            h: "─"@,
            v: "│"@,
            tl: "┌"@,
            tr: "┐"@,
            bl: "└"@,
            br: "┘"@,
            tj: "┬"@,
            bj: "┴"@,
            lj: "├"@,
            rj: "┤"@,
            xj: "┼"@,
        },
        BorderStyle::Rounded => BorderTexts {
            h: "─"@,
            v: "│"@,
            tl: "╭"@,
            tr: "╮"@,
            bl: "╰"@,
            br: "╯"@,
            tj: "┬"@,
            bj: "┴"@,
            lj: "├"@,
            rj: "┤"@,
            xj: "┼"@,
        },
        BorderStyle::Heavy => BorderTexts {
            h: "━"@,
            v: "┃"@,
            tl: "┏"@,
            tr: "┓"@,
            bl: "┗"@,
            br: "┛"@,
            tj: "┳"@,
            bj: "┻"@,
            lj: "┣"@,
            rj: "┫"@,
            xj: "╋"@,
        },
        BorderStyle::Double => BorderTexts {
            h: "═"@,
            v: "║"@,
            tl: "╔"@,
            tr: "╗"@,
            bl: "╚"@,
            br: "╝"@,
            tj: "╦"@,
            bj: "╩"@,
            lj: "╠"@,
            rj: "╣"@,
            xj: "╬"@,
        },
        BorderStyle::Blank => BorderTexts {
            h: " "@,
            v: " "@,
            tl: " "@,
            tr: " "@,
            bl: " "@,
            br: " "@,
            tj: " "@,
            bj: " "@,
            lj: " "@,
            rj: " "@,
            xj: " "@,
        },
    }
}

pub open spec fn style_of(s: Seq<char>) -> Option<BorderStyle> {
    if s == "single"@ {
        Some(BorderStyle::Single)
    } else if s == "rounded"@ {
        Some(BorderStyle::Rounded)
    } else if s == "heavy"@ {
        Some(BorderStyle::Heavy)
    } else if s == "double"@ {
        Some(BorderStyle::Double)
    } else {
        None
    }
}

impl BorderStyle {
    pub fn from_str(s: &str) -> (r: Option<BorderStyle>)
        ensures
            r == style_of(s@),
    {
        if text::same_text(s, "single") {
            Some(BorderStyle::Single)
        } else if text::same_text(s, "rounded") {
            Some(BorderStyle::Rounded)
        } else if text::same_text(s, "heavy") {
            Some(BorderStyle::Heavy)
        } else if text::same_text(s, "double") {
            Some(BorderStyle::Double)
        } else {
            None
        }
    }

    pub fn chars(self) -> (r: BorderChars)
        ensures
            r@ == border_texts(self),
    {
        match self {
            BorderStyle::Single => BorderChars {
                h: "─",
                v: "│",
                tl: "┌",
                tr: "┐",
                bl: "└",
                br: "┘",
                tj: "┬",
                bj: "┴",
                lj: "├",
                rj: "┤",
                xj: "┼",
            },
            BorderStyle::Rounded => BorderChars {
                h: "─",
                v: "│",
                tl: "╭",
                tr: "╮",
                bl: "╰",
                br: "╯",
                tj: "┬",
                bj: "┴",
                lj: "├",
                rj: "┤",
                xj: "┼",
            },
            BorderStyle::Heavy => BorderChars {
                h: "━",
                v: "┃",
                tl: "┏",
                tr: "┓",
                bl: "┗",
                br: "┛",
                tj: "┳",
                bj: "┻",
                lj: "┣",
                rj: "┫",
                xj: "╋",
            },
            BorderStyle::Double => BorderChars {
                h: "═",
                v: "║",
                tl: "╔",
                tr: "╗",
                bl: "╚",
                br: "╝",
                tj: "╦",
                bj: "╩",
                lj: "╠",
                rj: "╣",
                xj: "╬",
            },
            BorderStyle::Blank => BorderChars {
                h: " ",
                v: " ",
                tl: " ",
                tr: " ",
                bl: " ",
                br: " ",
                tj: " ",
                bj: " ",
                lj: " ",
                rj: " ",
                xj: " ",
            },
        }
    }
}

// ─── Border cells ──────────────────────────────────────────

/// Where a border goes on from a cell.
#[derive(Clone, Copy, Debug, PartialEq, Eq, Structural)]
pub struct Arms {
    pub up: bool,
    pub down: bool,
    pub left: bool,
    pub right: bool,
}

#[derive(Clone, Copy, Debug, PartialEq, Eq, Structural)]
pub struct BorderCell {
    pub x: u16,
    pub y: u16,
    pub flags: Arms,
}

/// The borders of a layout on a terminal of a given size.
#[derive(Debug)]
pub struct BorderCache {
    pub inner: Rect,
    pub pane_rects: HashMap<usize, Rect>,
    pub pane_order: Vec<usize>,
    pub cells: Vec<BorderCell>,
}

impl BorderCache {
    pub fn pane_rects(&self) -> (r: &HashMap<usize, Rect>)
        ensures
            *r == self.pane_rects,
    {
        &self.pane_rects
    }

    pub fn inner(&self) -> (r: &Rect)
        ensures
            *r == self.inner,
    {
        &self.inner
    }

    pub fn pane_order(&self) -> (r: &Vec<usize>)
        ensures
            *r == self.pane_order,
    {
        &self.pane_order
    }
}

/// Tells whether a cell lies on a line.
pub open spec fn on_line(l: SepLine, x: int, y: int) -> bool {
    if l.horizontal {
        y == l.y && l.x <= x < l.x + l.length
    } else {
        x == l.x && l.y <= y < l.y + l.length
    }
}

/// Tells whether a cell lies on one of the lines.
pub open spec fn on_lines(lines: Seq<SepLine>, x: int, y: int) -> bool {
    exists|i: int| 0 <= i < lines.len() && #[trigger] on_line(lines[i], x, y)
}

/// A cell has an arm towards each neighbour that it shares a line with.
pub open spec fn arms(lines: Seq<SepLine>, x: int, y: int) -> Arms {
    Arms {
        up: exists|i: int|
            0 <= i < lines.len() && !lines[i].horizontal && #[trigger] on_line(lines[i], x, y)
                && on_line(lines[i], x, y - 1),
        down: exists|i: int|
            0 <= i < lines.len() && !lines[i].horizontal && #[trigger] on_line(lines[i], x, y)
                && on_line(lines[i], x, y + 1),
        left: exists|i: int|
            0 <= i < lines.len() && lines[i].horizontal && #[trigger] on_line(lines[i], x, y)
                && on_line(lines[i], x - 1, y),
        right: exists|i: int|
            0 <= i < lines.len() && lines[i].horizontal && #[trigger] on_line(lines[i], x, y)
                && on_line(lines[i], x + 1, y),
    }
}

fn arms_at(lines: &Vec<SepLine>, x: u16, y: u16) -> (r: Arms)
    ensures
        r == arms(lines@, x as int, y as int),
{
    let mut a = Arms { up: false, down: false, left: false, right: false };
    let mut i: usize = 0;
    while i < lines.len()
        invariant
            i <= lines@.len(),
            a == arms(lines@.take(i as int), x as int, y as int),
        decreases lines@.len() - i,
    {
        let l = &lines[i];
        let ghost before = a;
        let ghost s = lines@.take(i as int);
        let ghost t = lines@.take(i + 1);
        if l.horizontal {
            if y == l.y && l.x <= x && (x as u32) < l.x as u32 + l.length as u32 {
                if x > l.x {
                    a.left = true;
                }
                if (x as u32) + 1 < l.x as u32 + l.length as u32 {
                    a.right = true;
                }
            }
        } else {
            if x == l.x && l.y <= y && (y as u32) < l.y as u32 + l.length as u32 {
                if y > l.y {
                    a.up = true;
                }
                if (y as u32) + 1 < l.y as u32 + l.length as u32 {
                    a.down = true;
                }
            }
        }
        proof {
            lemma_arms_push(s, lines@[i as int], x as int, y as int);
            assert(t =~= s.push(lines@[i as int]));
        }
        i += 1;
    }
    assert(lines@.take(lines@.len() as int) =~= lines@);
    a
}

proof fn lemma_arms_push(s: Seq<SepLine>, l: SepLine, x: int, y: int)
    ensures
        ({
            let a = arms(s, x, y);
            let b = arms(s.push(l), x, y);
            let on = on_line(l, x, y);
            &&& b.up == (a.up || (!l.horizontal && on && on_line(l, x, y - 1)))
            &&& b.down == (a.down || (!l.horizontal && on && on_line(l, x, y + 1)))
            &&& b.left == (a.left || (l.horizontal && on && on_line(l, x - 1, y)))
            &&& b.right == (a.right || (l.horizontal && on && on_line(l, x + 1, y)))
        }),
{
    let t = s.push(l);
    assert(t[s.len() as int] == l);
    assert forall|i: int| 0 <= i < s.len() implies t[i] == s[i] by {}
    let a = arms(s, x, y);
    let b = arms(t, x, y);
    if a.up {
        let i = choose|i: int|
            0 <= i < s.len() && !s[i].horizontal && #[trigger] on_line(s[i], x, y) && on_line(
                s[i],
                x,
                y - 1,
            );
        assert(on_line(t[i], x, y));
    }
    if a.down {
        let i = choose|i: int|
            0 <= i < s.len() && !s[i].horizontal && #[trigger] on_line(s[i], x, y) && on_line(
                s[i],
                x,
                y + 1,
            );
        assert(on_line(t[i], x, y));
    }
    if a.left {
        let i = choose|i: int|
            0 <= i < s.len() && s[i].horizontal && #[trigger] on_line(s[i], x, y) && on_line(
                s[i],
                x - 1,
                y,
            );
        assert(on_line(t[i], x, y));
    }
    if a.right {
        let i = choose|i: int|
            0 <= i < s.len() && s[i].horizontal && #[trigger] on_line(s[i], x, y) && on_line(
                s[i],
                x + 1,
                y,
            );
        assert(on_line(t[i], x, y));
    }
    assert(on_line(l, x, y) ==> on_line(t[s.len() as int], x, y));
    if b.up {
        let i = choose|i: int|
            0 <= i < t.len() && !t[i].horizontal && #[trigger] on_line(t[i], x, y) && on_line(
                t[i],
                x,
                y - 1,
            );
        if i < s.len() {
            assert(on_line(s[i], x, y));
        }
    }
    if b.down {
        let i = choose|i: int|
            0 <= i < t.len() && !t[i].horizontal && #[trigger] on_line(t[i], x, y) && on_line(
                t[i],
                x,
                y + 1,
            );
        if i < s.len() {
            assert(on_line(s[i], x, y));
        }
    }
    if b.left {
        let i = choose|i: int|
            0 <= i < t.len() && t[i].horizontal && #[trigger] on_line(t[i], x, y) && on_line(
                t[i],
                x - 1,
                y,
            );
        if i < s.len() {
            assert(on_line(s[i], x, y));
        }
    }
    if b.right {
        let i = choose|i: int|
            0 <= i < t.len() && t[i].horizontal && #[trigger] on_line(t[i], x, y) && on_line(
                t[i],
                x + 1,
                y,
            );
        if i < s.len() {
            assert(on_line(s[i], x, y));
        }
    }
}

/// The cells are those of the lines, each once, with its arms.
pub open spec fn cells_of(cells: Seq<BorderCell>, lines: Seq<SepLine>) -> bool {
    &&& forall|i: int|
        0 <= i < cells.len() ==> {
            let c = #[trigger] cells[i];
            on_lines(lines, c.x as int, c.y as int) && c.flags == arms(
                lines,
                c.x as int,
                c.y as int,
            )
        }
    &&& forall|i: int, j: int|
        0 <= i < j < cells.len() ==> (#[trigger] cells[i]).x != (#[trigger] cells[j]).x
            || cells[i].y != cells[j].y
    &&& forall|x: u16, y: u16| #[trigger]
        on_lines(lines, x as int, y as int) ==> has_cell(cells, x, y)
}

pub open spec fn has_cell(cells: Seq<BorderCell>, x: u16, y: u16) -> bool {
    exists|i: int| 0 <= i < cells.len() && (#[trigger] cells[i]).x == x && cells[i].y == y
}

fn find_cell(cells: &Vec<BorderCell>, x: u16, y: u16) -> (r: bool)
    ensures
        r == has_cell(cells@, x, y),
{
    let mut i: usize = 0;
    while i < cells.len()
        invariant
            i <= cells@.len(),
            forall|j: int|
                0 <= j < i ==> (#[trigger] cells@[j]).x != x || cells@[j].y != y,
        decreases cells@.len() - i,
    {
        if cells[i].x == x && cells[i].y == y {
            assert(cells@[i as int].x == x);
            return true;
        }
        i += 1;
    }
    false
}

/// The cells of the lines.
pub fn collect_cells(lines: &Vec<SepLine>) -> (r: Vec<BorderCell>)
    requires
        forall|i: int| 0 <= i < lines@.len() ==> layout::line_fits(#[trigger] lines@[i]),
    ensures
        cells_of(r@, lines@),
{
    let mut cells: Vec<BorderCell> = Vec::new();
    let mut i: usize = 0;
    while i < lines.len()
        invariant
            i <= lines@.len(),
            forall|k: int| 0 <= k < lines@.len() ==> layout::line_fits(#[trigger] lines@[k]),
            some_cells(cells@, lines@),
            forall|k: int, x: u16, y: u16|
                0 <= k < i && #[trigger] on_line(lines@[k], x as int, y as int) ==> has_cell(
                    cells@,
                    x,
                    y,
                ),
        decreases lines@.len() - i,
    {
        let l = lines[i];
        assert(layout::line_fits(lines@[i as int]));
        let mut step: u16 = 0;
        while step < l.length
            invariant
                i < lines@.len(),
                l == lines@[i as int],
                layout::line_fits(l),
                step <= l.length,
                some_cells(cells@, lines@),
                forall|k: int, x: u16, y: u16|
                    0 <= k < i && #[trigger] on_line(lines@[k], x as int, y as int) ==> has_cell(
                        cells@,
                        x,
                        y,
                    ),
                forall|d: u16|
                    d < step ==> #[trigger] has_cell(cells@, line_x(l, d), line_y(l, d)),
            decreases l.length - step,
        {
            let (x, y): (u16, u16) = if l.horizontal {
                (l.x + step, l.y)
            } else {
                (l.x, l.y + step)
            };
            assert(x == line_x(l, step) && y == line_y(l, step));
            let ghost before = cells@;
            assert(on_line(lines@[i as int], x as int, y as int));
            if !find_cell(&cells, x, y) {
                let flags = arms_at(lines, x, y);
                cells.push(BorderCell { x, y, flags });
                proof {
                    lemma_cells_push(before, BorderCell { x, y, flags }, lines@);
                }
            }
            proof {
                assert forall|a: u16, b: u16| has_cell(before, a, b) implies has_cell(
                    cells@,
                    a,
                    b,
                ) by {
                    let j = choose|j: int|
                        0 <= j < before.len() && (#[trigger] before[j]).x == a && before[j].y == b;
                    assert(cells@[j] == before[j]);
                }
                assert(has_cell(cells@, x, y)) by {
                    if cells@.len() > before.len() {
                        assert(cells@[before.len() as int].x == x);
                    }
                }
                assert forall|d: u16| d < step + 1 implies #[trigger] has_cell(
                    cells@,
                    line_x(l, d),
                    line_y(l, d),
                ) by {
                    if d < step {
                        assert(has_cell(before, line_x(l, d), line_y(l, d)));
                    }
                }
            }
            step = step + 1;
        }
        proof {
            assert forall|k: int, x: u16, y: u16|
                0 <= k < i + 1 && #[trigger] on_line(
                    lines@[k],
                    x as int,
                    y as int,
                ) implies has_cell(cells@, x, y) by {
                if k == i {
                    let d = if l.horizontal {
                        (x - l.x) as u16
                    } else {
                        (y - l.y) as u16
                    };
                    assert(has_cell(cells@, line_x(l, d), line_y(l, d)));
                }
            }
        }
        i += 1;
    }
    proof {
        assert forall|x: u16, y: u16| #[trigger] on_lines(
            lines@,
            x as int,
            y as int,
        ) implies has_cell(cells@, x, y) by {
            let k = choose|k: int|
                0 <= k < lines@.len() && #[trigger] on_line(lines@[k], x as int, y as int);
            assert(on_line(lines@[k], x as int, y as int));
        }
    }
    cells
}

spec fn line_x(l: SepLine, d: u16) -> u16 {
    if l.horizontal {
        (l.x + d) as u16
    } else {
        l.x
    }
}

spec fn line_y(l: SepLine, d: u16) -> u16 {
    if l.horizontal {
        l.y
    } else {
        (l.y + d) as u16
    }
}

/// The cells lie on the lines, each once, with its arms.
spec fn some_cells(cells: Seq<BorderCell>, lines: Seq<SepLine>) -> bool {
    &&& forall|i: int|
        0 <= i < cells.len() ==> {
            let c = #[trigger] cells[i];
            on_lines(lines, c.x as int, c.y as int) && c.flags == arms(
                lines,
                c.x as int,
                c.y as int,
            )
        }
    &&& forall|i: int, j: int|
        0 <= i < j < cells.len() ==> (#[trigger] cells[i]).x != (#[trigger] cells[j]).x
            || cells[i].y != cells[j].y
}

proof fn lemma_cells_push(cells: Seq<BorderCell>, c: BorderCell, lines: Seq<SepLine>)
    requires
        some_cells(cells, lines),
        !has_cell(cells, c.x, c.y),
        on_lines(lines, c.x as int, c.y as int),
        c.flags == arms(lines, c.x as int, c.y as int),
    ensures
        some_cells(cells.push(c), lines),
{
    let t = cells.push(c);
    assert forall|i: int, j: int| 0 <= i < j < t.len() implies (#[trigger] t[i]).x != (
    #[trigger] t[j]).x || t[i].y != t[j].y by {
        assert(t[i] == cells[i]);
        if j < cells.len() {
            assert(t[j] == cells[j]);
        }
    }
}

/// The character for a cell with the given arms.
pub open spec fn cell_text(a: Arms, ch: BorderTexts) -> Seq<char> {
    if a.left && a.right {
        if a.up && a.down {
            ch.xj
        } else if a.up {
            ch.bj
        } else if a.down {
            ch.tj
        } else {
            ch.h
        }
    } else if a.left {
        if a.up && a.down {
            ch.rj
        } else if a.up {
            ch.br
        } else if a.down {
            ch.tr
        } else {
            ch.h
        }
    } else if a.right {
        if a.up && a.down {
            ch.lj
        } else if a.up {
            ch.bl
        } else if a.down {
            ch.tl
        } else {
            ch.h
        }
    } else if a.up || a.down {
        ch.v
    } else {
        " "@
    }
}

pub fn border_char(flags: &Arms, ch: &BorderChars) -> (r: &'static str)
    ensures
        r@ == cell_text(*flags, ch@),
{
    match (flags.left, flags.right, flags.up, flags.down) {
        (true, true, true, true) => ch.xj,
        (true, true, false, false) => ch.h,
        (false, false, true, true) => ch.v,
        (false, true, false, true) => ch.tl,
        (true, false, false, true) => ch.tr,
        (false, true, true, false) => ch.bl,
        (true, false, true, false) => ch.br,
        (true, true, false, true) => ch.tj,
        (true, true, true, false) => ch.bj,
        (true, false, true, true) => ch.rj,
        (false, true, true, true) => ch.lj,
        (false, true, false, false) => ch.h,
        (true, false, false, false) => ch.h,
        (false, false, false, true) => ch.v,
        (false, false, true, false) => ch.v,
        (false, false, false, false) => " ",
    }
}

/// The frame around the whole screen.
pub open spec fn outer_rect(show_status_bar: bool, term_w: u16, term_h: u16) -> Rect {
    Rect {
        x: 0,
        y: 0,
        w: term_w,
        h: layout::minus(
            term_h as int,
            if show_status_bar {
                1
            } else {
                0
            },
        ) as u16,
    }
}

/// The area inside the frame, which the panes share.
pub open spec fn inner_rect(show_status_bar: bool, term_w: u16, term_h: u16) -> Rect {
    let outer = outer_rect(show_status_bar, term_w, term_h);
    Rect {
        x: 1,
        y: 1,
        w: layout::minus(term_w as int, 2) as u16,
        h: layout::minus(outer.h as int, 2) as u16,
    }
}

/// The four lines of the frame, where there is room for one.
pub open spec fn frame_lines(outer: Rect) -> Seq<SepLine> {
    if outer.w > 0 && outer.h > 0 {
        seq![
            SepLine { horizontal: true, x: outer.x, y: outer.y, length: outer.w },
            SepLine {
                horizontal: true,
                x: outer.x,
                y: (outer.y + outer.h - 1) as u16,
                length: outer.w,
            },
            SepLine { horizontal: false, x: outer.x, y: outer.y, length: outer.h },
            SepLine {
                horizontal: false,
                x: (outer.x + outer.w - 1) as u16,
                y: outer.y,
                length: outer.h,
            },
        ]
    } else {
        seq![]
    }
}

/// The lines of a layout: the frame, then the separators of its splits.
pub open spec fn border_lines(l: Layout, show_status_bar: bool, term_w: u16, term_h: u16) -> Seq<SepLine> {
    let outer = outer_rect(show_status_bar, term_w, term_h);
    let inner = inner_rect(show_status_bar, term_w, term_h);
    frame_lines(outer) + layout::seps(l.root, inner, outer)
}

/// The area that the panes share.
pub fn make_inner(term_w: u16, term_h: u16, show_status_bar: bool) -> (r: Rect)
    ensures
        r == inner_rect(show_status_bar, term_w, term_h),
        r.fits(),
{
    let status_h: u16 = if show_status_bar {
        1
    } else {
        0
    };
    let border_h: u16 = if term_h >= status_h {
        term_h - status_h
    } else {
        0
    };
    Rect {
        x: 1,
        y: 1,
        w: if term_w >= 2 {
            term_w - 2
        } else {
            0
        },
        h: if border_h >= 2 {
            border_h - 2
        } else {
            0
        },
    }
}

/// Works out the borders of a layout.
pub fn build_border_cache(
    l: &Layout,
    show_status_bar: bool,
    term_w: u16,
    term_h: u16,
) -> (r: BorderCache)
    requires
        l.wf(),
    ensures
        r.inner == inner_rect(show_status_bar, term_w, term_h),
        r.pane_rects@ == layout::rect_map(l.root, r.inner),
        r.pane_order@ == layout::ids(l.root),
        cells_of(r.cells@, border_lines(*l, show_status_bar, term_w, term_h)),
{
    let inner = make_inner(term_w, term_h, show_status_bar);
    let status_h: u16 = if show_status_bar {
        1
    } else {
        0
    };
    let border_h: u16 = if term_h >= status_h {
        term_h - status_h
    } else {
        0
    };
    let outer = Rect { x: 0, y: 0, w: term_w, h: border_h };
    let pane_rects = l.pane_rects(&inner);
    let pane_order = l.pane_ids();
    let mut lines: Vec<SepLine> = Vec::new();
    if outer.w > 0 && outer.h > 0 {
        lines.push(SepLine { horizontal: true, x: 0, y: 0, length: outer.w });
        lines.push(SepLine { horizontal: true, x: 0, y: outer.h - 1, length: outer.w });
        lines.push(SepLine { horizontal: false, x: 0, y: 0, length: outer.h });
        lines.push(SepLine { horizontal: false, x: outer.w - 1, y: 0, length: outer.h });
    }
    let mut separators = l.separators(&inner, &outer);
    proof {
        assert(lines@ =~= frame_lines(outer));
        layout::separators_fit(l.root, inner, outer);
    }
    let ghost frame = lines@;
    let ghost rest = separators@;
    lines.append(&mut separators);
    assert forall|i: int| 0 <= i < lines@.len() implies layout::line_fits(#[trigger] lines@[i]) by {
        if i < frame.len() {
            assert(lines@[i] == frame[i]);
        } else {
            assert(lines@[i] == rest[i - frame.len()]);
        }
    }
    let cells = collect_cells(&lines);
    BorderCache { inner, pane_rects, pane_order, cells }
}

/// Tells whether a cell lies on the border around a pane.
pub open spec fn around(x: int, y: int, r: Rect) -> bool {
    let top = layout::minus(r.y as int, 1);
    let bot = r.y + r.h;
    let left = layout::minus(r.x as int, 1);
    let right = r.x + r.w;
    ((y == top || y == bot) && left <= x <= right) || ((x == left || x == right) && top <= y <= bot)
}

pub fn is_pane_border(x: u16, y: u16, r: &Rect) -> (b: bool)
    requires
        r.fits(),
    ensures
        b == around(x as int, y as int, *r),
{
    let top: u16 = if r.y > 0 {
        r.y - 1
    } else {
        0
    };
    let bot: u16 = r.y + r.h;
    let left: u16 = if r.x > 0 {
        r.x - 1
    } else {
        0
    };
    let right: u16 = r.x + r.w;
    ((y == top || y == bot) && x >= left && x <= right) || ((x == left || x == right) && y >= top
        && y <= bot)
}

// ─── Buttons in the title of a pane ────────────────────────

/// What a click on a title asks for.
#[derive(Clone, Copy, Debug, PartialEq, Eq, Structural)]
pub enum TitleAction {
    Close(usize),
    SplitH(usize),
    SplitV(usize),
}

/// The button of one pane at a cell. A wide title has three buttons of three
/// cells each at its right end, a narrow one a close button of two cells.
pub open spec fn button_at(id: usize, r: Rect, x: u16, y: u16) -> Option<TitleAction> {
    let base = r.x + r.w;
    if y != layout::minus(r.y as int, 1) {
        None
    } else if r.w >= 14 {
        if base - 3 <= x <= base - 1 {
            Some(TitleAction::Close(id))
        } else if base - 7 <= x <= base - 5 {
            Some(TitleAction::SplitV(id))
        } else if base - 11 <= x <= base - 9 {
            Some(TitleAction::SplitH(id))
        } else {
            None
        }
    } else if r.w >= 4 {
        if base - 2 <= x <= base - 1 {
            Some(TitleAction::Close(id))
        } else {
            None
        }
    } else {
        None
    }
}

/// The button at a cell, of the first of the panes `..k` that has one there.
pub open spec fn first_button(
    all: Seq<usize>,
    rects: Map<usize, Rect>,
    x: u16,
    y: u16,
    k: nat,
) -> Option<TitleAction>
    decreases k,
{
    if k == 0 {
        None
    } else {
        match first_button(all, rects, x, y, (k - 1) as nat) {
            Some(a) => Some(a),
            None => button_at(all[k - 1], rects[all[k - 1]], x, y),
        }
    }
}

pub open spec fn title_button(node: layout::LayoutNode, x: u16, y: u16, inner: Rect) -> Option<
    TitleAction,
> {
    let all = layout::ids(node);
    first_button(all, layout::rect_map(node, inner), x, y, all.len())
}

fn read_button(id: usize, r: &Rect, x: u16, y: u16) -> (a: Option<TitleAction>)
    requires
        r.fits(),
    ensures
        a == button_at(id, *r, x, y),
{
    let btn_y: u16 = if r.y > 0 {
        r.y - 1
    } else {
        0
    };
    if y != btn_y {
        return None;
    }
    let base: u16 = r.x + r.w;
    if r.w >= 14 {
        if x >= base - 3 && x <= base - 1 {
            return Some(TitleAction::Close(id));
        }
        if x >= base - 7 && x <= base - 5 {
            return Some(TitleAction::SplitV(id));
        }
        if x >= base - 11 && x <= base - 9 {
            return Some(TitleAction::SplitH(id));
        }
        None
    } else if r.w >= 4 {
        if x >= base - 2 && x <= base - 1 {
            return Some(TitleAction::Close(id));
        }
        None
    } else {
        None
    }
}

proof fn lemma_button_stays(
    all: Seq<usize>,
    rects: Map<usize, Rect>,
    x: u16,
    y: u16,
    i: nat,
    k: nat,
)
    requires
        i <= k,
        first_button(all, rects, x, y, i) is Some,
    ensures
        first_button(all, rects, x, y, k) == first_button(all, rects, x, y, i),
    decreases k - i,
{
    if i < k {
        lemma_button_stays(all, rects, x, y, i, (k - 1) as nat);
    }
}

/// The title button at a cell of the screen.
pub fn title_button_hit(x: u16, y: u16, l: &Layout, inner: &Rect) -> (r: Option<TitleAction>)
    requires
        l.wf(),
        inner.fits(),
    ensures
        r == title_button(l.root, x, y, *inner),
{
    let rects = l.pane_rects(inner);
    let all = l.pane_ids();
    proof {
        layout::rects_inside(l.root, *inner);
    }
    let mut i: usize = 0;
    while i < all.len()
        invariant
            i <= all@.len(),
            all@ == layout::ids(l.root),
            rects@ == layout::rect_map(l.root, *inner),
            rects@.dom() =~= all@.to_set(),
            forall|id: usize| #[trigger] rects@.contains_key(id) ==> rects@[id].inside(*inner),
            inner.fits(),
            first_button(all@, rects@, x, y, i as nat) is None,
        decreases all@.len() - i,
    {
        let id: usize = all[i];
        assert(all@.to_set().contains(id)) by {
            assert(all@[i as int] == id);
        }
        assert(rects@.contains_key(id));
        if let Some(rect) = rects.get(&id) {
            assert(rect.fits());
            match read_button(id, rect, x, y) {
                Some(a) => {
                    proof {
                        lemma_button_stays(all@, rects@, x, y, (i + 1) as nat, all@.len());
                    }
                    return Some(a);
                },
                None => {},
            }
        }
        i += 1;
    }
    None
}

} // verus!
