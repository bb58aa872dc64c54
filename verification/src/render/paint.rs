//! Drawing of panes, titles and the status bar.

use std::collections::{HashMap, HashSet};

use vstd::prelude::*;
use vstd::string::*;

use crate::layout;
use crate::layout::{Layout, Rect};
use crate::render;
use crate::render::screen;
use crate::render::{
    border_char, is_pane_border, print, print_times, put, BorderCache, BorderCell, BorderChars,
    BorderStyle, Color, Draw, DrawOp,
};
use crate::text;

verus! {

broadcast use vstd::std_specs::hash::group_hash_axioms;

/// A colour of the terminal emulator.
#[derive(Clone, Copy, Debug, PartialEq, Eq, Structural)]
pub enum CellColor {
    Default,
    Idx(u8),
    Rgb(u8, u8, u8),
}

pub open spec fn paint(c: CellColor) -> Color {
    match c {
        CellColor::Default => Color::Reset,
        CellColor::Idx(i) => Color::AnsiValue(i),
        CellColor::Rgb(r, g, b) => Color::Rgb { r, g, b },
    }
}

/// The colour that a cell of the terminal emulator is drawn in.
pub fn vt100_to_crossterm(color: CellColor) -> (r: Color)
    ensures
        r == paint(color),
{
    match color {
        CellColor::Default => Color::Reset,
        CellColor::Idx(i) => Color::AnsiValue(i),
        CellColor::Rgb(r, g, b) => Color::Rgb { r, g, b },
    }
}

/// One cell on the screen of a pane.
#[derive(Clone, Debug)]
pub struct ScreenCell {
    pub contents: String,
    pub fg: CellColor,
    pub bg: CellColor,
    pub bold: bool,
    pub italic: bool,
    pub underline: bool,
    pub inverse: bool,
}

/// What is drawn of a pane.
#[derive(Debug)]
pub struct PaneShot {
    pub alive: bool,
    /// The cells by row and column.
    pub cells: Vec<Vec<ScreenCell>>,
    /// Row and column of the cursor.
    pub cursor: (u16, u16),
}

#[verifier::allow_in_spec]
pub fn status_bg() -> Color
    returns
        (Color::Rgb { r: 30, g: 30, b: 30 }),
{
    Color::Rgb { r: 30, g: 30, b: 30 }
}

#[verifier::allow_in_spec]
pub fn muted_fg() -> Color
    returns
        (Color::Rgb { r: 100, g: 100, b: 110 }),
{
    Color::Rgb { r: 100, g: 100, b: 110 }
}

#[verifier::allow_in_spec]
pub fn mode_bg() -> Color
    returns
        (Color::Rgb { r: 60, g: 40, b: 10 }),
{
    Color::Rgb { r: 60, g: 40, b: 10 }
}

#[verifier::allow_in_spec]
pub fn mode_fg() -> Color
    returns
        (Color::Rgb { r: 255, g: 200, b: 50 }),
{
    Color::Rgb { r: 255, g: 200, b: 50 }
}

// ─── Clearing ──────────────────────────────────────────────

/// `n` blank cells.
pub open spec fn blanks(n: nat) -> Seq<Draw>
    decreases n,
{
    if n == 0 {
        seq![]
    } else {
        blanks((n - 1) as nat) + seq![Draw::ResetColor, Draw::Print(" "@)]
    }
}

fn put_blanks(ops: &mut Vec<DrawOp>, n: u16)
    ensures
        render::drawn(final(ops)@) == render::drawn(old(ops)@) + blanks(n as nat),
{
    let mut i: u16 = 0;
    assert(render::drawn(ops@) + blanks(0) =~= render::drawn(ops@));
    while i < n
        invariant
            i <= n,
            render::drawn(ops@) == render::drawn(old(ops)@) + blanks(i as nat),
        decreases n - i,
    {
        put(ops, DrawOp::ResetColor);
        print(ops, " ");
        i += 1;
        assert(render::drawn(ops@) =~= render::drawn(old(ops)@) + blanks(i as nat));
    }
}

/// The first `k` rows of a rectangle, blanked.
pub open spec fn blank_rows(r: Rect, k: nat) -> Seq<Draw>
    decreases k,
{
    if k == 0 {
        seq![]
    } else {
        blank_rows(r, (k - 1) as nat) + seq![Draw::MoveTo(r.x, (r.y + k - 1) as u16)] + blanks(
            r.w as nat,
        )
    }
}

pub open spec fn cleared_rect(r: Rect) -> Seq<Draw> {
    if r.w == 0 {
        seq![]
    } else {
        blank_rows(r, r.h as nat)
    }
}

pub fn clear_rect(ops: &mut Vec<DrawOp>, rect: &Rect)
    requires
        rect.fits(),
    ensures
        render::drawn(final(ops)@) == render::drawn(old(ops)@) + cleared_rect(*rect),
{
    if rect.w == 0 {
        assert(render::drawn(ops@) + seq![] =~= render::drawn(ops@));
        return;
    }
    let mut row: u16 = 0;
    assert(render::drawn(ops@) + blank_rows(*rect, 0) =~= render::drawn(ops@));
    while row < rect.h
        invariant
            row <= rect.h,
            rect.fits(),
            render::drawn(ops@) == render::drawn(old(ops)@) + blank_rows(*rect, row as nat),
        decreases rect.h - row,
    {
        put(ops, DrawOp::MoveTo(rect.x, rect.y + row));
        put_blanks(ops, rect.w);
        row += 1;
        assert(render::drawn(ops@) =~= render::drawn(old(ops)@) + blank_rows(*rect, row as nat));
    }
}

pub open spec fn cleared_title(r: Rect) -> Seq<Draw> {
    if r.w == 0 {
        seq![]
    } else {
        seq![Draw::MoveTo(r.x, layout::minus(r.y as int, 1) as u16)] + blanks(r.w as nat)
    }
}

fn above(y: u16) -> (r: u16)
    ensures
        r == layout::minus(y as int, 1),
{
    if y > 0 {
        y - 1
    } else {
        0
    }
}

pub fn clear_title(ops: &mut Vec<DrawOp>, rect: &Rect)
    ensures
        render::drawn(final(ops)@) == render::drawn(old(ops)@) + cleared_title(*rect),
{
    if rect.w == 0 {
        assert(render::drawn(ops@) + seq![] =~= render::drawn(ops@));
        return;
    }
    put(ops, DrawOp::MoveTo(rect.x, above(rect.y)));
    put_blanks(ops, rect.w);
    assert(render::drawn(ops@) =~= render::drawn(old(ops)@) + cleared_title(*rect));
}

// ─── Titles ────────────────────────────────────────────────

/// The title of the pane with the display index `idx`.
pub open spec fn title_text(idx: nat, alive: bool) -> Seq<char> {
    seq![' '] + text::decimal(idx + 1) + if alive {
        " "@
    } else {
        " [exited] "@
    }
}

/// How many cells the buttons of a title take: three buttons, a close button
/// alone, or none.
pub open spec fn buttons_len(avail: int, title: int) -> int {
    if avail >= title + 14 {
        12
    } else if avail >= title + 4 {
        2
    } else {
        0
    }
}

/// The buttons of a title.
pub open spec fn buttons(len: int, active: bool) -> Seq<Draw> {
    if len == 12 {
        seq![
            Draw::Foreground(
                if active {
                    muted_fg()
                } else {
                    Color::DarkGrey
                },
            ),
            Draw::Print("[━] [┃] "@),
            Draw::Foreground(Color::DarkRed),
            Draw::Print("[×]"@),
        ]
    } else if len == 2 {
        seq![Draw::Foreground(Color::DarkRed), Draw::Print(" ×"@)]
    } else {
        seq![]
    }
}

/// The beginning of a title line: a piece of the border and the title.
pub open spec fn title_head(r: Rect, title: Seq<char>, active: bool, alive: bool, h: Seq<char>) -> Seq<Draw> {
    let color = if active {
        Color::Cyan
    } else {
        Color::DarkGrey
    };
    seq![
        Draw::MoveTo(r.x, layout::minus(r.y as int, 1) as u16),
        Draw::Foreground(color),
        Draw::Print(h),
    ] + (if active {
        seq![Draw::Foreground(Color::White), Draw::Bold]
    } else {
        seq![]
    }) + (if alive {
        seq![]
    } else {
        seq![Draw::Foreground(Color::DarkGrey)]
    }) + seq![Draw::Print(title), Draw::ResetAttributes, Draw::Foreground(color)]
}

/// The title line of a pane; nothing where it has fewer than four cells.
pub open spec fn pane_title(r: Rect, idx: nat, active: bool, alive: bool, h: Seq<char>) -> Seq<Draw> {
    let title = title_text(idx, alive);
    let avail = r.w as int;
    let right = buttons_len(avail, title.len() as int);
    if avail < 4 {
        seq![]
    } else if avail < title.len() + 1 + right {
        seq![Draw::ResetColor]
    } else {
        title_head(r, title, active, alive, h) + render::repeated(h, (avail - title.len() - 1 - right) as nat) + buttons(right, active)
            + seq![Draw::ResetColor]
    }
}

fn make_title(idx: usize, alive: bool) -> (r: String)
    requires
        idx < usize::MAX,
    ensures
        r@ == title_text(idx as nat, alive),
{
    let mut s = String::new();
    s.push(' ');
    s.append(text::decimal_text((idx + 1) as u128).as_str());
    s.append(
        if alive {
            " "
        } else {
            " [exited] "
        },
    );
    assert(s@ =~= title_text(idx as nat, alive));
    s
}

fn put_buttons(ops: &mut Vec<DrawOp>, len: usize, active: bool)
    ensures
        render::drawn(final(ops)@) == render::drawn(old(ops)@) + buttons(len as int, active),
{
    if len == 12 {
        let fg = if active {
            muted_fg()
        } else {
            Color::DarkGrey
        };
        put(ops, DrawOp::Foreground(fg));
        print(ops, "[━] [┃] ");
        put(ops, DrawOp::Foreground(Color::DarkRed));
        print(ops, "[×]");
    } else if len == 2 {
        put(ops, DrawOp::Foreground(Color::DarkRed));
        print(ops, " ×");
    }
    assert(render::drawn(ops@) =~= render::drawn(old(ops)@) + buttons(len as int, active));
}

fn put_title_head(
    ops: &mut Vec<DrawOp>,
    rect: &Rect,
    title: &str,
    is_active: bool,
    is_alive: bool,
    h: &str,
)
    ensures
        render::drawn(final(ops)@) == render::drawn(old(ops)@) + title_head(
            *rect,
            title@,
            is_active,
            is_alive,
            h@,
        ),
{
    let color = if is_active {
        Color::Cyan
    } else {
        Color::DarkGrey
    };
    put(ops, DrawOp::MoveTo(rect.x, above(rect.y)));
    put(ops, DrawOp::Foreground(color));
    print(ops, h);
    if is_active {
        put(ops, DrawOp::Foreground(Color::White));
        put(ops, DrawOp::Bold);
    }
    if !is_alive {
        put(ops, DrawOp::Foreground(Color::DarkGrey));
    }
    print(ops, title);
    put(ops, DrawOp::ResetAttributes);
    put(ops, DrawOp::Foreground(color));
    assert(render::drawn(ops@) =~= render::drawn(old(ops)@) + title_head(
        *rect,
        title@,
        is_active,
        is_alive,
        h@,
    ));
}

pub fn draw_pane_title(
    ops: &mut Vec<DrawOp>,
    rect: &Rect,
    idx: usize,
    is_active: bool,
    is_alive: bool,
    chars: &BorderChars,
)
    requires
        idx < usize::MAX,
    ensures
        render::drawn(final(ops)@) == render::drawn(old(ops)@) + pane_title(
            *rect,
            idx as nat,
            is_active,
            is_alive,
            chars.h@,
        ),
{
    let avail: usize = rect.w as usize;
    if avail < 4 {
        assert(render::drawn(ops@) + seq![] =~= render::drawn(ops@));
        return;
    }
    let title = make_title(idx, is_alive);
    let tlen: usize = title.as_str().unicode_len();
    let right: usize = if avail >= 14 && avail - 14 >= tlen {
        12
    } else if avail - 4 >= tlen {
        2
    } else {
        0
    };
    assert(right == buttons_len(avail as int, tlen as int));
    if avail < 1 + right || avail - 1 - right < tlen {
        put(ops, DrawOp::ResetColor);
        assert(render::drawn(ops@) =~= render::drawn(old(ops)@) + seq![Draw::ResetColor]);
        return;
    }
    put_title_head(ops, rect, title.as_str(), is_active, is_alive, chars.h);
    print_times(ops, chars.h, avail - tlen - 1 - right);
    put_buttons(ops, right, is_active);
    put(ops, DrawOp::ResetColor);
    proof {
        lemma_chain(
            render::drawn(old(ops)@),
            title_head(*rect, title@, is_active, is_alive, chars.h@),
            render::repeated(chars.h@, (avail - tlen - 1 - right) as nat),
            buttons(right as int, is_active),
            Draw::ResetColor,
        );
    }
}

proof fn lemma_chain(o: Seq<Draw>, a: Seq<Draw>, b: Seq<Draw>, c: Seq<Draw>, x: Draw)
    ensures
        (o + a + b + c).push(x) == o + (a + b + c + seq![x]),
{
    assert((o + a + b + c).push(x) =~= o + (a + b + c + seq![x]));
}

/// The notice on a pane whose program has ended.
pub open spec fn dead_overlay(r: Rect) -> Seq<Draw> {
    if r.w < 5 || r.h < 1 {
        seq![]
    } else {
        seq![
            Draw::MoveTo(
                (r.x + layout::minus(r.w as int, 24) / 2) as u16,
                (r.y + r.h as int / 2) as u16,
            ),
            Draw::Foreground(Color::DarkGrey),
            Draw::Italic,
            Draw::Print("[press Enter to respawn]"@),
            Draw::ResetAttributes,
        ]
    }
}

pub fn draw_dead_overlay(ops: &mut Vec<DrawOp>, rect: &Rect)
    requires
        rect.fits(),
    ensures
        render::drawn(final(ops)@) == render::drawn(old(ops)@) + dead_overlay(*rect),
{
    if rect.w < 5 || rect.h < 1 {
        assert(render::drawn(ops@) + seq![] =~= render::drawn(ops@));
        return;
    }
    let spare: u16 = if rect.w >= 24 {
        rect.w - 24
    } else {
        0
    };
    put(ops, DrawOp::MoveTo(rect.x + spare / 2, rect.y + rect.h / 2));
    put(ops, DrawOp::Foreground(Color::DarkGrey));
    put(ops, DrawOp::Italic);
    print(ops, "[press Enter to respawn]");
    put(ops, DrawOp::ResetAttributes);
    assert(render::drawn(ops@) =~= render::drawn(old(ops)@) + dead_overlay(*rect));
}

// ─── Contents ──────────────────────────────────────────────

/// The state of drawing cells: the colours in force, whether attributes are
/// on, the text not yet printed and the operations so far.
#[verifier::ext_equal]
pub struct Pen {
    pub fg: Color,
    pub bg: Color,
    pub attrs: bool,
    pub buf: Seq<char>,
    pub ops: Seq<Draw>,
}

pub open spec fn has_attrs(c: ScreenCell) -> bool {
    c.bold || c.italic || c.underline || c.inverse
}

/// The text of a cell; a cell without any is a blank.
pub open spec fn cell_chars(c: ScreenCell) -> Seq<char> {
    if c.contents@.len() == 0 {
        " "@
    } else {
        c.contents@
    }
}

/// Prints the text that was gathered.
pub open spec fn flushed(p: Pen) -> Pen {
    if p.buf.len() == 0 {
        p
    } else {
        Pen { buf: seq![], ops: p.ops.push(Draw::Print(p.buf)), ..p }
    }
}

/// The operations that switch on the attributes of a cell.
pub open spec fn attr_ops(c: ScreenCell) -> Seq<Draw> {
    (if c.bold {
        seq![Draw::Bold]
    } else {
        seq![]
    }) + (if c.italic {
        seq![Draw::Italic]
    } else {
        seq![]
    }) + (if c.underline {
        seq![Draw::Underlined]
    } else {
        seq![]
    }) + (if c.inverse {
        seq![Draw::Reverse]
    } else {
        seq![]
    })
}

/// Draws one cell. Text in one style is gathered; a change of style prints what
/// was gathered first. A cell with attributes is printed by itself. A pane that
/// has ended is drawn in grey, without attributes.
pub open spec fn cell_drawn(p: Pen, c: ScreenCell, alive: bool) -> Pen {
    let fg = if alive {
        paint(c.fg)
    } else {
        Color::DarkGrey
    };
    let bg = paint(c.bg);
    let on = has_attrs(c);
    let q = if fg != p.fg || bg != p.bg || on != p.attrs {
        flushed(p)
    } else {
        p
    };
    let q = if fg != q.fg {
        Pen { fg, ops: q.ops.push(Draw::Foreground(fg)), ..q }
    } else {
        q
    };
    let q = if bg != q.bg {
        Pen { bg, ops: q.ops.push(Draw::Background(bg)), ..q }
    } else {
        q
    };
    if on && alive {
        let q = if q.attrs {
            q
        } else {
            Pen { attrs: true, ops: q.ops + attr_ops(c), ..q }
        };
        Pen { ops: q.ops.push(Draw::Print(cell_chars(c))), ..q }
    } else {
        let q = if q.attrs {
            Pen {
                fg: Color::Reset,
                bg: Color::Reset,
                attrs: false,
                ops: q.ops.push(Draw::ResetAttributes),
                ..q
            }
        } else {
            q
        };
        Pen { buf: q.buf + cell_chars(c), ..q }
    }
}

/// The first `k` cells of a row. A cell that the screen does not have is blank.
pub open spec fn cells_drawn(p: Pen, row: Seq<ScreenCell>, k: nat, alive: bool) -> Pen
    decreases k,
{
    if k == 0 {
        p
    } else {
        let q = cells_drawn(p, row, (k - 1) as nat, alive);
        if k - 1 < row.len() {
            cell_drawn(q, row[k - 1], alive)
        } else {
            Pen { buf: q.buf + " "@, ..q }
        }
    }
}

/// A row of the screen, or no cells where the screen does not have it.
pub open spec fn screen_row(cells: Seq<Vec<ScreenCell>>, r: int) -> Seq<ScreenCell> {
    if r < cells.len() {
        cells[r]@
    } else {
        seq![]
    }
}

/// The first `k` rows of a pane.
pub open spec fn rows_drawn(p: Pen, cells: Seq<Vec<ScreenCell>>, r: Rect, k: nat, alive: bool) -> Pen
    decreases k,
{
    if k == 0 {
        p
    } else {
        let q = rows_drawn(p, cells, r, (k - 1) as nat, alive);
        let q = Pen { ops: q.ops.push(Draw::MoveTo(r.x, (r.y + k - 1) as u16)), ..q };
        flushed(cells_drawn(q, screen_row(cells, k - 1), r.w as nat, alive))
    }
}

/// The contents of a pane.
pub open spec fn content(cells: Seq<Vec<ScreenCell>>, r: Rect, alive: bool) -> Seq<Draw> {
    if r.w == 0 || r.h == 0 {
        seq![]
    } else {
        let start = Pen {
            fg: Color::Reset,
            bg: Color::Reset,
            attrs: false,
            buf: seq![],
            ops: seq![],
        };
        rows_drawn(start, cells, r, r.h as nat, alive).ops + seq![
            Draw::ResetColor,
            Draw::ResetAttributes,
        ]
    }
}

/// The executable state of drawing cells.
struct PenState {
    fg: Color,
    bg: Color,
    attrs: bool,
    buf: String,
    ops: Vec<DrawOp>,
}

impl PenState {
    spec fn pen(self) -> Pen {
        Pen {
            fg: self.fg,
            bg: self.bg,
            attrs: self.attrs,
            buf: self.buf@,
            ops: render::drawn(self.ops@),
        }
    }
}

fn flush(p: &mut PenState)
    ensures
        final(p).pen() == flushed(old(p).pen()),
{
    if !p.buf.as_str().is_empty() {
        let mut taken = String::new();
        std::mem::swap(&mut taken, &mut p.buf);
        put(&mut p.ops, DrawOp::Print(taken));
        assert(p.buf@ =~= seq![]);
    }
}

fn cell_text(c: &ScreenCell) -> (r: &str)
    ensures
        r@ == cell_chars(*c),
{
    if c.contents.as_str().is_empty() {
        " "
    } else {
        c.contents.as_str()
    }
}

fn put_attrs(ops: &mut Vec<DrawOp>, c: &ScreenCell)
    ensures
        render::drawn(final(ops)@) == render::drawn(old(ops)@) + attr_ops(*c),
{
    if c.bold {
        put(ops, DrawOp::Bold);
    }
    if c.italic {
        put(ops, DrawOp::Italic);
    }
    if c.underline {
        put(ops, DrawOp::Underlined);
    }
    if c.inverse {
        put(ops, DrawOp::Reverse);
    }
    assert(render::drawn(ops@) =~= render::drawn(old(ops)@) + attr_ops(*c));
}

fn draw_cell(p: &mut PenState, c: &ScreenCell, alive: bool)
    ensures
        final(p).pen() == cell_drawn(old(p).pen(), *c, alive),
{
    let fg = if alive {
        vt100_to_crossterm(c.fg)
    } else {
        Color::DarkGrey
    };
    let bg = vt100_to_crossterm(c.bg);
    let on = c.bold || c.italic || c.underline || c.inverse;
    if fg != p.fg || bg != p.bg || on != p.attrs {
        flush(p);
    }
    if fg != p.fg {
        put(&mut p.ops, DrawOp::Foreground(fg));
        p.fg = fg;
    }
    if bg != p.bg {
        put(&mut p.ops, DrawOp::Background(bg));
        p.bg = bg;
    }
    if on && alive {
        if !p.attrs {
            put_attrs(&mut p.ops, c);
            p.attrs = true;
        }
        print(&mut p.ops, cell_text(c));
    } else {
        if p.attrs {
            put(&mut p.ops, DrawOp::ResetAttributes);
            p.fg = Color::Reset;
            p.bg = Color::Reset;
            p.attrs = false;
        }
        p.buf.append(cell_text(c));
    }
}

fn draw_row(p: &mut PenState, row: &Vec<ScreenCell>, width: u16, alive: bool)
    ensures
        final(p).pen() == cells_drawn(old(p).pen(), row@, width as nat, alive),
{
    let mut c: u16 = 0;
    while c < width
        invariant
            c <= width,
            p.pen() == cells_drawn(old(p).pen(), row@, c as nat, alive),
        decreases width - c,
    {
        if (c as usize) < row.len() {
            draw_cell(p, &row[c as usize], alive);
        } else {
            p.buf.append(" ");
        }
        c += 1;
    }
}

pub fn draw_content(
    ops: &mut Vec<DrawOp>,
    cells: &Vec<Vec<ScreenCell>>,
    rect: &Rect,
    is_alive: bool,
)
    requires
        rect.fits(),
    ensures
        render::drawn(final(ops)@) == render::drawn(old(ops)@) + content(cells@, *rect, is_alive),
        screen::one_column(cells@) ==> forall|s: screen::Screen|
            #![trigger screen::run(s, render::drawn(final(ops)@))]
            screen::shows_contents(
                screen::run(s, render::drawn(old(ops)@)),
                screen::run(s, render::drawn(final(ops)@)),
                cells@,
                *rect,
            ),
{
    proof {
        if screen::one_column(cells@) {
            let before = render::drawn(ops@);
            let after = before + content(cells@, *rect, is_alive);
            assert forall|s: screen::Screen|
                #![trigger screen::run(s, after)]
                screen::shows_contents(
                    screen::run(s, before),
                    screen::run(s, after),
                    cells@,
                    *rect,
                ) by {
                screen::lemma_run_add(s, before, content(cells@, *rect, is_alive));
                screen::contents_are_shown(
                    screen::run(s, before),
                    cells@,
                    *rect,
                    is_alive,
                );
            }
        }
    }
    if rect.w == 0 || rect.h == 0 {
        assert(render::drawn(ops@) + seq![] =~= render::drawn(ops@));
        return;
    }
    let mut p = PenState {
        fg: Color::Reset,
        bg: Color::Reset,
        attrs: false,
        buf: String::new(),
        ops: Vec::new(),
    };
    let empty: Vec<ScreenCell> = Vec::new();
    let ghost start = p.pen();
    assert(start.ops =~= seq![]);
    assert(start.buf =~= seq![]);
    assert(empty@ =~= seq![]);
    let mut r: u16 = 0;
    while r < rect.h
        invariant
            r <= rect.h,
            rect.fits(),
            empty@ == Seq::<ScreenCell>::empty(),
            p.pen() == rows_drawn(start, cells@, *rect, r as nat, is_alive),
        decreases rect.h - r,
    {
        put(&mut p.ops, DrawOp::MoveTo(rect.x, rect.y + r));
        if (r as usize) < cells.len() {
            draw_row(&mut p, &cells[r as usize], rect.w, is_alive);
        } else {
            draw_row(&mut p, &empty, rect.w, is_alive);
        }
        flush(&mut p);
        r += 1;
    }
    let mut done = p.ops;
    let ghost a = ops@;
    let ghost b = done@;
    ops.append(&mut done);
    assert(render::drawn(a + b) =~= render::drawn(a) + render::drawn(b));
    put(ops, DrawOp::ResetColor);
    put(ops, DrawOp::ResetAttributes);
    assert(render::drawn(ops@) =~= render::drawn(old(ops)@) + content(cells@, *rect, is_alive));
}

// ─── Status bar ────────────────────────────────────────────

pub open spec fn hint_texts() -> Seq<Seq<char>> {
    seq![
        "Ctrl+D/E:split"@,
        "Ctrl+N:next"@,
        "F2:equalize"@,
        "Ctrl+G:settings"@,
        "Ctrl+W:quit"@,
    ]
}

/// The first of the hints `..k` that fit to the right of `left_end` cells, and
/// whether all of them did.
pub open spec fn fitting(k: nat, left_end: nat, w: nat) -> (Seq<char>, bool)
    decreases k,
{
    if k == 0 {
        (seq![], true)
    } else {
        let (t, all) = fitting((k - 1) as nat, left_end, w);
        let hint = hint_texts()[k - 1];
        let longer = if t.len() == 0 {
            hint
        } else {
            t + "  "@ + hint
        };
        if all && longer.len() + left_end + 4 < w {
            (longer, true)
        } else {
            (t, false)
        }
    }
}

pub open spec fn pane_count_text(active_idx: nat, total: nat) -> Seq<char> {
    "Pane "@ + text::decimal(active_idx + 1) + "/"@ + text::decimal(total)
}

/// Where the left part of the status bar ends. The label counts in bytes.
pub open spec fn left_end(active_idx: nat, total: nat, label: Seq<char>) -> nat {
    1 + pane_count_text(active_idx, total).len() + if label.len() == 0 {
        0
    } else {
        vstd::utf8::encode_utf8(label).len() + 2
    }
}

pub open spec fn label_ops(label: Seq<char>) -> Seq<Draw> {
    if label.len() == 0 {
        seq![]
    } else {
        seq![
            Draw::ResetAttributes,
            Draw::Background(mode_bg()),
            Draw::Foreground(mode_fg()),
            Draw::Bold,
            Draw::Print(" "@ + label + " "@),
            Draw::ResetAttributes,
            Draw::Background(status_bg()),
        ]
    }
}

pub open spec fn hint_ops(hints: Seq<char>, term_w: u16, y: u16) -> Seq<Draw> {
    if hints.len() == 0 {
        seq![]
    } else {
        seq![
            Draw::MoveTo(layout::minus(term_w as int, hints.len() as int + 1) as u16, y),
            Draw::Foreground(Color::Grey),
            Draw::Print(hints),
        ]
    }
}

/// The status bar on the last row: the active pane and the number of panes,
/// the mode, and as many hints as fit.
pub open spec fn status_bar(
    term_w: u16,
    term_h: u16,
    active_idx: nat,
    total: nat,
    label: Seq<char>,
) -> Seq<Draw> {
    let y = (term_h - 1) as u16;
    let hints = fitting(5, left_end(active_idx, total, label), term_w as nat).0;
    status_head(term_w, y) + status_left(active_idx, total, y) + label_ops(label) + seq![
        Draw::ResetAttributes,
        Draw::Background(status_bg()),
    ] + hint_ops(hints, term_w, y) + seq![Draw::ResetColor, Draw::ResetAttributes]
}

pub open spec fn status_head(term_w: u16, y: u16) -> Seq<Draw> {
    seq![
        Draw::MoveTo(0, y),
        Draw::Background(status_bg()),
        Draw::Foreground(Color::White),
    ] + render::repeated(" "@, term_w as nat)
}

pub open spec fn status_left(active_idx: nat, total: nat, y: u16) -> Seq<Draw> {
    seq![
        Draw::MoveTo(1, y),
        Draw::Foreground(Color::Cyan),
        Draw::Bold,
        Draw::Print(pane_count_text(active_idx, total)),
    ]
}

fn fit_hints(left: u128, w: u16) -> (r: String)
    ensures
        r@ == fitting(5, left as nat, w as nat).0,
{
    let hints: Vec<&'static str> = vec![
        "Ctrl+D/E:split",
        "Ctrl+N:next",
        "F2:equalize",
        "Ctrl+G:settings",
        "Ctrl+W:quit",
    ];
    assert(hints@.map_values(|s: &'static str| s@) =~= hint_texts());
    let mut t = String::new();
    let mut going = true;
    let mut k: usize = 0;
    assert(t@ =~= seq![]);
    while k < 5
        invariant
            k <= 5,
            hints@.len() == 5,
            hints@.map_values(|s: &'static str| s@) == hint_texts(),
            (t@, going) == fitting(k as nat, left as nat, w as nat),
        decreases 5 - k,
    {
        assert(hints@.map_values(|s: &'static str| s@)[k as int] == hints@[k as int]@);
        if going {
            let mut longer = String::new();
            if !t.as_str().is_empty() {
                longer.append(t.as_str());
                longer.append("  ");
            }
            longer.append(hints[k]);
            proof {
                if t@.len() == 0 {
                    assert(longer@ =~= hint_texts()[k as int]);
                } else {
                    assert(longer@ =~= t@ + "  "@ + hint_texts()[k as int]);
                }
            }
            let n: usize = longer.as_str().unicode_len();
            let room: u128 = w as u128;
            if left < room && (n as u128) < room && n as u128 + left + 4 < room {
                t = longer;
            } else {
                going = false;
            }
        }
        k += 1;
    }
    t
}

fn put_status_head(ops: &mut Vec<DrawOp>, term_w: u16, y: u16)
    ensures
        render::drawn(final(ops)@) == render::drawn(old(ops)@) + status_head(term_w, y),
{
    put(ops, DrawOp::MoveTo(0, y));
    put(ops, DrawOp::Background(status_bg()));
    put(ops, DrawOp::Foreground(Color::White));
    print_times(ops, " ", term_w as usize);
    assert(render::drawn(ops@) =~= render::drawn(old(ops)@) + status_head(term_w, y));
}

fn put_status_left(ops: &mut Vec<DrawOp>, left: &str, y: u16)
    ensures
        render::drawn(final(ops)@) == render::drawn(old(ops)@) + seq![
            Draw::MoveTo(1, y),
            Draw::Foreground(Color::Cyan),
            Draw::Bold,
            Draw::Print(left@),
        ],
{
    put(ops, DrawOp::MoveTo(1, y));
    put(ops, DrawOp::Foreground(Color::Cyan));
    put(ops, DrawOp::Bold);
    print(ops, left);
    assert(render::drawn(ops@) =~= render::drawn(old(ops)@) + seq![
        Draw::MoveTo(1, y),
        Draw::Foreground(Color::Cyan),
        Draw::Bold,
        Draw::Print(left@),
    ]);
}

fn put_label(ops: &mut Vec<DrawOp>, label: &str)
    ensures
        render::drawn(final(ops)@) == render::drawn(old(ops)@) + label_ops(label@) + seq![
            Draw::ResetAttributes,
            Draw::Background(status_bg()),
        ],
{
    if !label.is_empty() {
        let mut s = " ".to_owned();
        s.append(label);
        s.append(" ");
        put(ops, DrawOp::ResetAttributes);
        put(ops, DrawOp::Background(mode_bg()));
        put(ops, DrawOp::Foreground(mode_fg()));
        put(ops, DrawOp::Bold);
        print(ops, s.as_str());
        put(ops, DrawOp::ResetAttributes);
        put(ops, DrawOp::Background(status_bg()));
    }
    assert(render::drawn(ops@) =~= render::drawn(old(ops)@) + label_ops(label@));
    put(ops, DrawOp::ResetAttributes);
    put(ops, DrawOp::Background(status_bg()));
    assert(render::drawn(ops@) =~= render::drawn(old(ops)@) + label_ops(label@) + seq![
        Draw::ResetAttributes,
        Draw::Background(status_bg()),
    ]);
}

fn put_hints(ops: &mut Vec<DrawOp>, hints: &str, term_w: u16, y: u16)
    requires
        hints@.len() < 0xffff,
    ensures
        render::drawn(final(ops)@) == render::drawn(old(ops)@) + hint_ops(hints@, term_w, y)
            + seq![Draw::ResetColor, Draw::ResetAttributes],
{
    if !hints.is_empty() {
        let n: u16 = hints.unicode_len() as u16 + 1;
        let rx: u16 = if term_w >= n {
            term_w - n
        } else {
            0
        };
        put(ops, DrawOp::MoveTo(rx, y));
        put(ops, DrawOp::Foreground(Color::Grey));
        print(ops, hints);
    }
    assert(render::drawn(ops@) =~= render::drawn(old(ops)@) + hint_ops(hints@, term_w, y));
    put(ops, DrawOp::ResetColor);
    put(ops, DrawOp::ResetAttributes);
    assert(render::drawn(ops@) =~= render::drawn(old(ops)@) + hint_ops(hints@, term_w, y) + seq![
        Draw::ResetColor,
        Draw::ResetAttributes,
    ]);
}

proof fn lemma_fitting_len(k: nat, left: nat, w: nat)
    requires
        w <= 0xffff,
    ensures
        fitting(k, left, w).0.len() < 0xffff,
    decreases k,
{
    if k > 0 {
        lemma_fitting_len((k - 1) as nat, left, w);
    }
}

pub fn draw_status_bar(
    ops: &mut Vec<DrawOp>,
    term_w: u16,
    term_h: u16,
    active_idx: usize,
    total: usize,
    mode_label: &str,
)
    requires
        term_h >= 1,
        active_idx < usize::MAX,
    ensures
        render::drawn(final(ops)@) == render::drawn(old(ops)@) + status_bar(
            term_w,
            term_h,
            active_idx as nat,
            total as nat,
            mode_label@,
        ),
{
    let y: u16 = term_h - 1;
    let mut left = "Pane ".to_owned();
    left.append(text::decimal_text((active_idx + 1) as u128).as_str());
    left.append("/");
    left.append(text::decimal_text(total as u128).as_str());
    let mut end: u128 = 1 + left.as_str().unicode_len() as u128;
    if !mode_label.is_empty() {
        end = end + mode_label.as_bytes().len() as u128 + 2;
    }
    let hints = fit_hints(end, term_w);
    proof {
        lemma_fitting_len(5, end as nat, term_w as nat);
    }
    put_status_head(ops, term_w, y);
    put_status_left(ops, left.as_str(), y);
    put_label(ops, mode_label);
    put_hints(ops, hints.as_str(), term_w, y);
    proof {
        lemma_status_chain(
            render::drawn(old(ops)@),
            status_head(term_w, y),
            status_left(active_idx as nat, total as nat, y),
            label_ops(mode_label@),
            seq![Draw::ResetAttributes, Draw::Background(status_bg())],
            hint_ops(hints@, term_w, y),
            seq![Draw::ResetColor, Draw::ResetAttributes],
        );
    }
}

proof fn lemma_status_chain(
    o: Seq<Draw>,
    a: Seq<Draw>,
    b: Seq<Draw>,
    c: Seq<Draw>,
    d: Seq<Draw>,
    e: Seq<Draw>,
    f: Seq<Draw>,
)
    ensures
        o + a + b + c + d + e + f == o + (a + b + c + d + e + f),
{
    assert(o + a + b + c + d + e + f =~= o + (a + b + c + d + e + f));
}

// ─── All panes ─────────────────────────────────────────────

/// The colour of a border cell: a drag colours all of them, else the border of
/// the active pane stands out.
pub open spec fn border_color(c: BorderCell, dragging: bool, active: Option<Rect>) -> Color {
    if dragging {
        Color::Yellow
    } else if active matches Some(r) && render::around(c.x as int, c.y as int, r) {
        Color::Cyan
    } else {
        Color::DarkGrey
    }
}

/// The first `k` border cells.
pub open spec fn border_ops(
    cells: Seq<BorderCell>,
    k: nat,
    dragging: bool,
    active: Option<Rect>,
    ch: render::BorderTexts,
) -> Seq<Draw>
    decreases k,
{
    if k == 0 {
        seq![]
    } else {
        let c = cells[k - 1];
        border_ops(cells, (k - 1) as nat, dragging, active, ch) + seq![
            Draw::MoveTo(c.x, c.y),
            Draw::Foreground(border_color(c, dragging, active)),
            Draw::Print(render::cell_text(c.flags, ch)),
        ]
    }
}

/// One pane: its title and its contents. Where not everything is redrawn, its
/// cells are cleared first.
pub open spec fn pane_ops(
    shot: Option<PaneShot>,
    r: Rect,
    idx: nat,
    active: bool,
    full: bool,
    h: Seq<char>,
) -> Seq<Draw> {
    let alive = shot matches Some(p) && p.alive;
    (if full {
        seq![]
    } else {
        cleared_rect(r) + cleared_title(r)
    }) + pane_title(r, idx, active, alive, h) + (match shot {
        Some(p) => content(p.cells@, r, alive),
        None => seq![],
    }) + (if alive {
        seq![]
    } else {
        dead_overlay(r)
    })
}

pub open spec fn shot_of(panes: Map<usize, PaneShot>, id: usize) -> Option<PaneShot> {
    if panes.contains_key(id) {
        Some(panes[id])
    } else {
        None
    }
}

/// The panes `..k`: those that changed, or all where everything is redrawn.
pub open spec fn panes_ops(
    panes: Map<usize, PaneShot>,
    all: Seq<usize>,
    rects: Map<usize, Rect>,
    k: nat,
    active: usize,
    full: bool,
    dirty: Set<usize>,
    h: Seq<char>,
) -> Seq<Draw>
    decreases k,
{
    if k == 0 {
        seq![]
    } else {
        let id = all[k - 1];
        panes_ops(panes, all, rects, (k - 1) as nat, active, full, dirty, h) + if (full
            || dirty.contains(id)) && rects.contains_key(id) {
            pane_ops(shot_of(panes, id), rects[id], (k - 1) as nat, id == active, full, h)
        } else {
            seq![]
        }
    }
}

/// The cursor of the active pane, where it lies inside the pane.
pub open spec fn cursor_ops(shot: Option<PaneShot>, r: Option<Rect>) -> Seq<Draw> {
    match (shot, r) {
        (Some(p), Some(r)) => if p.alive && p.cursor.1 < r.w && p.cursor.0 < r.h {
            seq![
                Draw::MoveTo((r.x + p.cursor.1) as u16, (r.y + p.cursor.0) as u16),
                Draw::ShowCursor,
            ]
        } else {
            seq![]
        },
        _ => seq![],
    }
}

pub open spec fn rect_of(rects: Map<usize, Rect>, id: usize) -> Option<Rect> {
    if rects.contains_key(id) {
        Some(rects[id])
    } else {
        None
    }
}

pub open spec fn too_small(term_w: u16, term_h: u16) -> Seq<Draw> {
    seq![
        Draw::MoveTo((layout::minus(term_w as int, 18) / 2) as u16, term_h / 2),
        Draw::Foreground(Color::Red),
        Draw::Print("Terminal too small"@),
        Draw::ResetColor,
    ]
}

pub open spec fn start_ops(full: bool) -> Seq<Draw> {
    if full {
        seq![Draw::HideCursor, Draw::ClearAll]
    } else {
        seq![Draw::HideCursor]
    }
}

/// A frame of panes: borders and status bar where everything is redrawn, the
/// panes, and the cursor.
pub open spec fn frame(
    panes: Map<usize, PaneShot>,
    all: Seq<usize>,
    active: usize,
    style: BorderStyle,
    show_status_bar: bool,
    term_w: u16,
    term_h: u16,
    dragging: bool,
    inner: Rect,
    rects: Map<usize, Rect>,
    cells: Seq<BorderCell>,
    dirty: Set<usize>,
    full: bool,
) -> Seq<Draw> {
    let ch = render::border_texts(style);
    let r = rect_of(rects, active);
    if inner.w == 0 || inner.h == 0 {
        start_ops(full) + too_small(term_w, term_h)
    } else {
        start_ops(full) + (if full {
            border_ops(cells, cells.len(), dragging, r, ch)
        } else {
            seq![]
        }) + panes_ops(panes, all, rects, all.len(), active, full, dirty, ch.h) + (if full
            && show_status_bar {
            status_bar(term_w, term_h, layout::position(all, active) as nat, all.len(), seq![])
        } else {
            seq![]
        }) + cursor_ops(shot_of(panes, active), r) + seq![Draw::ResetColor, Draw::ResetAttributes]
    }
}

fn put_borders(
    ops: &mut Vec<DrawOp>,
    cells: &Vec<BorderCell>,
    dragging: bool,
    active: Option<Rect>,
    chars: &BorderChars,
)
    requires
        active matches Some(r) ==> r.fits(),
    ensures
        render::drawn(final(ops)@) == render::drawn(old(ops)@) + border_ops(
            cells@,
            cells@.len(),
            dragging,
            active,
            chars@,
        ),
{
    let mut i: usize = 0;
    assert(render::drawn(ops@) + seq![] =~= render::drawn(ops@));
    while i < cells.len()
        invariant
            i <= cells@.len(),
            active matches Some(r) ==> r.fits(),
            render::drawn(ops@) == render::drawn(old(ops)@) + border_ops(
                cells@,
                i as nat,
                dragging,
                active,
                chars@,
            ),
        decreases cells@.len() - i,
    {
        let c = &cells[i];
        let near = match &active {
            Some(r) => is_pane_border(c.x, c.y, r),
            None => false,
        };
        let color = if dragging {
            Color::Yellow
        } else if near {
            Color::Cyan
        } else {
            Color::DarkGrey
        };
        let ghost before = render::drawn(ops@);
        put(ops, DrawOp::MoveTo(c.x, c.y));
        put(ops, DrawOp::Foreground(color));
        print(ops, border_char(&c.flags, chars));
        i += 1;
        proof {
            let three = seq![
                Draw::MoveTo(c.x, c.y),
                Draw::Foreground(color),
                Draw::Print(render::cell_text(c.flags, chars@)),
            ];
            assert(render::drawn(ops@) =~= before + three);
            assert(color == border_color(*c, dragging, active));
            lemma_add3(
                render::drawn(old(ops)@),
                border_ops(cells@, (i - 1) as nat, dragging, active, chars@),
                three,
            );
        }
    }
}

proof fn lemma_add3(o: Seq<Draw>, a: Seq<Draw>, b: Seq<Draw>)
    ensures
        o + a + b == o + (a + b),
{
    assert(o + a + b =~= o + (a + b));
}

proof fn lemma_add4(o: Seq<Draw>, a: Seq<Draw>, b: Seq<Draw>, c: Seq<Draw>, d: Seq<Draw>)
    ensures
        o + a + b + c + d == o + (a + b + c + d),
{
    assert(o + a + b + c + d =~= o + (a + b + c + d));
}

fn put_pane(
    ops: &mut Vec<DrawOp>,
    shot: Option<&PaneShot>,
    rect: &Rect,
    idx: usize,
    is_active: bool,
    full: bool,
    chars: &BorderChars,
)
    requires
        rect.fits(),
        idx < usize::MAX,
    ensures
        render::drawn(final(ops)@) == render::drawn(old(ops)@) + pane_ops(
            match shot {
                Some(p) => Some(*p),
                None => None,
            },
            *rect,
            idx as nat,
            is_active,
            full,
            chars.h@,
        ),
{
    let ghost o = render::drawn(ops@);
    let is_alive = match shot {
        Some(p) => p.alive,
        None => false,
    };
    let ghost a = if full {
        seq![]
    } else {
        cleared_rect(*rect) + cleared_title(*rect)
    };
    let ghost b = pane_title(*rect, idx as nat, is_active, is_alive, chars.h@);
    let ghost c = match shot {
        Some(p) => content(p.cells@, *rect, is_alive),
        None => seq![],
    };
    let ghost d = if is_alive {
        seq![]
    } else {
        dead_overlay(*rect)
    };
    if !full {
        clear_rect(ops, rect);
        clear_title(ops, rect);
        proof {
            lemma_add3(o, cleared_rect(*rect), cleared_title(*rect));
        }
    } else {
        assert(o + a =~= o);
    }
    draw_pane_title(ops, rect, idx, is_active, is_alive, chars);
    assert(render::drawn(ops@) == o + a + b);
    match shot {
        Some(p) => draw_content(ops, &p.cells, rect, is_alive),
        None => {
            assert(o + a + b + c =~= o + a + b);
        },
    }
    if !is_alive {
        draw_dead_overlay(ops, rect);
    } else {
        assert(o + a + b + c + d =~= o + a + b + c);
    }
    proof {
        lemma_add4(o, a, b, c, d);
    }
}

fn put_panes(
    ops: &mut Vec<DrawOp>,
    panes: &HashMap<usize, PaneShot>,
    all: &Vec<usize>,
    rects: &HashMap<usize, Rect>,
    active: usize,
    full: bool,
    dirty: &HashSet<usize>,
    chars: &BorderChars,
)
    requires
        forall|id: usize| #[trigger] rects@.contains_key(id) ==> rects@[id].fits(),
    ensures
        render::drawn(final(ops)@) == render::drawn(old(ops)@) + panes_ops(
            panes@,
            all@,
            rects@,
            all@.len(),
            active,
            full,
            dirty@,
            chars.h@,
        ),
{
    let mut i: usize = 0;
    assert(render::drawn(ops@) + seq![] =~= render::drawn(ops@));
    while i < all.len()
        invariant
            i <= all@.len(),
            forall|id: usize| #[trigger] rects@.contains_key(id) ==> rects@[id].fits(),
            render::drawn(ops@) == render::drawn(old(ops)@) + panes_ops(
                panes@,
                all@,
                rects@,
                i as nat,
                active,
                full,
                dirty@,
                chars.h@,
            ),
        decreases all@.len() - i,
    {
        let id: usize = all[i];
        let ghost o = render::drawn(old(ops)@);
        let ghost a = panes_ops(panes@, all@, rects@, i as nat, active, full, dirty@, chars.h@);
        assert(a + seq![] =~= a);
        if full || dirty.contains(&id) {
            match rects.get(&id) {
                Some(rect) => {
                    let shot = panes.get(&id);
                    put_pane(ops, shot, rect, i, id == active, full, chars);
                    proof {
                        lemma_add3(
                            o,
                            a,
                            pane_ops(
                                shot_of(panes@, id),
                                rects@[id],
                                i as nat,
                                id == active,
                                full,
                                chars.h@,
                            ),
                        );
                    }
                },
                None => {},
            }
        }
        i += 1;
    }
}

/// Draws the panes of a layout.
pub fn render_panes(
    ops: &mut Vec<DrawOp>,
    panes: &HashMap<usize, PaneShot>,
    l: &Layout,
    active_id: usize,
    border_style: BorderStyle,
    show_status_bar: bool,
    term_w: u16,
    term_h: u16,
    dragging_sep: bool,
    border_cache: &BorderCache,
    dirty_panes: &HashSet<usize>,
    full_redraw: bool,
)
    requires
        term_h >= 1,
        forall|id: usize| #[trigger]
            border_cache.pane_rects@.contains_key(id) ==> border_cache.pane_rects@[id].fits(),
    ensures
        render::drawn(final(ops)@) == render::drawn(old(ops)@) + frame(
            panes@,
            layout::ids(l.root),
            active_id,
            border_style,
            show_status_bar,
            term_w,
            term_h,
            dragging_sep,
            border_cache.inner,
            border_cache.pane_rects@,
            border_cache.cells@,
            dirty_panes@,
            full_redraw,
        ),
{
    let ghost o = render::drawn(ops@);
    put(ops, DrawOp::HideCursor);
    if full_redraw {
        put(ops, DrawOp::ClearAll);
    }
    let ghost a = start_ops(full_redraw);
    assert(render::drawn(ops@) =~= o + a);
    let chars = border_style.chars();
    if border_cache.inner.w == 0 || border_cache.inner.h == 0 {
        put_too_small(ops, term_w, term_h);
        proof {
            lemma_add3(o, a, too_small(term_w, term_h));
        }
        return;
    }
    let all = l.pane_ids();
    let active_rect = match border_cache.pane_rects.get(&active_id) {
        Some(r) => Some(*r),
        None => None,
    };
    let ghost rects = border_cache.pane_rects@;
    let ghost b = if full_redraw {
        border_ops(
            border_cache.cells@,
            border_cache.cells@.len(),
            dragging_sep,
            active_rect,
            chars@,
        )
    } else {
        seq![]
    };
    if full_redraw {
        put_borders(ops, &border_cache.cells, dragging_sep, active_rect, &chars);
    } else {
        assert(o + a + b =~= o + a);
    }
    put_panes(
        ops,
        panes,
        &all,
        &border_cache.pane_rects,
        active_id,
        full_redraw,
        dirty_panes,
        &chars,
    );
    let ghost c = panes_ops(
        panes@,
        all@,
        rects,
        all@.len(),
        active_id,
        full_redraw,
        dirty_panes@,
        chars.h@,
    );
    assert(render::drawn(ops@) == o + a + b + c);
    let idx: usize = layout::position_of(&all, active_id);
    let ghost d = if full_redraw && show_status_bar {
        status_bar(term_w, term_h, idx as nat, all@.len(), seq![])
    } else {
        seq![]
    };
    if show_status_bar && full_redraw {
        proof {
            reveal_strlit("");
            assert(""@ =~= seq![]);
        }
        draw_status_bar(ops, term_w, term_h, idx, all.len(), "");
    } else {
        assert(o + a + b + c + d =~= o + a + b + c);
    }
    assert(render::drawn(ops@) == o + a + b + c + d);
    put_cursor(ops, panes.get(&active_id), active_rect);
    let ghost e = cursor_ops(shot_of(panes@, active_id), active_rect);
    let ghost f = seq![Draw::ResetColor, Draw::ResetAttributes];
    put(ops, DrawOp::ResetColor);
    put(ops, DrawOp::ResetAttributes);
    proof {
        assert((o + a + b + c + d + e).push(Draw::ResetColor).push(Draw::ResetAttributes) =~= o + a
            + b + c + d + e + f);
        lemma_status_chain(o, a, b, c, d, e, f);
    }
}

fn put_too_small(ops: &mut Vec<DrawOp>, term_w: u16, term_h: u16)
    ensures
        render::drawn(final(ops)@) == render::drawn(old(ops)@) + too_small(term_w, term_h),
{
    let spare: u16 = if term_w >= 18 {
        term_w - 18
    } else {
        0
    };
    put(ops, DrawOp::MoveTo(spare / 2, term_h / 2));
    put(ops, DrawOp::Foreground(Color::Red));
    print(ops, "Terminal too small");
    put(ops, DrawOp::ResetColor);
    assert(render::drawn(ops@) =~= render::drawn(old(ops)@) + too_small(term_w, term_h));
}

fn put_cursor(ops: &mut Vec<DrawOp>, shot: Option<&PaneShot>, rect: Option<Rect>)
    requires
        rect matches Some(r) ==> r.fits(),
    ensures
        render::drawn(final(ops)@) == render::drawn(old(ops)@) + cursor_ops(
            match shot {
                Some(p) => Some(*p),
                None => None,
            },
            rect,
        ),
{
    assert(render::drawn(ops@) + seq![] =~= render::drawn(ops@));
    match (shot, rect) {
        (Some(p), Some(r)) => {
            let (cr, cc) = p.cursor;
            if p.alive && cc < r.w && cr < r.h {
                put(ops, DrawOp::MoveTo(r.x + cc, r.y + cr));
                put(ops, DrawOp::ShowCursor);
                assert(render::drawn(ops@) =~= render::drawn(old(ops)@) + seq![
                    Draw::MoveTo((r.x + cc) as u16, (r.y + cr) as u16),
                    Draw::ShowCursor,
                ]);
            }
        },
        _ => {},
    }
}

} // verus!
