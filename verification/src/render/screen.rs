//! What drawing operations show on a screen.

use vstd::prelude::*;
use vstd::string::*;

use crate::layout;
use crate::layout::Rect;
use crate::render::paint;
use crate::render;
use crate::render::paint::{CellColor, PaneShot, Pen, ScreenCell};
use crate::render::{BorderCell, BorderStyle, Color, Draw};
use crate::text;

verus! {

/// How characters look.
pub struct Style {
    pub fg: Color,
    pub bg: Color,
    pub bold: bool,
    pub italic: bool,
    pub underline: bool,
    pub reverse: bool,
}

/// A character on the screen.
pub struct Glyph {
    pub ch: char,
    pub style: Style,
}

/// A screen: what its cells show, by column and row, the place where the next
/// character goes, and how it will look.
#[verifier::ext_equal]
pub struct Screen {
    pub cells: Map<(int, int), Glyph>,
    pub x: int,
    pub y: int,
    pub style: Style,
}

/// The look of a terminal that was reset.
pub open spec fn no_style() -> Style {
    Style {
        fg: Color::Reset,
        bg: Color::Reset,
        bold: false,
        italic: false,
        underline: false,
        reverse: false,
    }
}

/// A character goes where the cursor is, which then moves one column on.
pub open spec fn typed(s: Screen, ch: char) -> Screen {
    Screen { cells: s.cells.insert((s.x, s.y), Glyph { ch, style: s.style }), x: s.x + 1, ..s }
}

/// The characters of a text, one column each.
pub open spec fn printed(s: Screen, t: Seq<char>) -> Screen
    decreases t.len(),
{
    if t.len() == 0 {
        s
    } else {
        typed(printed(s, t.drop_last()), t.last())
    }
}

/// What one operation does to a screen.
pub open spec fn after(s: Screen, d: Draw) -> Screen {
    match d {
        Draw::MoveTo(x, y) => Screen { x: x as int, y: y as int, ..s },
        Draw::Print(t) => printed(s, t),
        Draw::Foreground(fg) => Screen { style: Style { fg, ..s.style }, ..s },
        Draw::Background(bg) => Screen { style: Style { bg, ..s.style }, ..s },
        Draw::ResetColor => Screen {
            style: Style { fg: Color::Reset, bg: Color::Reset, ..s.style },
            ..s
        },
        Draw::Bold => Screen { style: Style { bold: true, ..s.style }, ..s },
        Draw::Italic => Screen { style: Style { italic: true, ..s.style }, ..s },
        Draw::Underlined => Screen { style: Style { underline: true, ..s.style }, ..s },
        Draw::Reverse => Screen { style: Style { reverse: true, ..s.style }, ..s },
        Draw::ResetAttributes => Screen { style: no_style(), ..s },
        Draw::ClearAll => Screen { cells: Map::empty(), ..s },
        Draw::HideCursor | Draw::ShowCursor | Draw::BeginSync | Draw::EndSync => s,
    }
}

/// What operations do to a screen, one after the other.
pub open spec fn run(s: Screen, ops: Seq<Draw>) -> Screen
    decreases ops.len(),
{
    if ops.len() == 0 {
        s
    } else {
        after(run(s, ops.drop_last()), ops.last())
    }
}

pub proof fn lemma_run_push(s: Screen, ops: Seq<Draw>, d: Draw)
    ensures
        run(s, ops.push(d)) == after(run(s, ops), d),
{
    assert(ops.push(d).drop_last() =~= ops);
}

pub proof fn lemma_run_add(s: Screen, a: Seq<Draw>, b: Seq<Draw>)
    ensures
        run(s, a + b) == run(run(s, a), b),
    decreases b.len(),
{
    if b.len() == 0 {
        assert(a + b =~= a);
    } else {
        assert((a + b).drop_last() =~= a + b.drop_last());
        assert((a + b).last() == b.last());
        lemma_run_add(s, a, b.drop_last());
    }
}

proof fn lemma_printed_add(s: Screen, a: Seq<char>, b: Seq<char>)
    ensures
        printed(s, a + b) == printed(printed(s, a), b),
    decreases b.len(),
{
    if b.len() == 0 {
        assert(a + b =~= a);
    } else {
        assert((a + b).drop_last() =~= a + b.drop_last());
        assert((a + b).last() == b.last());
        lemma_printed_add(s, a, b.drop_last());
    }
}

/// The text of a cell that takes one column: its character, or a blank.
pub open spec fn cell_char(c: ScreenCell) -> char {
    if c.contents@.len() == 0 {
        ' '
    } else {
        c.contents@[0]
    }
}

/// The character of the cell in row `r` and column `c`, a blank where the
/// screen has no such cell.
pub open spec fn char_at(cells: Seq<Vec<ScreenCell>>, r: int, c: int) -> char {
    if r < cells.len() && c < cells[r]@.len() {
        cell_char(cells[r]@[c])
    } else {
        ' '
    }
}

/// No cell takes more than one column.
pub open spec fn one_column(cells: Seq<Vec<ScreenCell>>) -> bool {
    forall|r: int, c: int|
        0 <= r < cells.len() && 0 <= c < cells[r]@.len() ==> (
        #[trigger] cells[r]@[c]).contents@.len() <= 1
}

/// The screen once the gathered text is printed.
spec fn seen(s: Screen, p: Pen) -> Screen {
    run(s, paint::flushed(p).ops)
}

proof fn lemma_flushed(s: Screen, p: Pen)
    ensures
        seen(s, p) == printed(run(s, p.ops), p.buf),
        seen(s, paint::flushed(p)) == seen(s, p),
        paint::flushed(p).buf.len() == 0,
{
    if p.buf.len() > 0 {
        lemma_run_push(s, p.ops, Draw::Print(p.buf));
    }
}

proof fn lemma_attr_ops(s: Screen, c: ScreenCell)
    ensures
        ({
            let t = run(s, paint::attr_ops(c));
            &&& t.cells == s.cells && t.x == s.x && t.y == s.y
            &&& t.style.fg == s.style.fg && t.style.bg == s.style.bg
            &&& t.style.bold == (s.style.bold || c.bold)
            &&& t.style.italic == (s.style.italic || c.italic)
            &&& t.style.underline == (s.style.underline || c.underline)
            &&& t.style.reverse == (s.style.reverse || c.inverse)
        }),
{
    let e = Seq::<Draw>::empty();
    let b = if c.bold {
        e.push(Draw::Bold)
    } else {
        e
    };
    let i = if c.italic {
        b.push(Draw::Italic)
    } else {
        b
    };
    let u = if c.underline {
        i.push(Draw::Underlined)
    } else {
        i
    };
    let v = if c.inverse {
        u.push(Draw::Reverse)
    } else {
        u
    };
    lemma_run_push(s, e, Draw::Bold);
    lemma_run_push(s, b, Draw::Italic);
    lemma_run_push(s, i, Draw::Underlined);
    lemma_run_push(s, u, Draw::Reverse);
    assert(paint::attr_ops(c) =~= v);
}

/// The four attributes of a cell.
pub struct Marks {
    pub bold: bool,
    pub italic: bool,
    pub underline: bool,
    pub reverse: bool,
}

pub open spec fn marks_of(c: ScreenCell) -> Marks {
    Marks { bold: c.bold, italic: c.italic, underline: c.underline, reverse: c.inverse }
}

/// The look of a cell: its colours and attributes, or grey without attributes
/// where the program of the pane has ended.
pub open spec fn look(c: ScreenCell, alive: bool) -> Style {
    let bg = match c.bg {
        CellColor::Default => Color::Reset,
        CellColor::Idx(i) => Color::AnsiValue(i),
        CellColor::Rgb(r, g, b) => Color::Rgb { r, g, b },
    };
    if alive {
        Style {
            fg: match c.fg {
                CellColor::Default => Color::Reset,
                CellColor::Idx(i) => Color::AnsiValue(i),
                CellColor::Rgb(r, g, b) => Color::Rgb { r, g, b },
            },
            bg,
            bold: c.bold,
            italic: c.italic,
            underline: c.underline,
            reverse: c.inverse,
        }
    } else {
        Style { fg: Color::DarkGrey, bg, ..no_style() }
    }
}

/// The pen knows the look in force, whose attributes are `m` or none.
spec fn tracks(s: Screen, p: Pen, m: Marks, alive: bool) -> bool {
    &&& run(s, p.ops).style == (Style {
        fg: p.fg,
        bg: p.bg,
        bold: p.attrs && m.bold,
        italic: p.attrs && m.italic,
        underline: p.attrs && m.underline,
        reverse: p.attrs && m.reverse,
    })
    &&& p.attrs ==> alive && (m.bold || m.italic || m.underline || m.reverse)
}

/// Drawing a cell types its character after what was typed before.
#[verifier::spinoff_prover]
proof fn lemma_cell(s: Screen, p: Pen, c: ScreenCell, alive: bool, m: Marks)
    requires
        c.contents@.len() <= 1,
        p.attrs ==> p.buf.len() == 0,
    ensures
        ({
            let q = paint::cell_drawn(p, c, alive);
            let before = seen(s, p);
            let now = seen(s, q);
            let at = (before.x, before.y);
            &&& q.attrs ==> q.buf.len() == 0
            &&& now.x == before.x + 1 && now.y == before.y
            &&& now.cells[at].ch == cell_char(c)
            &&& now.cells == before.cells.insert(at, now.cells[at])
            &&& tracks(s, p, m, alive) && (alive ==> marks_of(c) == m) ==> tracks(s, q, m, alive)
                && now.cells[at].style == look(c, alive)
        }),
{
    reveal_strlit(" ");
    let text = paint::cell_chars(c);
    assert(text =~= seq![cell_char(c)]);
    let fg = if alive {
        paint::paint(c.fg)
    } else {
        Color::DarkGrey
    };
    let bg = paint::paint(c.bg);
    let on = paint::has_attrs(c);
    let q1 = if fg != p.fg || bg != p.bg || on != p.attrs {
        paint::flushed(p)
    } else {
        p
    };
    let q2 = if fg != q1.fg {
        Pen { fg, ops: q1.ops.push(Draw::Foreground(fg)), ..q1 }
    } else {
        q1
    };
    let q3 = if bg != q2.bg {
        Pen { bg, ops: q2.ops.push(Draw::Background(bg)), ..q2 }
    } else {
        q2
    };
    lemma_flushed(s, p);
    lemma_flushed(s, q1);
    lemma_flushed(s, q2);
    lemma_flushed(s, q3);
    lemma_run_push(s, q1.ops, Draw::Foreground(fg));
    lemma_run_push(s, q2.ops, Draw::Background(bg));
    lemma_printed_style(run(s, p.ops), p.buf);
    let before = seen(s, p);
    let third = seen(s, q3);
    assert(third.cells == before.cells && third.x == before.x && third.y == before.y);
    let fine = tracks(s, p, m, alive) && (alive ==> marks_of(c) == m);
    assert(fine ==> tracks(s, q1, m, alive));
    assert(fine ==> tracks(s, q3, m, alive));
    let q = paint::cell_drawn(p, c, alive);
    lemma_flushed(s, q);
    let now = seen(s, q);
    let t = Seq::<char>::empty();
    reveal_with_fuel(printed, 2);
    assert(text.drop_last() =~= t);
    if on && alive {
        assert(q3.buf.len() == 0);
        let q4 = if q3.attrs {
            q3
        } else {
            Pen { attrs: true, ops: q3.ops + paint::attr_ops(c), ..q3 }
        };
        lemma_run_add(s, q3.ops, paint::attr_ops(c));
        lemma_attr_ops(run(s, q3.ops), c);
        lemma_run_push(s, q4.ops, Draw::Print(text));
        let r4 = run(s, q4.ops);
        assert(r4.cells == before.cells && r4.x == before.x && r4.y == before.y);
        assert(now == typed(r4, cell_char(c)));
        assert(fine ==> r4.style == look(c, alive));
    } else {
        let q4 = if q3.attrs {
            Pen {
                fg: Color::Reset,
                bg: Color::Reset,
                attrs: false,
                ops: q3.ops.push(Draw::ResetAttributes),
                ..q3
            }
        } else {
            q3
        };
        lemma_run_push(s, q3.ops, Draw::ResetAttributes);
        lemma_flushed(s, q4);
        let r4 = seen(s, q4);
        assert(r4.cells == before.cells && r4.x == before.x && r4.y == before.y);
        lemma_printed_add(run(s, q4.ops), q4.buf, text);
        lemma_printed_style(run(s, q4.ops), q4.buf);
        assert(now == typed(r4, cell_char(c)));
        assert(fine ==> r4.style == look(c, alive));
    }
}

proof fn lemma_printed_style(s: Screen, t: Seq<char>)
    ensures
        printed(s, t).style == s.style,
        printed(s, t).y == s.y,
        printed(s, t).x == s.x + t.len(),
    decreases t.len(),
{
    if t.len() > 0 {
        lemma_printed_style(s, t.drop_last());
    }
}

/// The two screens show the same outside a rectangle.
pub open spec fn same_outside(a: Screen, b: Screen, x: int, y: int, w: int, h: int) -> bool {
    forall|px: int, py: int|
        #![trigger b.cells[(px, py)]]
        !(x <= px < x + w && y <= py < y + h) ==> a.cells[(px, py)] == b.cells[(
            px,
            py,
        )]
}

/// Every cell of the row up to `k` has the attributes `m`.
spec fn alike(row: Seq<ScreenCell>, k: int, m: Marks) -> bool {
    forall|j: int| 0 <= j < k && j < row.len() ==> marks_of(#[trigger] row[j]) == m
}

proof fn lemma_cells(s: Screen, p: Pen, row: Seq<ScreenCell>, k: nat, alive: bool, m: Marks)
    requires
        p.buf.len() == 0,
        forall|j: int| 0 <= j < row.len() ==> (#[trigger] row[j]).contents@.len() <= 1,
    ensures
        ({
            let q = paint::cells_drawn(p, row, k, alive);
            let before = run(s, p.ops);
            let now = seen(s, q);
            &&& now.x == before.x + k && now.y == before.y
            &&& k <= row.len() ==> (q.attrs ==> q.buf.len() == 0)
            &&& forall|j: int|
                #![trigger now.cells[(before.x + j, before.y)]]
                0 <= j < k ==> now.cells[(before.x + j, before.y)].ch == (if j < row.len() {
                    cell_char(row[j])
                } else {
                    ' '
                })
            &&& same_outside(before, now, before.x, before.y, k as int, 1)
            &&& tracks(s, p, m, alive) && (alive ==> alike(row, k as int, m)) ==> tracks(
                s,
                q,
                m,
                alive,
            ) && forall|j: int|
                #![trigger now.cells[(before.x + j, before.y)]]
                0 <= j < k && j < row.len() ==> now.cells[(before.x + j, before.y)].style == look(
                    row[j],
                    alive,
                )
        }),
    decreases k,
{
    let before = run(s, p.ops);
    lemma_flushed(s, p);
    if k > 0 {
        let l = (k - 1) as nat;
        lemma_cells(s, p, row, l, alive, m);
        let q = paint::cells_drawn(p, row, l, alive);
        let n = paint::cells_drawn(p, row, k, alive);
        let mid = seen(s, q);
        let now = seen(s, n);
        if l < row.len() {
            lemma_cell(s, q, row[l as int], alive, m);
        } else {
            reveal_strlit(" ");
            lemma_flushed(s, q);
            lemma_flushed(s, n);
            lemma_printed_add(run(s, q.ops), q.buf, " "@);
            reveal_with_fuel(printed, 2);
            assert(" "@.drop_last() =~= Seq::<char>::empty());
            assert(now == typed(mid, ' '));
        }
        let at = (mid.x, mid.y);
        assert(now.cells == mid.cells.insert(at, now.cells[at]));
        assert forall|j: int|
            #![trigger now.cells[(before.x + j, before.y)]]
            0 <= j < k implies now.cells[(before.x + j, before.y)].ch == (if j < row.len() {
            cell_char(row[j])
        } else {
            ' '
        }) by {
            if j < l {
                assert(now.cells[(before.x + j, before.y)] == mid.cells[(before.x + j, before.y)]);
            }
        }
        assert forall|px: int, py: int|
            #![trigger now.cells[(px, py)]]
            !(before.x <= px < before.x + k && before.y <= py < before.y + 1) implies before.cells[(
            px,
            py,
        )] == now.cells[(px, py)] by {
            assert(now.cells[(px, py)] == mid.cells[(px, py)]);
        }
        if tracks(s, p, m, alive) && (alive ==> alike(row, k as int, m)) {
            assert(alive ==> alike(row, l as int, m));
            assert(tracks(s, q, m, alive));
            assert(tracks(s, n, m, alive));
            assert forall|j: int|
                #![trigger now.cells[(before.x + j, before.y)]]
                0 <= j < k && j < row.len() implies now.cells[(before.x + j, before.y)].style
                == look(row[j], alive) by {
                if j < l {
                    assert(now.cells[(before.x + j, before.y)] == mid.cells[(
                        before.x + j,
                        before.y,
                    )]);
                }
            }
        }
    }
}

/// Every cell of the screen that the rectangle shows has the attributes `m`.
pub open spec fn all_marked(cells: Seq<Vec<ScreenCell>>, rect: Rect, m: Marks) -> bool {
    forall|r: int, c: int|
        0 <= r < cells.len() && r < rect.h && 0 <= c < cells[r]@.len() && c < rect.w ==> marks_of(
            #[trigger] cells[r]@[c],
        ) == m
}

proof fn lemma_rows(
    s: Screen,
    p: Pen,
    cells: Seq<Vec<ScreenCell>>,
    rect: Rect,
    k: nat,
    alive: bool,
    m: Marks,
)
    requires
        p.buf.len() == 0,
        rect.fits(),
        k <= rect.h,
        one_column(cells),
    ensures
        ({
            let q = paint::rows_drawn(p, cells, rect, k, alive);
            let before = run(s, p.ops);
            let now = run(s, q.ops);
            &&& q.buf.len() == 0
            &&& forall|r: int, c: int|
                #![trigger now.cells[(rect.x + c, rect.y + r)]]
                0 <= r < k && 0 <= c < rect.w ==> now.cells[(rect.x + c, rect.y + r)].ch == char_at(
                    cells,
                    r,
                    c,
                )
            &&& same_outside(before, now, rect.x as int, rect.y as int, rect.w as int, k as int)
            &&& tracks(s, p, m, alive) && (alive ==> all_marked(cells, rect, m)) ==> tracks(
                s,
                q,
                m,
                alive,
            ) && forall|r: int, c: int|
                #![trigger now.cells[(rect.x + c, rect.y + r)]]
                0 <= r < k && r < cells.len() && 0 <= c < rect.w && c < cells[r]@.len()
                    ==> now.cells[(rect.x + c, rect.y + r)].style == look(cells[r]@[c], alive)
        }),
    decreases k,
{
    let before = run(s, p.ops);
    if k > 0 {
        let l = (k - 1) as nat;
        lemma_rows(s, p, cells, rect, l, alive, m);
        let q = paint::rows_drawn(p, cells, rect, l, alive);
        let d = Draw::MoveTo(rect.x, (rect.y + k - 1) as u16);
        let moved = Pen { ops: q.ops.push(d), ..q };
        lemma_run_push(s, q.ops, d);
        let row = paint::screen_row(cells, l as int);
        assert forall|j: int| 0 <= j < row.len() implies (#[trigger] row[j]).contents@.len() <= 1 by {
            assert(cells[l as int]@[j].contents@.len() <= 1);
        }
        let mid = run(s, moved.ops);
        lemma_cells(s, moved, row, rect.w as nat, alive, m);
        let n = paint::cells_drawn(moved, row, rect.w as nat, alive);
        lemma_flushed(s, n);
        lemma_printed_style(run(s, n.ops), n.buf);
        let now = run(s, paint::rows_drawn(p, cells, rect, k, alive).ops);
        assert(now == seen(s, n));
        assert(mid.x == rect.x && mid.y == rect.y + l);
        assert forall|r: int, c: int|
            #![trigger now.cells[(rect.x + c, rect.y + r)]]
            0 <= r < k && 0 <= c < rect.w implies now.cells[(rect.x + c, rect.y + r)].ch == char_at(
            cells,
            r,
            c,
        ) by {
            if r < l {
                assert(now.cells[(rect.x + c, rect.y + r)] == mid.cells[(rect.x + c, rect.y + r)]);
            } else {
                assert((rect.x + c, rect.y + r) == (mid.x + c, mid.y));
            }
        }
        assert forall|px: int, py: int|
            #![trigger now.cells[(px, py)]]
            !(rect.x <= px < rect.x + rect.w && rect.y <= py < rect.y + k) implies before.cells[(
            px,
            py,
        )] == now.cells[(px, py)] by {
            assert(now.cells[(px, py)] == mid.cells[(px, py)]);
        }
        if tracks(s, p, m, alive) && (alive ==> all_marked(cells, rect, m)) {
            assert(tracks(s, q, m, alive));
            assert(tracks(s, moved, m, alive));
            assert(alive ==> alike(row, rect.w as int, m)) by {
                if alive {
                    assert forall|j: int| 0 <= j < rect.w && j < row.len() implies marks_of(
                        #[trigger] row[j],
                    ) == m by {
                        assert(cells[l as int]@[j] == row[j]);
                    }
                }
            }
            assert(tracks(s, n, m, alive));
            assert(tracks(s, paint::rows_drawn(p, cells, rect, k, alive), m, alive));
            assert forall|r: int, c: int|
                #![trigger now.cells[(rect.x + c, rect.y + r)]]
                0 <= r < k && r < cells.len() && 0 <= c < rect.w && c < cells[r]@.len()
                    implies now.cells[(rect.x + c, rect.y + r)].style == look(cells[r]@[c], alive) by {
                if r < l {
                    assert(now.cells[(rect.x + c, rect.y + r)] == mid.cells[(
                        rect.x + c,
                        rect.y + r,
                    )]);
                } else {
                    assert((rect.x + c, rect.y + r) == (mid.x + c, mid.y));
                }
            }
        }
    }
}

/// `now` shows at every place of the rectangle the character of that row and
/// column, and outside it what `before` showed.
pub open spec fn shows_contents(
    before: Screen,
    now: Screen,
    cells: Seq<Vec<ScreenCell>>,
    rect: Rect,
) -> bool {
    &&& forall|r: int, c: int|
        #![trigger now.cells[(rect.x + c, rect.y + r)]]
        0 <= r < rect.h && 0 <= c < rect.w ==> now.cells[(rect.x + c, rect.y + r)].ch == char_at(
            cells,
            r,
            c,
        )
    &&& same_outside(before, now, rect.x as int, rect.y as int, rect.w as int, rect.h as int)
}

/// After the contents of a pane were drawn, the screen shows at every place of
/// its rectangle the character of that row and column, a blank where the pane
/// has none, and outside the rectangle what it showed before.
pub proof fn contents_are_shown(
    s: Screen,
    cells: Seq<Vec<ScreenCell>>,
    rect: Rect,
    alive: bool,
)
    requires
        rect.fits(),
        one_column(cells),
    ensures
        ({
            let now = run(s, paint::content(cells, rect, alive));
            &&& shows_contents(s, now, cells, rect)
            &&& rect.w > 0 && rect.h > 0 ==> now.style == no_style()
        }),
{
    let m = Marks { bold: false, italic: false, underline: false, reverse: false };
    lemma_content(s, cells, rect, alive, m);
}

/// The contents of a pane are shown in their colours and attributes where all
/// its cells have the same attributes; in grey on their background, without
/// attributes, where its program has ended.
pub proof fn contents_are_shown_in_style(
    s: Screen,
    cells: Seq<Vec<ScreenCell>>,
    rect: Rect,
    alive: bool,
    m: Marks,
)
    requires
        rect.fits(),
        one_column(cells),
        s.style == no_style(),
        alive ==> all_marked(cells, rect, m),
    ensures
        ({
            let now = run(s, paint::content(cells, rect, alive));
            forall|r: int, c: int|
                #![trigger now.cells[(rect.x + c, rect.y + r)]]
                0 <= r < rect.h && r < cells.len() && 0 <= c < rect.w && c < cells[r]@.len()
                    ==> now.cells[(rect.x + c, rect.y + r)].style == look(cells[r]@[c], alive)
        }),
{
    lemma_content(s, cells, rect, alive, m);
}

proof fn lemma_content(
    s: Screen,
    cells: Seq<Vec<ScreenCell>>,
    rect: Rect,
    alive: bool,
    m: Marks,
)
    requires
        rect.fits(),
        one_column(cells),
    ensures
        ({
            let now = run(s, paint::content(cells, rect, alive));
            &&& shows_contents(s, now, cells, rect)
            &&& rect.w > 0 && rect.h > 0 ==> now.style == no_style()
            &&& s.style == no_style() && (alive ==> all_marked(cells, rect, m)) ==> forall|
                r: int,
                c: int,
            |
                #![trigger now.cells[(rect.x + c, rect.y + r)]]
                0 <= r < rect.h && r < cells.len() && 0 <= c < rect.w && c < cells[r]@.len()
                    ==> now.cells[(rect.x + c, rect.y + r)].style == look(cells[r]@[c], alive)
        }),
{
    if rect.w > 0 && rect.h > 0 {
        let start = Pen {
            fg: Color::Reset,
            bg: Color::Reset,
            attrs: false,
            buf: seq![],
            ops: seq![],
        };
        assert(run(s, start.ops) == s);
        assert(s.style == no_style() ==> tracks(s, start, m, alive));
        lemma_rows(s, start, cells, rect, rect.h as nat, alive, m);
        let done = paint::rows_drawn(start, cells, rect, rect.h as nat, alive).ops;
        let a = done.push(Draw::ResetColor);
        lemma_run_push(s, done, Draw::ResetColor);
        lemma_run_push(s, a, Draw::ResetAttributes);
        assert(done + seq![Draw::ResetColor, Draw::ResetAttributes] =~= a.push(
            Draw::ResetAttributes,
        ));
    }
}

// ─── Clearing, borders, titles and the cursor ──────────────

/// Typing a character changes one cell.
proof fn lemma_typed(s: Screen, ch: char, px: int, py: int)
    ensures
        typed(s, ch).cells[(s.x, s.y)] == (Glyph { ch, style: s.style }),
        px != s.x || py != s.y ==> typed(s, ch).cells[(px, py)] == s.cells[(px, py)],
{
    let g = Glyph { ch, style: s.style };
    if px != s.x || py != s.y {
        assert((px, py) != (s.x, s.y));
        assert(s.cells.insert((s.x, s.y), g)[(px, py)] == s.cells[(px, py)]);
    }
}

proof fn lemma_printed(s: Screen, t: Seq<char>)
    ensures
        ({
            let now = printed(s, t);
            &&& now.x == s.x + t.len() && now.y == s.y && now.style == s.style
            &&& forall|i: int|
                #![trigger now.cells[(s.x + i, s.y)]]
                0 <= i < t.len() ==> now.cells[(s.x + i, s.y)] == (Glyph {
                    ch: t[i],
                    style: s.style,
                })
            &&& same_outside(s, now, s.x, s.y, t.len() as int, 1)
        }),
    decreases t.len(),
{
    if t.len() > 0 {
        lemma_printed(s, t.drop_last());
        let mid = printed(s, t.drop_last());
        let now = printed(s, t);
        assert(now == typed(mid, t.last()));
        assert forall|i: int|
            #![trigger now.cells[(s.x + i, s.y)]]
            0 <= i < t.len() implies now.cells[(s.x + i, s.y)] == (Glyph {
            ch: t[i],
            style: s.style,
        }) by {
            lemma_typed(mid, t.last(), s.x + i, s.y);
            if i < t.len() - 1 {
                assert(t.drop_last()[i] == t[i]);
                lemma_typed(mid, t.last(), s.x + i, s.y);
                assert(now.cells[(s.x + i, s.y)] == mid.cells[(s.x + i, s.y)]);
            }
        }
        assert forall|px: int, py: int|
            #![trigger now.cells[(px, py)]]
            !(s.x <= px < s.x + t.len() && s.y <= py < s.y + 1) implies s.cells[(px, py)]
            == now.cells[(px, py)] by {
            lemma_typed(mid, t.last(), px, py);
            assert(now.cells[(px, py)] == mid.cells[(px, py)]);
        }
    }
}

proof fn lemma_blanks(s: Screen, n: nat)
    ensures
        ({
            let now = run(s, paint::blanks(n));
            &&& now.x == s.x + n && now.y == s.y
            &&& forall|i: int|
                #![trigger now.cells[(s.x + i, s.y)]]
                0 <= i < n ==> now.cells[(s.x + i, s.y)].ch == ' '
            &&& same_outside(s, now, s.x, s.y, n as int, 1)
        }),
    decreases n,
{
    if n > 0 {
        let l = (n - 1) as nat;
        lemma_blanks(s, l);
        let before = paint::blanks(l);
        let mid = run(s, before);
        let a = before.push(Draw::ResetColor);
        lemma_run_push(s, before, Draw::ResetColor);
        lemma_run_push(s, a, Draw::Print(" "@));
        assert(paint::blanks(n) =~= a.push(Draw::Print(" "@)));
        reveal_strlit(" ");
        reveal_with_fuel(printed, 2);
        assert(" "@.drop_last() =~= Seq::<char>::empty());
        let now = run(s, paint::blanks(n));
        assert(now == typed(run(s, a), ' '));
        assert forall|i: int|
            #![trigger now.cells[(s.x + i, s.y)]]
            0 <= i < n implies now.cells[(s.x + i, s.y)].ch == ' ' by {
            if i < l {
                assert(now.cells[(s.x + i, s.y)] == mid.cells[(s.x + i, s.y)]);
            }
        }
        assert forall|px: int, py: int|
            #![trigger now.cells[(px, py)]]
            !(s.x <= px < s.x + n && s.y <= py < s.y + 1) implies s.cells[(px, py)]
            == now.cells[(px, py)] by {
            assert(now.cells[(px, py)] == mid.cells[(px, py)]);
        }
    }
}

proof fn lemma_blank_rows(s: Screen, r: Rect, k: nat)
    requires
        r.fits(),
        k <= r.h,
    ensures
        ({
            let now = run(s, paint::blank_rows(r, k));
            &&& forall|px: int, py: int|
                #![trigger now.cells[(px, py)]]
                r.x <= px < r.x + r.w && r.y <= py < r.y + k ==> now.cells[(px, py)].ch == ' '
            &&& same_outside(s, now, r.x as int, r.y as int, r.w as int, k as int)
        }),
    decreases k,
{
    if k > 0 {
        let l = (k - 1) as nat;
        lemma_blank_rows(s, r, l);
        let before = paint::blank_rows(r, l);
        let d = Draw::MoveTo(r.x, (r.y + k - 1) as u16);
        lemma_run_push(s, before, d);
        let mid = run(s, before.push(d));
        lemma_run_add(s, before.push(d), paint::blanks(r.w as nat));
        assert(before + seq![d] =~= before.push(d));
        lemma_blanks(mid, r.w as nat);
        let now = run(s, paint::blank_rows(r, k));
        assert(now == run(mid, paint::blanks(r.w as nat)));
        assert forall|px: int, py: int|
            #![trigger now.cells[(px, py)]]
            r.x <= px < r.x + r.w && r.y <= py < r.y + k implies now.cells[(px, py)].ch == ' ' by {
            if py < r.y + l {
                assert(now.cells[(px, py)] == mid.cells[(px, py)]);
            } else {
                assert((px, py) == (mid.x + (px - r.x), mid.y));
            }
        }
        assert forall|px: int, py: int|
            #![trigger now.cells[(px, py)]]
            !(r.x <= px < r.x + r.w && r.y <= py < r.y + k) implies s.cells[(px, py)] == now.cells[(
            px,
            py,
        )] by {
            assert(now.cells[(px, py)] == mid.cells[(px, py)]);
        }
    }
}

/// A pane that is cleared shows blanks, and nothing else changes.
pub proof fn clearing_leaves_blanks(s: Screen, r: Rect)
    requires
        r.fits(),
    ensures
        ({
            let now = run(s, paint::cleared_rect(r));
            &&& forall|px: int, py: int|
                #![trigger now.cells[(px, py)]]
                r.holds(px, py) ==> now.cells[(px, py)].ch == ' '
            &&& same_outside(s, now, r.x as int, r.y as int, r.w as int, r.h as int)
        }),
{
    lemma_blank_rows(s, r, r.h as nat);
}

/// The title that is cleared is the row of cells above the pane.
pub proof fn clearing_a_title_clears_the_row_above(s: Screen, r: Rect)
    requires
        r.fits(),
        r.y > 0,
    ensures
        ({
            let now = run(s, paint::cleared_title(r));
            &&& forall|px: int|
                #![trigger now.cells[(px, r.y - 1)]]
                r.x <= px < r.x + r.w ==> now.cells[(px, r.y - 1)].ch == ' '
            &&& same_outside(s, now, r.x as int, r.y - 1, r.w as int, 1)
        }),
{
    if r.w > 0 {
        let d = Draw::MoveTo(r.x, (r.y - 1) as u16);
        let e = Seq::<Draw>::empty();
        lemma_run_push(s, e, d);
        let mid = run(s, e.push(d));
        assert(seq![d] =~= e.push(d));
        lemma_run_add(s, seq![d], paint::blanks(r.w as nat));
        lemma_blanks(mid, r.w as nat);
        let now = run(s, paint::cleared_title(r));
        assert(now == run(mid, paint::blanks(r.w as nat)));
        assert forall|px: int|
            #![trigger now.cells[(px, r.y - 1)]]
            r.x <= px < r.x + r.w implies now.cells[(px, r.y - 1)].ch == ' ' by {
            assert((px, r.y - 1) == (mid.x + (px - r.x), mid.y));
        }
    }
}

/// The cursor of a frame stands in the row and column of the active pane's
/// cursor, counted from the corner of the pane, and is shown.
pub proof fn the_cursor_stands_in_its_pane(s: Screen, ops: Seq<Draw>, shot: PaneShot, r: Rect)
    requires
        r.fits(),
        shot.alive,
        shot.cursor.0 < r.h,
        shot.cursor.1 < r.w,
    ensures
        ({
            let (row, col) = shot.cursor;
            let placed = paint::cursor_ops(Some(shot), Some(r));
            let now = run(
                s,
                ops + placed + seq![Draw::ResetColor, Draw::ResetAttributes],
            );
            &&& now.x == r.x + col && now.y == r.y + row
            &&& now.cells == run(s, ops).cells
            &&& placed.last() == Draw::ShowCursor
        }),
{
    let (row, col) = shot.cursor;
    let d = Draw::MoveTo((r.x + col) as u16, (r.y + row) as u16);
    let a = ops.push(d);
    let b = a.push(Draw::ShowCursor);
    let c = b.push(Draw::ResetColor);
    lemma_run_push(s, ops, d);
    lemma_run_push(s, a, Draw::ShowCursor);
    lemma_run_push(s, b, Draw::ResetColor);
    lemma_run_push(s, c, Draw::ResetAttributes);
    assert(ops + paint::cursor_ops(Some(shot), Some(r)) + seq![
        Draw::ResetColor,
        Draw::ResetAttributes,
    ] =~= c.push(Draw::ResetAttributes));
}

/// Every border cell shows its character in its colour; where no border cell
/// is, nothing changes.
pub proof fn border_cells_are_shown(
    s: Screen,
    cells: Seq<BorderCell>,
    k: nat,
    dragging: bool,
    active: Option<Rect>,
    ch: render::BorderTexts,
)
    requires
        k <= cells.len(),
        forall|i: int, j: int|
            0 <= i < j < cells.len() ==> (#[trigger] cells[i]).x != (#[trigger] cells[j]).x
                || cells[i].y != cells[j].y,
        forall|i: int|
            0 <= i < cells.len() ==> render::cell_text((#[trigger] cells[i]).flags, ch).len() == 1,
    ensures
        ({
            let now = run(s, paint::border_ops(cells, k, dragging, active, ch));
            &&& forall|i: int|
                #![trigger cells[i]]
                0 <= i < k ==> {
                    let c = cells[i];
                    let g = now.cells[(c.x as int, c.y as int)];
                    &&& g.ch == render::cell_text(c.flags, ch)[0]
                    &&& g.style.fg == (if dragging {
                        Color::Yellow
                    } else if active matches Some(r) && render::around(c.x as int, c.y as int, r) {
                        Color::Cyan
                    } else {
                        Color::DarkGrey
                    })
                }
            &&& forall|px: int, py: int|
                #![trigger now.cells[(px, py)]]
                (forall|i: int| 0 <= i < k ==> (#[trigger] cells[i]).x != px || cells[i].y != py)
                    ==> now.cells[(px, py)] == s.cells[(px, py)]
        }),
    decreases k,
{
    if k > 0 {
        let l = (k - 1) as nat;
        border_cells_are_shown(s, cells, l, dragging, active, ch);
        let before = paint::border_ops(cells, l, dragging, active, ch);
        let c = cells[l as int];
        let t = render::cell_text(c.flags, ch);
        let mid = run(s, before);
        let d1 = Draw::MoveTo(c.x, c.y);
        let d2 = Draw::Foreground(paint::border_color(c, dragging, active));
        let a = before.push(d1);
        let b = a.push(d2);
        lemma_run_push(s, before, d1);
        lemma_run_push(s, a, d2);
        lemma_run_push(s, b, Draw::Print(t));
        assert(paint::border_ops(cells, k, dragging, active, ch) =~= b.push(Draw::Print(t)));
        reveal_with_fuel(printed, 2);
        assert(t.drop_last() =~= Seq::<char>::empty());
        let now = run(s, paint::border_ops(cells, k, dragging, active, ch));
        assert(now == typed(run(s, b), t[0]));
        assert(run(s, b).cells == mid.cells && run(s, b).x == c.x && run(s, b).y == c.y);
        assert forall|i: int|
            #![trigger cells[i]]
            0 <= i < k implies {
            let c = cells[i];
            let g = now.cells[(c.x as int, c.y as int)];
            &&& g.ch == render::cell_text(c.flags, ch)[0]
            &&& g.style.fg == (if dragging {
                Color::Yellow
            } else if active matches Some(r) && render::around(c.x as int, c.y as int, r) {
                Color::Cyan
            } else {
                Color::DarkGrey
            })
        } by {
            lemma_typed(run(s, b), t[0], cells[i].x as int, cells[i].y as int);
            if i < l {
                assert(cells[i].x != cells[l as int].x || cells[i].y != cells[l as int].y);
                assert(now.cells[(cells[i].x as int, cells[i].y as int)] == mid.cells[(
                    cells[i].x as int,
                    cells[i].y as int,
                )]);
            }
        }
        assert forall|px: int, py: int|
            #![trigger now.cells[(px, py)]]
            (forall|i: int| 0 <= i < k ==> (#[trigger] cells[i]).x != px || cells[i].y
                != py) implies now.cells[(px, py)] == s.cells[(px, py)] by {
            assert(cells[l as int].x != px || cells[l as int].y != py);
            lemma_typed(run(s, b), t[0], px, py);
            assert(now.cells[(px, py)] == mid.cells[(px, py)]);
        }
    }
}

// ─── Lines of text ─────────────────────────────────────────

/// The operations only print and change the look.
spec fn stays_on_line(ops: Seq<Draw>) -> bool {
    forall|i: int|
        0 <= i < ops.len() ==> !((#[trigger] ops[i]) is MoveTo) && !(ops[i] is ClearAll)
}

/// How many characters are printed.
spec fn width(ops: Seq<Draw>) -> nat
    decreases ops.len(),
{
    if ops.len() == 0 {
        0
    } else {
        width(ops.drop_last()) + (match ops.last() {
            Draw::Print(t) => t.len(),
            _ => 0,
        })
    }
}

proof fn lemma_width_add(a: Seq<Draw>, b: Seq<Draw>)
    ensures
        width(a + b) == width(a) + width(b),
    decreases b.len(),
{
    if b.len() == 0 {
        assert(a + b =~= a);
    } else {
        assert((a + b).drop_last() =~= a + b.drop_last());
        lemma_width_add(a, b.drop_last());
    }
}

/// Printing goes on to the right, in the row of the cursor.
proof fn lemma_line(s: Screen, ops: Seq<Draw>)
    requires
        stays_on_line(ops),
    ensures
        ({
            let now = run(s, ops);
            &&& now.x == s.x + width(ops) && now.y == s.y
            &&& same_outside(s, now, s.x, s.y, width(ops) as int, 1)
        }),
    decreases ops.len(),
{
    if ops.len() > 0 {
        let init = ops.drop_last();
        assert forall|i: int| 0 <= i < init.len() implies !((#[trigger] init[i]) is MoveTo) && !(
        init[i] is ClearAll) by {
            assert(init[i] == ops[i]);
        }
        lemma_line(s, init);
        let mid = run(s, init);
        let now = run(s, ops);
        assert(now == after(mid, ops.last()));
        assert(ops.last() == ops[ops.len() - 1]);
        match ops.last() {
            Draw::Print(t) => {
                lemma_printed(mid, t);
                assert forall|px: int, py: int|
                    #![trigger now.cells[(px, py)]]
                    !(s.x <= px < s.x + width(ops) && s.y <= py < s.y + 1) implies s.cells[(
                    px,
                    py,
                )] == now.cells[(px, py)] by {
                    assert(now.cells[(px, py)] == mid.cells[(px, py)]);
                }
            },
            _ => {
                assert(now.cells == mid.cells);
            },
        }
    }
}

proof fn lemma_repeated(h: Seq<char>, n: nat)
    ensures
        width(render::repeated(h, n)) == n * h.len(),
        stays_on_line(render::repeated(h, n)),
    decreases n,
{
    if n > 0 {
        lemma_repeated(h, (n - 1) as nat);
        assert(render::repeated(h, n).drop_last() =~= render::repeated(h, (n - 1) as nat));
        assert(n * h.len() == (n - 1) * h.len() + h.len()) by (nonlinear_arith);
    } else {
        assert(0 * h.len() == 0) by (nonlinear_arith);
    }
}

/// `before` and `rest` stay on their line, and between them a text is printed:
/// it stands right after what `before` printed.
proof fn lemma_text_on_line(s: Screen, before: Seq<Draw>, t: Seq<char>, rest: Seq<Draw>)
    requires
        stays_on_line(before),
        stays_on_line(rest),
    ensures
        ({
            let ops = before.push(Draw::Print(t)) + rest;
            let now = run(s, ops);
            &&& stays_on_line(ops)
            &&& width(ops) == width(before) + t.len() + width(rest)
            &&& forall|i: int|
                #![trigger now.cells[(s.x + width(before) + i, s.y)]]
                0 <= i < t.len() ==> now.cells[(s.x + width(before) + i, s.y)].ch == t[i]
        }),
{
    let p = before.push(Draw::Print(t));
    let ops = p + rest;
    assert forall|i: int| 0 <= i < ops.len() implies !((#[trigger] ops[i]) is MoveTo) && !(ops[i]
        is ClearAll) by {
        if i < before.len() {
            assert(ops[i] == before[i]);
        } else if i > before.len() {
            assert(ops[i] == rest[i - p.len()]);
        }
    }
    lemma_width_add(p, rest);
    assert(p.drop_last() =~= before);
    lemma_line(s, before);
    lemma_run_push(s, before, Draw::Print(t));
    lemma_printed(run(s, before), t);
    lemma_run_add(s, p, rest);
    let mid = run(s, p);
    lemma_line(mid, rest);
    let now = run(s, ops);
    let at = s.x + width(before);
    assert forall|i: int|
        #![trigger now.cells[(at + i, s.y)]]
        0 <= i < t.len() implies now.cells[(at + i, s.y)].ch == t[i] by {
        assert(now.cells[(at + i, s.y)] == mid.cells[(at + i, s.y)]);
        assert(mid.cells[(run(s, before).x + i, run(s, before).y)].ch == t[i]);
    }
}

spec fn title_color(active: bool) -> Color {
    if active {
        Color::Cyan
    } else {
        Color::DarkGrey
    }
}

/// What is drawn on the line of a title before its text.
spec fn before_title(active: bool, alive: bool, h: Seq<char>) -> Seq<Draw> {
    seq![Draw::Foreground(title_color(active)), Draw::Print(h)] + (if active {
        seq![Draw::Foreground(Color::White), Draw::Bold]
    } else {
        seq![]
    }) + (if alive {
        seq![]
    } else {
        seq![Draw::Foreground(Color::DarkGrey)]
    })
}

/// What is drawn on the line of a title after its text.
spec fn after_title(active: bool, h: Seq<char>, n: nat, right: int) -> Seq<Draw> {
    seq![Draw::ResetAttributes, Draw::Foreground(title_color(active))] + render::repeated(h, n)
        + paint::buttons(right, active) + seq![Draw::ResetColor]
}

proof fn lemma_one(d: Draw)
    requires
        !(d is Print),
    ensures
        width(seq![d]) == 0,
{
    assert(seq![d].drop_last() =~= Seq::<Draw>::empty());
    assert(width(Seq::<Draw>::empty()) == 0);
    assert(seq![d].last() == d);
}

proof fn lemma_two(c: Draw, d: Draw)
    requires
        !(c is Print),
        !(d is Print),
    ensures
        width(seq![c, d]) == 0,
{
    assert(seq![c, d].drop_last() =~= seq![c]);
    lemma_one(c);
}

proof fn lemma_before_title(active: bool, alive: bool, h: Seq<char>)
    ensures
        width(before_title(active, alive, h)) == h.len(),
        stays_on_line(before_title(active, alive, h)),
{
    let color = title_color(active);
    let b0 = seq![Draw::Foreground(color), Draw::Print(h)];
    let b1 = if active {
        seq![Draw::Foreground(Color::White), Draw::Bold]
    } else {
        seq![]
    };
    let b2 = if alive {
        seq![]
    } else {
        seq![Draw::Foreground(Color::DarkGrey)]
    };
    assert(b0.drop_last() =~= seq![Draw::Foreground(color)]);
    lemma_one(Draw::Foreground(color));
    lemma_one(Draw::Foreground(Color::DarkGrey));
    lemma_two(Draw::Foreground(Color::White), Draw::Bold);
    lemma_width_add(b0, b1);
    lemma_width_add(b0 + b1, b2);
    assert(before_title(active, alive, h) == b0 + b1 + b2);
}

proof fn lemma_after_title(active: bool, h: Seq<char>, n: nat, right: int)
    requires
        h.len() == 1,
        right == 12 || right == 2 || right == 0,
    ensures
        width(after_title(active, h, n, right)) <= n + right,
        stays_on_line(after_title(active, h, n, right)),
{
    let c0 = seq![Draw::ResetAttributes, Draw::Foreground(title_color(active))];
    let c1 = render::repeated(h, n);
    let c2 = paint::buttons(right, active);
    let c3 = seq![Draw::ResetColor];
    let rest = after_title(active, h, n, right);
    lemma_repeated(h, n);
    assert(n * 1 == n);
    lemma_buttons_width(right, active);
    lemma_two(Draw::ResetAttributes, Draw::Foreground(title_color(active)));
    lemma_one(Draw::ResetColor);
    lemma_width_add(c0, c1);
    lemma_width_add(c0 + c1, c2);
    lemma_width_add(c0 + c1 + c2, c3);
    assert(rest == c0 + c1 + c2 + c3);
    assert forall|i: int| 0 <= i < rest.len() implies !((#[trigger] rest[i]) is MoveTo) && !(rest[i]
        is ClearAll) by {
        let l0 = c0.len() as int;
        let l1 = l0 + c1.len();
        let l2 = l1 + c2.len();
        if i < l0 {
            assert(rest[i] == c0[i]);
        } else if i < l1 {
            assert(rest[i] == c1[i - l0]);
        } else if i < l2 {
            assert(rest[i] == c2[i - l1]);
        } else {
            assert(rest[i] == c3[i - l2]);
        }
    }
}

proof fn lemma_title_ops(r: Rect, idx: nat, active: bool, alive: bool, h: Seq<char>)
    requires
        r.y > 0,
        r.w >= 4,
        r.w >= 1 + paint::title_text(idx, alive).len() + paint::buttons_len(
            r.w as int,
            paint::title_text(idx, alive).len() as int,
        ),
    ensures
        ({
            let title = paint::title_text(idx, alive);
            let right = paint::buttons_len(r.w as int, title.len() as int);
            let n = (r.w - title.len() - 1 - right) as nat;
            paint::pane_title(r, idx, active, alive, h) == seq![
                Draw::MoveTo(r.x, (r.y - 1) as u16),
            ] + (before_title(active, alive, h).push(Draw::Print(title)) + after_title(
                active,
                h,
                n,
                right,
            ))
        }),
{
    let title = paint::title_text(idx, alive);
    let right = paint::buttons_len(r.w as int, title.len() as int);
    let n = (r.w - title.len() - 1 - right) as nat;
    assert(paint::pane_title(r, idx, active, alive, h) =~= seq![
        Draw::MoveTo(r.x, (r.y - 1) as u16),
    ] + (before_title(active, alive, h).push(Draw::Print(title)) + after_title(
        active,
        h,
        n,
        right,
    )));
}

/// The title of a pane stands in the row above it, one cell from its left edge:
/// a blank, the number of the pane counted from one, and a blank, or a note that
/// its program has ended. Nothing else than that row changes, and of it no more
/// than the width of the pane.
pub proof fn the_title_stands_above_its_pane(
    s: Screen,
    r: Rect,
    idx: nat,
    active: bool,
    alive: bool,
    h: Seq<char>,
)
    requires
        r.fits(),
        r.y > 0,
        h.len() == 1,
        r.w >= 4,
        r.w >= 1 + paint::title_text(idx, alive).len() + paint::buttons_len(
            r.w as int,
            paint::title_text(idx, alive).len() as int,
        ),
    ensures
        ({
            let now = run(s, paint::pane_title(r, idx, active, alive, h));
            let title = seq![' '] + text::decimal(idx + 1) + (if alive {
                " "@
            } else {
                " [exited] "@
            });
            &&& forall|i: int|
                #![trigger now.cells[(r.x + 1 + i, r.y - 1)]]
                0 <= i < title.len() ==> now.cells[(r.x + 1 + i, r.y - 1)].ch == title[i]
            &&& same_outside(s, now, r.x as int, r.y - 1, r.w as int, 1)
        }),
{
    let title = paint::title_text(idx, alive);
    let right = paint::buttons_len(r.w as int, title.len() as int);
    let n = (r.w - title.len() - 1 - right) as nat;
    let first = Draw::MoveTo(r.x, (r.y - 1) as u16);
    let before = before_title(active, alive, h);
    let rest = after_title(active, h, n, right);
    let ops = before.push(Draw::Print(title)) + rest;
    lemma_title_ops(r, idx, active, alive, h);
    lemma_before_title(active, alive, h);
    lemma_after_title(active, h, n, right);
    let e = Seq::<Draw>::empty();
    lemma_run_push(s, e, first);
    assert(seq![first] =~= e.push(first));
    lemma_run_add(s, seq![first], ops);
    let start = run(s, seq![first]);
    lemma_text_on_line(start, before, title, rest);
    lemma_line(start, ops);
    let now = run(s, paint::pane_title(r, idx, active, alive, h));
    assert(now == run(start, ops));
    assert forall|i: int|
        #![trigger now.cells[(r.x + 1 + i, r.y - 1)]]
        0 <= i < title.len() implies now.cells[(r.x + 1 + i, r.y - 1)].ch == title[i] by {
        assert((r.x + 1 + i, r.y - 1) == (start.x + width(before) + i, start.y));
    }
}

proof fn lemma_buttons_width(len: int, active: bool)
    ensures
        width(paint::buttons(len, active)) <= (if len == 12 {
            11int
        } else if len == 2 {
            2
        } else {
            0
        }),
        stays_on_line(paint::buttons(len, active)),
{
    reveal_strlit("[━] [┃] ");
    reveal_strlit("[×]");
    reveal_strlit(" ×");
    let b = paint::buttons(len, active);
    if len == 12 {
        let b3 = b.drop_last();
        let b2 = b3.drop_last();
        let b1 = b2.drop_last();
        assert(width(b1.drop_last()) == 0);
        assert(width(b1) == 0);
        assert(width(b2) == 8);
        assert(width(b3) == 8);
    } else if len == 2 {
        let b1 = b.drop_last();
        assert(width(b1.drop_last()) == 0);
        assert(width(b1) == 0);
    }
}

/// The operations draw in one row alone.
spec fn in_row(ops: Seq<Draw>, y: u16) -> bool {
    forall|i: int|
        0 <= i < ops.len() ==> !((#[trigger] ops[i]) is ClearAll) && (ops[i] matches Draw::MoveTo(
            _,
            b,
        ) ==> b == y)
}

proof fn lemma_in_row(s: Screen, ops: Seq<Draw>, y: u16)
    requires
        s.y == y,
        in_row(ops, y),
    ensures
        run(s, ops).y == y,
        forall|px: int, py: int|
            #![trigger run(s, ops).cells[(px, py)]]
            py != y ==> run(s, ops).cells[(px, py)] == s.cells[(px, py)],
    decreases ops.len(),
{
    if ops.len() > 0 {
        let init = ops.drop_last();
        assert forall|i: int| 0 <= i < init.len() implies !((#[trigger] init[i]) is ClearAll) && (
        init[i] matches Draw::MoveTo(_, b) ==> b == y) by {
            assert(init[i] == ops[i]);
        }
        lemma_in_row(s, init, y);
        let mid = run(s, init);
        assert(ops.last() == ops[ops.len() - 1]);
        match ops.last() {
            Draw::Print(t) => {
                lemma_printed(mid, t);
                assert forall|px: int, py: int|
                    #![trigger run(s, ops).cells[(px, py)]]
                    py != y implies run(s, ops).cells[(px, py)] == s.cells[(px, py)] by {
                    assert(mid.cells[(px, py)] == s.cells[(px, py)]);
                }
            },
            _ => {
                assert(run(s, ops).cells == mid.cells);
            },
        }
    }
}

/// The status bar touches one row.
proof fn lemma_status_bar(
    s: Screen,
    term_w: u16,
    term_h: u16,
    active_idx: nat,
    total: nat,
    label: Seq<char>,
)
    requires
        term_h > 0,
    ensures
        ({
            let now = run(s, paint::status_bar(term_w, term_h, active_idx, total, label));
            forall|px: int, py: int|
                #![trigger now.cells[(px, py)]]
                py != term_h - 1 ==> now.cells[(px, py)] == s.cells[(px, py)]
        }),
{
    let y = (term_h - 1) as u16;
    let shown = paint::pane_count_text(active_idx, total);
    let hints = paint::fitting(5, paint::left_end(active_idx, total, label), term_w as nat).0;
    let head = paint::status_head(term_w, y);
    let mid_ops = seq![Draw::ResetAttributes, Draw::Background(paint::status_bg())];
    let labels = paint::label_ops(label);
    let hint = paint::hint_ops(hints, term_w, y);
    let tail = seq![Draw::ResetColor, Draw::ResetAttributes];
    let all = paint::status_bar(term_w, term_h, active_idx, total, label);
    let look = seq![Draw::Foreground(Color::Cyan), Draw::Bold];
    let mv = Draw::MoveTo(1, y);
    let line = look.push(Draw::Print(shown)) + (labels + mid_ops);
    assert(all =~= head.push(mv) + line + hint + tail);
    let first = Draw::MoveTo(0, y);
    let rest = all.skip(1);
    assert(all[0] == first);
    assert(all =~= seq![first] + rest);
    lemma_status_row(term_w, y, hint, head, line, tail);
    let e = Seq::<Draw>::empty();
    lemma_run_push(s, e, first);
    assert(seq![first] =~= e.push(first));
    lemma_run_add(s, seq![first], rest);
    assert(in_row(rest, y)) by {
        assert forall|i: int| 0 <= i < rest.len() implies !((#[trigger] rest[i]) is ClearAll) && (
        rest[i] matches Draw::MoveTo(_, b) ==> b == y) by {
            assert(rest[i] == all[i + 1]);
            assert(all[i + 1] == (head.push(mv) + line + hint + tail)[i + 1]);
        }
    }
    lemma_in_row(run(s, seq![first]), rest, y);
}

/// The status bar is drawn in the last row of the screen and in no other, and
/// shows from its second column on which of how many panes is active.
pub proof fn the_status_bar_is_the_last_row(
    s: Screen,
    term_w: u16,
    term_h: u16,
    active_idx: nat,
    total: nat,
    label: Seq<char>,
)
    requires
        term_h > 0,
        paint::left_end(active_idx, total, label) < term_w,
    ensures
        ({
            let now = run(s, paint::status_bar(term_w, term_h, active_idx, total, label));
            let shown = "Pane "@ + text::decimal(active_idx + 1) + "/"@ + text::decimal(total);
            &&& forall|px: int, py: int|
                #![trigger now.cells[(px, py)]]
                py != term_h - 1 ==> now.cells[(px, py)] == s.cells[(px, py)]
            &&& forall|i: int|
                #![trigger now.cells[(1 + i, term_h - 1)]]
                0 <= i < shown.len() ==> now.cells[(1 + i, term_h - 1)].ch == shown[i]
        }),
{
    let y = (term_h - 1) as u16;
    let shown = paint::pane_count_text(active_idx, total);
    let hints = paint::fitting(5, paint::left_end(active_idx, total, label), term_w as nat).0;
    let head = paint::status_head(term_w, y);
    let mid_ops = seq![Draw::ResetAttributes, Draw::Background(paint::status_bg())];
    let labels = paint::label_ops(label);
    let hint = paint::hint_ops(hints, term_w, y);
    let tail = seq![Draw::ResetColor, Draw::ResetAttributes];
    let all = paint::status_bar(term_w, term_h, active_idx, total, label);
    let look = seq![Draw::Foreground(Color::Cyan), Draw::Bold];
    let mv = Draw::MoveTo(1, y);
    let line = look.push(Draw::Print(shown)) + (labels + mid_ops);
    assert(all =~= head.push(mv) + line + hint + tail);
    lemma_status_bar(s, term_w, term_h, active_idx, total, label);
    // the text is printed from column one on, and what follows is to its right
    let start = run(s, head.push(mv));
    lemma_run_push(s, head, mv);
    lemma_two(Draw::Foreground(Color::Cyan), Draw::Bold);
    assert(stays_on_line(labels + mid_ops));
    lemma_text_on_line(start, look, shown, labels + mid_ops);
    lemma_run_add(s, head.push(mv), line);
    lemma_run_add(s, head.push(mv) + line, hint);
    lemma_run_add(s, head.push(mv) + line + hint, tail);
    let drawn = run(s, head.push(mv) + line);
    let hinted = run(drawn, hint);
    let now = run(s, all);
    assert(now == run(hinted, tail));
    lemma_line(hinted, tail);
    lemma_two(Draw::ResetColor, Draw::ResetAttributes);
    lemma_hints_fit(5, paint::left_end(active_idx, total, label), term_w as nat);
    lemma_hint(drawn, hints, term_w, y);
    assert forall|i: int|
        #![trigger now.cells[(1 + i, term_h - 1)]]
        0 <= i < shown.len() implies now.cells[(1 + i, term_h - 1)].ch == shown[i] by {
        assert((1 + i, term_h - 1) == (start.x + width(look) + i, start.y));
        assert(hinted.cells[(1 + i, y as int)] == drawn.cells[(1 + i, y as int)]);
        assert(now.cells[(1 + i, y as int)] == hinted.cells[(1 + i, y as int)]);
    }
}

/// The hints leave room for what stands on the left.
proof fn lemma_hints_fit(k: nat, left: nat, w: nat)
    ensures
        ({
            let t = paint::fitting(k, left, w).0;
            t.len() == 0 || t.len() + left + 4 < w
        }),
    decreases k,
{
    if k > 0 {
        lemma_hints_fit((k - 1) as nat, left, w);
    }
}

proof fn lemma_hint(s: Screen, hints: Seq<char>, term_w: u16, y: u16)
    requires
        hints.len() == 0 || hints.len() + 1 <= term_w,
    ensures
        forall|px: int, py: int|
            #![trigger run(s, paint::hint_ops(hints, term_w, y)).cells[(px, py)]]
            px < term_w - hints.len() - 1 ==> run(s, paint::hint_ops(hints, term_w, y)).cells[(
                px,
                py,
            )] == s.cells[(px, py)],
{
    if hints.len() > 0 {
        let d = Draw::MoveTo((term_w - hints.len() - 1) as u16, y);
        let e = Seq::<Draw>::empty();
        let a = e.push(d);
        let b = a.push(Draw::Foreground(Color::Grey));
        lemma_run_push(s, e, d);
        lemma_run_push(s, a, Draw::Foreground(Color::Grey));
        lemma_run_push(s, b, Draw::Print(hints));
        lemma_printed(run(s, b), hints);
        assert(paint::hint_ops(hints, term_w, y) =~= b.push(Draw::Print(hints)));
    }
}

proof fn lemma_status_row(
    term_w: u16,
    y: u16,
    hint: Seq<Draw>,
    head: Seq<Draw>,
    line: Seq<Draw>,
    tail: Seq<Draw>,
)
    requires
        head == paint::status_head(term_w, y),
        in_row(line, y),
        in_row(hint, y),
        in_row(tail, y),
    ensures
        in_row(head.push(Draw::MoveTo(1, y)) + line + hint + tail, y),
{
    let m = head.push(Draw::MoveTo(1, y));
    let all = m + line + hint + tail;
    assert forall|i: int| 0 <= i < all.len() implies !((#[trigger] all[i]) is ClearAll) && (
    all[i] matches Draw::MoveTo(_, b) ==> b == y) by {
        let l0 = m.len() as int;
        let l1 = l0 + line.len();
        let l2 = l1 + hint.len();
        if i < l0 {
            assert(all[i] == m[i]);
            if 3 <= i < l0 - 1 {
                assert(m[i] == render::repeated(" "@, term_w as nat)[i - 3]);
            }
        } else if i < l1 {
            assert(all[i] == line[i - l0]);
        } else if i < l2 {
            assert(all[i] == hint[i - l1]);
        } else {
            assert(all[i] == tail[i - l2]);
        }
    }
}

/// The notice on a pane whose program has ended stands inside the pane, in its
/// middle row, and as far from its left edge as from its right one, give or
/// take a cell.
pub proof fn the_notice_stands_in_the_middle(s: Screen, r: Rect)
    requires
        r.fits(),
        r.w >= 24,
        r.h >= 1,
    ensures
        ({
            let now = run(s, paint::dead_overlay(r));
            let t = "[press Enter to respawn]"@;
            let left = (r.w - 24) / 2;
            let right = r.w - 24 - left;
            &&& t.len() == 24
            &&& forall|i: int|
                #![trigger now.cells[(r.x + left + i, r.y + r.h as int / 2)]]
                0 <= i < 24 ==> now.cells[(r.x + left + i, r.y + r.h as int / 2)].ch == t[i]
                    && r.holds(r.x + left + i, r.y + r.h as int / 2)
            &&& 0 <= right - left <= 1
            &&& same_outside(s, now, r.x + left, r.y + r.h as int / 2, 24, 1)
        }),
{
    reveal_strlit("[press Enter to respawn]");
    let t = "[press Enter to respawn]"@;
    let left = (r.w - 24) / 2;
    let first = Draw::MoveTo((r.x + left) as u16, (r.y + r.h as int / 2) as u16);
    let before = seq![Draw::Foreground(Color::DarkGrey), Draw::Italic];
    let rest = seq![Draw::ResetAttributes];
    let ops = before.push(Draw::Print(t)) + rest;
    assert(paint::dead_overlay(r) =~= seq![first] + ops);
    lemma_two(Draw::Foreground(Color::DarkGrey), Draw::Italic);
    lemma_one(Draw::ResetAttributes);
    let e = Seq::<Draw>::empty();
    lemma_run_push(s, e, first);
    assert(seq![first] =~= e.push(first));
    lemma_run_add(s, seq![first], ops);
    let start = run(s, seq![first]);
    lemma_text_on_line(start, before, t, rest);
    lemma_line(start, ops);
    let now = run(s, paint::dead_overlay(r));
    assert forall|i: int|
        #![trigger now.cells[(r.x + left + i, r.y + r.h as int / 2)]]
        0 <= i < 24 implies now.cells[(r.x + left + i, r.y + r.h as int / 2)].ch == t[i] && r.holds(
        r.x + left + i,
        r.y + r.h as int / 2,
    ) by {
        assert((r.x + left + i, r.y + r.h as int / 2) == (
            start.x + width(before) + i,
            start.y,
        ));
    }
}

// ─── A whole frame ─────────────────────────────────────────

/// The cell belongs to the pane or to the title above it.
pub open spec fn in_pane_or_title(r: Rect, px: int, py: int) -> bool {
    r.x <= px < r.x + r.w && r.y - 1 <= py < r.y + r.h
}

/// A title touches the row above its pane at most.
proof fn lemma_title_row(s: Screen, r: Rect, idx: nat, active: bool, alive: bool, h: Seq<char>)
    requires
        r.fits(),
        r.y > 0,
        h.len() == 1,
    ensures
        same_outside(
            s,
            run(s, paint::pane_title(r, idx, active, alive, h)),
            r.x as int,
            r.y - 1,
            r.w as int,
            1,
        ),
{
    let title = paint::title_text(idx, alive);
    let right = paint::buttons_len(r.w as int, title.len() as int);
    if r.w < 4 {
    } else if r.w < title.len() + 1 + right {
        let e = Seq::<Draw>::empty();
        lemma_run_push(s, e, Draw::ResetColor);
        assert(seq![Draw::ResetColor] =~= e.push(Draw::ResetColor));
    } else {
        the_title_stands_above_its_pane(s, r, idx, active, alive, h);
    }
}

/// Drawing a pane shows its contents and touches nothing outside the pane and
/// its title.
proof fn lemma_pane_ops(
    s: Screen,
    shot: PaneShot,
    r: Rect,
    idx: nat,
    active: bool,
    full: bool,
    h: Seq<char>,
)
    requires
        r.fits(),
        r.y > 0,
        h.len() == 1,
        shot.alive,
        one_column(shot.cells@),
    ensures
        ({
            let now = run(s, paint::pane_ops(Some(shot), r, idx, active, full, h));
            &&& forall|y: int, x: int|
                #![trigger now.cells[(r.x + x, r.y + y)]]
                0 <= y < r.h && 0 <= x < r.w ==> now.cells[(r.x + x, r.y + y)].ch == char_at(
                    shot.cells@,
                    y,
                    x,
                )
            &&& forall|px: int, py: int|
                #![trigger now.cells[(px, py)]]
                !in_pane_or_title(r, px, py) ==> now.cells[(px, py)] == s.cells[(px, py)]
        }),
{
    let clear = if full {
        seq![]
    } else {
        paint::cleared_rect(r) + paint::cleared_title(r)
    };
    let title = paint::pane_title(r, idx, active, true, h);
    let body = paint::content(shot.cells@, r, true);
    let all = paint::pane_ops(Some(shot), r, idx, active, full, h);
    assert(all =~= clear + title + body);
    lemma_run_add(s, clear, title);
    lemma_run_add(s, clear + title, body);
    let a = run(s, clear);
    if full {
        assert(clear =~= Seq::<Draw>::empty());
    } else {
        lemma_run_add(s, paint::cleared_rect(r), paint::cleared_title(r));
        clearing_leaves_blanks(s, r);
        clearing_a_title_clears_the_row_above(run(s, paint::cleared_rect(r)), r);
    }
    let m = run(s, paint::cleared_rect(r));
    assert forall|px: int, py: int|
        #![trigger a.cells[(px, py)]]
        !in_pane_or_title(r, px, py) implies a.cells[(px, py)] == s.cells[(px, py)] by {
        if !full {
            assert(a.cells[(px, py)] == m.cells[(px, py)]);
            assert(m.cells[(px, py)] == s.cells[(px, py)]);
        }
    }
    lemma_title_row(a, r, idx, active, true, h);
    let b = run(a, title);
    contents_are_shown(b, shot.cells@, r, true);
    let now = run(s, all);
    assert(now == run(b, body));
    assert forall|px: int, py: int|
        #![trigger now.cells[(px, py)]]
        !in_pane_or_title(r, px, py) implies now.cells[(px, py)] == s.cells[(px, py)] by {
        assert(now.cells[(px, py)] == b.cells[(px, py)]);
        assert(b.cells[(px, py)] == a.cells[(px, py)]);
        assert(a.cells[(px, py)] == s.cells[(px, py)]);
    }
}

/// The panes can be drawn one by one: each has a place whose cells are in no
/// other pane and in no other title, runs, and shows cells of one column.
pub open spec fn separate(
    panes: Map<usize, PaneShot>,
    all: Seq<usize>,
    rects: Map<usize, Rect>,
) -> bool {
    &&& forall|i: int|
        #![trigger all[i]]
        0 <= i < all.len() ==> rects.contains_key(all[i]) && rects[all[i]].fits() && rects[all[i]].y
            > 0 && panes.contains_key(all[i]) && panes[all[i]].alive && one_column(
            panes[all[i]].cells@,
        )
    &&& forall|i: int, j: int, px: int, py: int|
        #![trigger rects[all[i]].holds(px, py), in_pane_or_title(rects[all[j]], px, py)]
        0 <= i < all.len() && 0 <= j < all.len() && i != j && rects[all[i]].holds(px, py)
            ==> !in_pane_or_title(rects[all[j]], px, py)
}

proof fn lemma_panes(
    s: Screen,
    panes: Map<usize, PaneShot>,
    all: Seq<usize>,
    rects: Map<usize, Rect>,
    k: nat,
    active: usize,
    full: bool,
    dirty: Set<usize>,
    h: Seq<char>,
    j: int,
)
    requires
        0 <= j < all.len(),
        k <= all.len(),
        separate(panes, all, rects),
        h.len() == 1,
    ensures
        ({
            let now = run(s, paint::panes_ops(panes, all, rects, k, active, full, dirty, h));
            let r = rects[all[j]];
            let drawn = j < k && (full || dirty.contains(all[j]));
            &&& drawn ==> forall|y: int, x: int|
                #![trigger now.cells[(r.x + x, r.y + y)]]
                0 <= y < r.h && 0 <= x < r.w ==> now.cells[(r.x + x, r.y + y)].ch == char_at(
                    panes[all[j]].cells@,
                    y,
                    x,
                )
            &&& !drawn ==> forall|px: int, py: int|
                #![trigger now.cells[(px, py)]]
                r.holds(px, py) ==> now.cells[(px, py)] == s.cells[(px, py)]
        }),
    decreases k,
{
    if k > 0 {
        let l = (k - 1) as nat;
        lemma_panes(s, panes, all, rects, l, active, full, dirty, h, j);
        let before = paint::panes_ops(panes, all, rects, l, active, full, dirty, h);
        let mid = run(s, before);
        let id = all[l as int];
        let r = rects[all[j]];
        let now = run(s, paint::panes_ops(panes, all, rects, k, active, full, dirty, h));
        if full || dirty.contains(id) {
            let one = paint::pane_ops(
                paint::shot_of(panes, id),
                rects[id],
                l,
                id == active,
                full,
                h,
            );
            lemma_run_add(s, before, one);
            lemma_pane_ops(mid, panes[id], rects[id], l, id == active, full, h);
            assert(now == run(mid, one));
            if j != l {
                assert forall|px: int, py: int|
                    #![trigger now.cells[(px, py)]]
                    r.holds(px, py) implies now.cells[(px, py)] == mid.cells[(px, py)] by {
                    assert(rects[all[j]].holds(px, py));
                    assert(!in_pane_or_title(rects[all[l as int]], px, py));
                }
                assert forall|y: int, x: int|
                    #![trigger now.cells[(r.x + x, r.y + y)]]
                    0 <= y < r.h && 0 <= x < r.w implies now.cells[(r.x + x, r.y + y)]
                    == mid.cells[(r.x + x, r.y + y)] by {
                    assert(r.holds(r.x + x, r.y + y));
                }
            }
        } else {
            assert(before + seq![] =~= before);
            assert(now == mid);
        }
    }
}

/// A frame that draws everything shows the contents of every pane at its place,
/// whatever else it draws.
pub proof fn a_frame_shows_every_pane(
    s: Screen,
    panes: Map<usize, PaneShot>,
    all: Seq<usize>,
    active: usize,
    style: BorderStyle,
    show_status_bar: bool,
    term_w: u16,
    term_h: u16,
    dragging: bool,
    inner: Rect,
    rects: Map<usize, Rect>,
    cells: Seq<BorderCell>,
    dirty: Set<usize>,
    j: int,
)
    requires
        0 <= j < all.len(),
        separate(panes, all, rects),
        inner.w > 0 && inner.h > 0,
        term_h > 0,
        rects[all[j]].y + rects[all[j]].h < term_h,
    ensures
        ({
            let now = run(
                s,
                paint::frame(
                    panes,
                    all,
                    active,
                    style,
                    show_status_bar,
                    term_w,
                    term_h,
                    dragging,
                    inner,
                    rects,
                    cells,
                    dirty,
                    true,
                ),
            );
            let r = rects[all[j]];
            forall|y: int, x: int|
                #![trigger now.cells[(r.x + x, r.y + y)]]
                0 <= y < r.h && 0 <= x < r.w ==> now.cells[(r.x + x, r.y + y)].ch == char_at(
                    panes[all[j]].cells@,
                    y,
                    x,
                )
        }),
{
    let ch = render::border_texts(style);
    let place = paint::rect_of(rects, active);
    let o1 = paint::start_ops(true);
    let o2 = paint::border_ops(cells, cells.len(), dragging, place, ch);
    let o3 = paint::panes_ops(panes, all, rects, all.len(), active, true, dirty, ch.h);
    let o4 = if show_status_bar {
        paint::status_bar(
            term_w,
            term_h,
            layout::position(all, active) as nat,
            all.len(),
            seq![],
        )
    } else {
        seq![]
    };
    let o5 = paint::cursor_ops(paint::shot_of(panes, active), place);
    let o6 = seq![Draw::ResetColor, Draw::ResetAttributes];
    let ops = paint::frame(
        panes,
        all,
        active,
        style,
        show_status_bar,
        term_w,
        term_h,
        dragging,
        inner,
        rects,
        cells,
        dirty,
        true,
    );
    assert(ops =~= o1 + o2 + o3 + o4 + o5 + o6);
    lemma_run_add(s, o1 + o2, o3);
    lemma_run_add(s, o1 + o2 + o3, o4);
    lemma_run_add(s, o1 + o2 + o3 + o4, o5);
    lemma_run_add(s, o1 + o2 + o3 + o4 + o5, o6);
    let m2 = run(s, o1 + o2);
    let m3 = run(m2, o3);
    let m4 = run(m3, o4);
    let m5 = run(m4, o5);
    lemma_line_char(style);
    lemma_panes(m2, panes, all, rects, all.len(), active, true, dirty, ch.h, j);
    if show_status_bar {
        lemma_status_bar(
            m3,
            term_w,
            term_h,
            layout::position(all, active) as nat,
            all.len(),
            seq![],
        );
    } else {
        assert(o4 =~= Seq::<Draw>::empty());
    }
    lemma_still(m4, o5);
    lemma_still(m5, o6);
    let r = rects[all[j]];
    let now = run(s, ops);
    assert forall|y: int, x: int|
        #![trigger now.cells[(r.x + x, r.y + y)]]
        0 <= y < r.h && 0 <= x < r.w implies now.cells[(r.x + x, r.y + y)].ch == char_at(
        panes[all[j]].cells@,
        y,
        x,
    ) by {
        assert(now.cells == m4.cells);
        assert(m4.cells[(r.x + x, r.y + y)] == m3.cells[(r.x + x, r.y + y)]);
    }
}

/// Operations that print nothing and clear nothing leave the cells.
proof fn lemma_still(s: Screen, ops: Seq<Draw>)
    requires
        forall|i: int|
            0 <= i < ops.len() ==> !((#[trigger] ops[i]) is Print) && !(ops[i] is ClearAll),
    ensures
        run(s, ops).cells == s.cells,
    decreases ops.len(),
{
    if ops.len() > 0 {
        let init = ops.drop_last();
        assert forall|i: int| 0 <= i < init.len() implies !((#[trigger] init[i]) is Print) && !(
        init[i] is ClearAll) by {
            assert(init[i] == ops[i]);
        }
        lemma_still(s, init);
        assert(ops.last() == ops[ops.len() - 1]);
    }
}

proof fn lemma_line_char(style: BorderStyle)
    ensures
        render::border_texts(style).h.len() == 1,
{
    reveal_strlit("─");
    reveal_strlit("━");
    reveal_strlit("═");
    reveal_strlit(" ");
}

} // verus!
