//! How the lines around panes join, and what they enclose.

use vstd::prelude::*;
use vstd::string::*;

use crate::layout;
use crate::layout::geometry;
use crate::layout::{LayoutNode, Rect};
use crate::render;
use crate::render::{Arms, BorderStyle};

verus! {

/// The character of a cell with arms in the given directions.
pub open spec fn joined(style: BorderStyle, up: bool, down: bool, left: bool, right: bool) -> Seq<char> {
    render::cell_text(Arms { up, down, left, right }, render::border_texts(style))
}

/// The characters of single borders have an arm in each direction in which
/// their line goes on, and in no other.
pub proof fn single_lines_join()
    ensures
        joined(BorderStyle::Single, false, false, true, true) == "─"@,
        joined(BorderStyle::Single, true, true, false, false) == "│"@,
        joined(BorderStyle::Single, false, true, false, true) == "┌"@,
        joined(BorderStyle::Single, false, true, true, false) == "┐"@,
        joined(BorderStyle::Single, true, false, false, true) == "└"@,
        joined(BorderStyle::Single, true, false, true, false) == "┘"@,
        joined(BorderStyle::Single, false, true, true, true) == "┬"@,
        joined(BorderStyle::Single, true, false, true, true) == "┴"@,
        joined(BorderStyle::Single, true, true, false, true) == "├"@,
        joined(BorderStyle::Single, true, true, true, false) == "┤"@,
        joined(BorderStyle::Single, true, true, true, true) == "┼"@,
{
}

/// The characters of rounded borders have an arm in each direction in which
/// their line goes on, and in no other.
pub proof fn rounded_lines_join()
    ensures
        joined(BorderStyle::Rounded, false, false, true, true) == "─"@,
        joined(BorderStyle::Rounded, true, true, false, false) == "│"@,
        joined(BorderStyle::Rounded, false, true, false, true) == "╭"@,
        joined(BorderStyle::Rounded, false, true, true, false) == "╮"@,
        joined(BorderStyle::Rounded, true, false, false, true) == "╰"@,
        joined(BorderStyle::Rounded, true, false, true, false) == "╯"@,
        joined(BorderStyle::Rounded, false, true, true, true) == "┬"@,
        joined(BorderStyle::Rounded, true, false, true, true) == "┴"@,
        joined(BorderStyle::Rounded, true, true, false, true) == "├"@,
        joined(BorderStyle::Rounded, true, true, true, false) == "┤"@,
        joined(BorderStyle::Rounded, true, true, true, true) == "┼"@,
{
}

/// The characters of heavy borders have an arm in each direction in which
/// their line goes on, and in no other.
pub proof fn heavy_lines_join()
    ensures
        joined(BorderStyle::Heavy, false, false, true, true) == "━"@,
        joined(BorderStyle::Heavy, true, true, false, false) == "┃"@,
        joined(BorderStyle::Heavy, false, true, false, true) == "┏"@,
        joined(BorderStyle::Heavy, false, true, true, false) == "┓"@,
        joined(BorderStyle::Heavy, true, false, false, true) == "┗"@,
        joined(BorderStyle::Heavy, true, false, true, false) == "┛"@,
        joined(BorderStyle::Heavy, false, true, true, true) == "┳"@,
        joined(BorderStyle::Heavy, true, false, true, true) == "┻"@,
        joined(BorderStyle::Heavy, true, true, false, true) == "┣"@,
        joined(BorderStyle::Heavy, true, true, true, false) == "┫"@,
        joined(BorderStyle::Heavy, true, true, true, true) == "╋"@,
{
}

/// The characters of double borders have an arm in each direction in which
/// their line goes on, and in no other.
pub proof fn double_lines_join()
    ensures
        joined(BorderStyle::Double, false, false, true, true) == "═"@,
        joined(BorderStyle::Double, true, true, false, false) == "║"@,
        joined(BorderStyle::Double, false, true, false, true) == "╔"@,
        joined(BorderStyle::Double, false, true, true, false) == "╗"@,
        joined(BorderStyle::Double, true, false, false, true) == "╚"@,
        joined(BorderStyle::Double, true, false, true, false) == "╝"@,
        joined(BorderStyle::Double, false, true, true, true) == "╦"@,
        joined(BorderStyle::Double, true, false, true, true) == "╩"@,
        joined(BorderStyle::Double, true, true, false, true) == "╠"@,
        joined(BorderStyle::Double, true, true, true, false) == "╣"@,
        joined(BorderStyle::Double, true, true, true, true) == "╬"@,
{
}

/// The end of a line is drawn like the line, in every style.
pub proof fn ends_are_drawn_like_lines(style: BorderStyle)
    ensures
        joined(style, true, false, false, false) == joined(style, true, true, false, false),
        joined(style, false, true, false, false) == joined(style, true, true, false, false),
        joined(style, false, false, true, false) == joined(style, false, false, true, true),
        joined(style, false, false, false, true) == joined(style, false, false, true, true),
{
}

/// Nothing is seen of blank borders.
pub proof fn blank_lines_are_blank(up: bool, down: bool, left: bool, right: bool)
    ensures
        joined(BorderStyle::Blank, up, down, left, right) == " "@,
{
}

/// The frame takes the first and the last column and row of the screen; a
/// status bar takes a row below it. The panes share what it encloses.
pub proof fn the_frame_encloses_the_panes(show_status_bar: bool, term_w: u16, term_h: u16)
    requires
        term_w >= 3,
        term_h >= 4,
    ensures
        ({
            let outer = render::outer_rect(show_status_bar, term_w, term_h);
            let inner = render::inner_rect(show_status_bar, term_w, term_h);
            let bottom = if show_status_bar {
                term_h - 2
            } else {
                term_h - 1
            };
            &&& forall|x: int, y: int|
                #![trigger render::on_lines(render::frame_lines(outer), x, y)]
                render::on_lines(render::frame_lines(outer), x, y) <==> (0 <= x < term_w && 0 <= y
                    <= bottom && (x == 0 || x == term_w - 1 || y == 0 || y == bottom))
            &&& forall|x: int, y: int|
                #![trigger inner.holds(x, y)]
                inner.holds(x, y) <==> (0 < x < term_w - 1 && 0 < y < bottom)
        }),
{
    let outer = render::outer_rect(show_status_bar, term_w, term_h);
    let lines = render::frame_lines(outer);
    let bottom = if show_status_bar {
        term_h - 2
    } else {
        term_h - 1
    };
    assert forall|x: int, y: int|
        #![trigger render::on_lines(lines, x, y)]
        render::on_lines(lines, x, y) == (0 <= x < term_w && 0 <= y <= bottom && (x == 0 || x
            == term_w - 1 || y == 0 || y == bottom)) by {
        assert(render::on_line(lines[0], x, y) == (y == 0 && 0 <= x < term_w));
        assert(render::on_line(lines[1], x, y) == (y == bottom && 0 <= x < term_w));
        assert(render::on_line(lines[2], x, y) == (x == 0 && 0 <= y <= bottom));
        assert(render::on_line(lines[3], x, y) == (x == term_w - 1 && 0 <= y <= bottom));
        if render::on_lines(lines, x, y) {
            let i = choose|i: int| 0 <= i < lines.len() && #[trigger] render::on_line(lines[i], x, y);
            assert(i == 0 || i == 1 || i == 2 || i == 3);
        }
    }
}

/// The border of a pane is the line of cells around its rectangle.
pub proof fn a_border_surrounds_its_pane(r: Rect, x: int, y: int)
    requires
        r.fits(),
        r.x > 0,
        r.y > 0,
    ensures
        render::around(x, y, r) <==> (r.x - 1 <= x <= r.x + r.w && r.y - 1 <= y <= r.y + r.h
            && !r.holds(x, y)),
{
}

/// The cell is in the rectangle or next to it.
spec fn near(r: Rect, x: int, y: int) -> bool {
    r.x - 1 <= x <= r.x + r.w && r.y - 1 <= y <= r.y + r.h
}

proof fn lemma_lines_near(node: LayoutNode, area: Rect, outer: Rect, i: int, x: int, y: int)
    requires
        area.fits(),
        outer.x < area.x && outer.y < area.y,
        area.x + area.w < outer.x + outer.w && area.y + area.h < outer.y + outer.h,
        layout::ids(node).no_duplicates(),
        geometry::all_shown(node, area),
        0 <= i < layout::seps(node, area, outer).len(),
        render::on_line(layout::seps(node, area, outer)[i], x, y),
    ensures
        near(area, x, y),
    decreases node,
{
    match node {
        LayoutNode::Leaf { .. } => {},
        LayoutNode::Split { direction, ratio, first, second } => {
            let (a, b) = layout::halves(area, direction, ratio);
            let l = layout::sep_line(area, outer, direction, a);
            let f = layout::seps(*first, a, outer);
            let t = layout::seps(*second, b, outer);
            layout::lemma_parts_distinct(layout::ids(*first), layout::ids(*second));
            geometry::lemma_shown_sides(direction, ratio, *first, *second, area);
            geometry::sides_follow_each_other(area, direction, ratio);
            let all = layout::seps(node, area, outer);
            assert(all == seq![l] + f + t);
            if i == 0 {
                assert(all[0] == l);
            } else if i < 1 + f.len() {
                assert(all[i] == f[i - 1]);
                lemma_lines_near(*first, a, outer, i - 1, x, y);
            } else {
                assert(all[i] == t[i - 1 - f.len()]);
                lemma_lines_near(*second, b, outer, i - 1 - f.len(), x, y);
            }
        },
    }
}

/// Where every pane is shown, each cell of the area that the panes share lies
/// in a pane or on a separator, and in none it lies on both.
pub proof fn panes_and_separators_fill_the_area(
    node: LayoutNode,
    area: Rect,
    outer: Rect,
    x: u16,
    y: u16,
)
    requires
        area.fits(),
        outer.x < area.x && outer.y < area.y,
        area.x + area.w < outer.x + outer.w && area.y + area.h < outer.y + outer.h,
        layout::ids(node).no_duplicates(),
        geometry::all_shown(node, area),
        area.holds(x as int, y as int),
    ensures
        render::on_lines(layout::seps(node, area, outer), x as int, y as int) <==> layout::pane_at(
            node,
            x,
            y,
            area,
        ) is None,
    decreases node,
{
    let all = layout::seps(node, area, outer);
    let (px, py) = (x as int, y as int);
    match node {
        LayoutNode::Leaf { .. } => {
            assert(all.len() == 0);
        },
        LayoutNode::Split { direction, ratio, first, second } => {
            let (a, b) = layout::halves(area, direction, ratio);
            let l = layout::sep_line(area, outer, direction, a);
            let f = layout::seps(*first, a, outer);
            let t = layout::seps(*second, b, outer);
            layout::lemma_parts_distinct(layout::ids(*first), layout::ids(*second));
            geometry::lemma_shown_sides(direction, ratio, *first, *second, area);
            geometry::sides_follow_each_other(area, direction, ratio);
            assert(all == seq![l] + f + t);
            if !a.holds(px, py) {
                lemma_outside_no_pane(*first, x, y, a);
            }
            if !b.holds(px, py) {
                lemma_outside_no_pane(*second, x, y, b);
            }
            if a.holds(px, py) {
                panes_and_separators_fill_the_area(*first, a, outer, x, y);
                if render::on_lines(f, px, py) {
                    let i = choose|i: int| 0 <= i < f.len() && #[trigger] render::on_line(f[i], px, py);
                    assert(all[1 + i] == f[i]);
                    assert(render::on_line(all[1 + i], px, py));
                }
                if render::on_lines(all, px, py) {
                    let i = choose|i: int|
                        0 <= i < all.len() && #[trigger] render::on_line(all[i], px, py);
                    if i == 0 {
                        assert(all[0] == l);
                    } else if i < 1 + f.len() {
                        assert(all[i] == f[i - 1]);
                        assert(render::on_line(f[i - 1], px, py));
                    } else {
                        assert(all[i] == t[i - 1 - f.len()]);
                        lemma_lines_near(*second, b, outer, i - 1 - f.len(), px, py);
                    }
                }
            } else if b.holds(px, py) {
                panes_and_separators_fill_the_area(*second, b, outer, x, y);
                if render::on_lines(t, px, py) {
                    let i = choose|i: int| 0 <= i < t.len() && #[trigger] render::on_line(t[i], px, py);
                    assert(all[1 + f.len() + i] == t[i]);
                    assert(render::on_line(all[1 + f.len() + i], px, py));
                }
                if render::on_lines(all, px, py) {
                    let i = choose|i: int|
                        0 <= i < all.len() && #[trigger] render::on_line(all[i], px, py);
                    if i == 0 {
                        assert(all[0] == l);
                    } else if i < 1 + f.len() {
                        assert(all[i] == f[i - 1]);
                        lemma_lines_near(*first, a, outer, i - 1, px, py);
                    } else {
                        assert(all[i] == t[i - 1 - f.len()]);
                        assert(render::on_line(t[i - 1 - f.len()], px, py));
                    }
                }
            } else {
                assert(all[0] == l);
                assert(render::on_line(all[0], px, py));
            }
        },
    }
}

proof fn lemma_outside_no_pane(node: LayoutNode, x: u16, y: u16, area: Rect)
    requires
        area.fits(),
        !area.holds(x as int, y as int),
    ensures
        layout::pane_at(node, x, y, area) is None,
    decreases node,
{
    match node {
        LayoutNode::Leaf { .. } => {},
        LayoutNode::Split { direction, ratio, first, second } => {
            let (a, b) = layout::halves(area, direction, ratio);
            layout::halves_are_apart(area, direction, ratio);
            lemma_outside_no_pane(*first, x, y, a);
            lemma_outside_no_pane(*second, x, y, b);
        },
    }
}

/// The border styles are found by their names.
pub proof fn styles_are_named()
    ensures
        render::style_of("single"@) == Some(BorderStyle::Single),
        render::style_of("rounded"@) == Some(BorderStyle::Rounded),
        render::style_of("heavy"@) == Some(BorderStyle::Heavy),
        render::style_of("double"@) == Some(BorderStyle::Double),
{
    reveal_strlit("single");
    reveal_strlit("rounded");
    reveal_strlit("heavy");
    reveal_strlit("double");
    assert("single"@.len() == 6);
    assert("single"@[0] == 's');
    assert("single"@[1] == 'i');
    assert("single"@[2] == 'n');
    assert("single"@[3] == 'g');
    assert("single"@[4] == 'l');
    assert("single"@[5] == 'e');
    assert("rounded"@.len() == 7);
    assert("rounded"@[0] == 'r');
    assert("rounded"@[1] == 'o');
    assert("rounded"@[2] == 'u');
    assert("rounded"@[3] == 'n');
    assert("rounded"@[4] == 'd');
    assert("rounded"@[5] == 'e');
    assert("rounded"@[6] == 'd');
    assert("heavy"@.len() == 5);
    assert("heavy"@[0] == 'h');
    assert("heavy"@[1] == 'e');
    assert("heavy"@[2] == 'a');
    assert("heavy"@[3] == 'v');
    assert("heavy"@[4] == 'y');
    assert("double"@.len() == 6);
    assert("double"@[0] == 'd');
    assert("double"@[1] == 'o');
    assert("double"@[2] == 'u');
    assert("double"@[3] == 'b');
    assert("double"@[4] == 'l');
    assert("double"@[5] == 'e');
}

} // verus!
