//! What clicks, drags and the wheel mean.

use vstd::prelude::*;

use crate::keys::{KeyModifiers, MouseButton, MouseEvent, MouseEventKind};
use crate::layout;
use crate::layout::geometry;
use crate::layout::{Direction, Rect};
use crate::pane::Pane;
use crate::ratio;
use crate::render;
use crate::render::TitleAction;
use crate::server::mouse;
use crate::server::state;
use crate::server::state::{Effect, Env, TabActionView, UiView};

verus! {

/// The mouse is on pane `id`, and no tab, panel, title button or separator is
/// in the way.
pub open spec fn points_at(v: UiView, m: MouseEvent, id: usize, inner: Rect) -> bool {
    &&& layout::ids(v.layout.root).no_duplicates()
    &&& layout::ids(v.layout.root).contains(id)
    &&& layout::rect_map(v.layout.root, inner)[id].holds(m.column as int, m.row as int)
    &&& !v.settings.visible
    &&& render::title_button(v.layout.root, m.column, m.row, inner) is None
    &&& layout::sep_at(v.layout.root, m.column, m.row, inner, seq![]) is None
}

proof fn lemma_pane_under(v: UiView, m: MouseEvent, id: usize, inner: Rect)
    requires
        inner.fits(),
        layout::ids(v.layout.root).no_duplicates(),
        layout::ids(v.layout.root).contains(id),
        layout::rect_map(v.layout.root, inner)[id].holds(m.column as int, m.row as int),
    ensures
        layout::pane_at(v.layout.root, m.column, m.row, inner) == Some(id),
        layout::rect_map(v.layout.root, inner).contains_key(id),
{
    layout::rects_inside(v.layout.root, inner);
    assert(layout::rect_map(v.layout.root, inner).contains_key(id) == layout::ids(
        v.layout.root,
    ).contains(id));
    layout::pane_at_agrees(v.layout.root, m.column, m.row, inner, id);
}

/// A turn of the wheel up scrolls the pane under the mouse back by three lines,
/// one down scrolls it forward. A program that asked for the mouse is told of
/// three turns instead, with the cell of its pane: the column first, then the
/// row, both counted from its corner.
pub proof fn the_wheel_scrolls_the_pane_under_it(
    v: UiView,
    column: u16,
    row: u16,
    modifiers: KeyModifiers,
    id: usize,
    panes: Map<usize, Pane>,
    grabs: Set<usize>,
    inner: Rect,
    tab: Option<(usize, usize)>,
    env: Env,
)
    requires
        inner.fits(),
        layout::ids(v.layout.root).no_duplicates(),
        layout::ids(v.layout.root).contains(id),
        layout::rect_map(v.layout.root, inner)[id].holds(column as int, row as int),
        panes.contains_key(id),
        panes[id].alive,
    ensures
        ({
            let rects = layout::rect_map(v.layout.root, inner);
            let up = MouseEvent { kind: MouseEventKind::ScrollUp, column, row, modifiers };
            let down = MouseEvent { kind: MouseEventKind::ScrollDown, column, row, modifiers };
            let back = mouse::mouse_step(v, up, panes, grabs, rects, inner, tab, env);
            let forward = mouse::mouse_step(v, down, panes, grabs, rects, inner, tab, env);
            let col = (column - rects[id].x) as u16;
            let line = (row - rects[id].y) as u16;
            let told = |up: bool|
                state::plain(Effect::SendScroll { pane: id, up, col, row: line });
            &&& back.0.active == v.active && forward.0.active == v.active
            &&& !mouse::grabbed(panes, grabs, id) ==> back.1 == seq![
                state::plain(Effect::ScrollUp { pane: id, lines: 3 }),
            ] && forward.1 == seq![state::plain(Effect::ScrollDown { pane: id, lines: 3 })]
            &&& mouse::grabbed(panes, grabs, id) ==> back.1 == seq![
                told(true),
                told(true),
                told(true),
            ] && forward.1 == seq![told(false), told(false), told(false)]
        }),
{
    let up = MouseEvent { kind: MouseEventKind::ScrollUp, column, row, modifiers };
    lemma_pane_under(v, up, id, inner);
}

/// A click on a pane gives it the focus. A program that asked for the mouse is
/// told that the left button went down, with the cell of its pane, and that it
/// went up again.
pub proof fn a_click_focuses_the_pane(
    v: UiView,
    m: MouseEvent,
    id: usize,
    panes: Map<usize, Pane>,
    grabs: Set<usize>,
    inner: Rect,
    env: Env,
)
    requires
        inner.fits(),
        m.kind == MouseEventKind::Down(MouseButton::Left),
        points_at(v, m, id, inner),
        panes.contains_key(id),
        v.last_click is None,
        v.drag is None,
        v.text_selection is None,
    ensures
        ({
            let rects = layout::rect_map(v.layout.root, inner);
            let (w, asked) = mouse::mouse_step(v, m, panes, grabs, rects, inner, None, env);
            let lifted = MouseEvent { kind: MouseEventKind::Up(MouseButton::Left), ..m };
            let (_, told) = mouse::mouse_step(w, lifted, panes, grabs, rects, inner, None, env);
            let col = (m.column - rects[id].x) as u16;
            let row = (m.row - rects[id].y) as u16;
            &&& w.active == id
            &&& w.layout == v.layout
            &&& w.last_click == Some((env.now, m.column, m.row))
            &&& mouse::grabbed(panes, grabs, id) ==> asked == seq![
                state::plain(
                    Effect::SendMouse { pane: id, button: 0, col, row, release: false },
                ),
            ] && told == seq![
                state::plain(
                    Effect::SendMouse { pane: id, button: 0, col, row, release: true },
                ),
            ]
            &&& !mouse::grabbed(panes, grabs, id) ==> asked.len() == 0 && told.len() == 0
                && w.selection_anchor == Some((id, col, row))
        }),
{
    lemma_pane_under(v, m, id, inner);
    let e = Seq::<state::Work>::empty();
    let rects = layout::rect_map(v.layout.root, inner);
    assert(e + mouse::told_button(rects, id, m, false) =~= mouse::told_button(rects, id, m, false));
}

/// A second click on the same cell soon after the first zooms the pane, or ends
/// the zoom.
pub proof fn a_double_click_zooms(
    v: UiView,
    m: MouseEvent,
    id: usize,
    panes: Map<usize, Pane>,
    grabs: Set<usize>,
    rects: Map<usize, Rect>,
    inner: Rect,
    env: Env,
)
    requires
        inner.fits(),
        m.kind == MouseEventKind::Down(MouseButton::Left),
        points_at(v, m, id, inner),
        panes.contains_key(id),
        v.last_click matches Some((t, x, y)) && env.now < t + 400 && x == m.column && y == m.row,
    ensures
        ({
            let (w, asked) = mouse::mouse_step(v, m, panes, grabs, rects, inner, None, env);
            &&& w.active == id
            &&& v.zoomed_pane is None ==> w.zoomed_pane == Some(id) && asked == seq![
                state::plain(Effect::ResizeZoomed(id)),
            ]
            &&& v.zoomed_pane is Some ==> w.zoomed_pane is None && asked == seq![
                state::plain(Effect::ResizeAll),
            ]
        }),
{
    lemma_pane_under(v, m, id, inner);
}

/// A drag that began in a pane selects from the cell where it began to the cell
/// under the mouse, which does not leave the pane. The end of the drag copies
/// the selection.
pub proof fn a_drag_selects_text(
    v: UiView,
    m: MouseEvent,
    id: usize,
    col: u16,
    row: u16,
    panes: Map<usize, Pane>,
    grabs: Set<usize>,
    rects: Map<usize, Rect>,
    inner: Rect,
    tab: Option<(usize, usize)>,
    env: Env,
)
    requires
        m.kind == MouseEventKind::Drag(MouseButton::Left),
        v.drag is None,
        v.selection_anchor == Some((id, col, row)),
        rects.contains_key(id),
        rects[id].w > 0,
        rects[id].h > 0,
        panes.contains_key(id),
    ensures
        ({
            let r = rects[id];
            let w = mouse::mouse_step(v, m, panes, grabs, rects, inner, tab, env).0;
            let lifted = MouseEvent { kind: MouseEventKind::Up(MouseButton::Left), ..m };
            let asked = mouse::mouse_step(w, lifted, panes, grabs, rects, inner, tab, env).1;
            let sel = w.text_selection->Some_0;
            &&& w.text_selection is Some
            &&& sel.pane_id == id && sel.start_row == row && sel.start_col == col
            &&& r.x <= m.column < r.x + r.w ==> sel.end_col == m.column - r.x
            &&& r.y <= m.row < r.y + r.h ==> sel.end_row == m.row - r.y
            &&& m.column < r.x ==> sel.end_col == 0
            &&& m.row < r.y ==> sel.end_row == 0
            &&& m.column >= r.x + r.w ==> sel.end_col == r.w - 1
            &&& m.row >= r.y + r.h ==> sel.end_row == r.h - 1
            &&& asked == seq![state::plain(Effect::CopySelection(sel))]
        }),
{
}

/// The separator of a split that is dragged ends up under the mouse: in the
/// column of the mouse for a split into columns, in its row for one into rows.
/// This holds in the middle of the split; near its ends the separator stays at
/// a tenth of its length.
pub proof fn a_dragged_separator_follows_the_mouse(
    direction: Direction,
    area: Rect,
    column: u16,
    row: u16,
)
    requires
        area.fits(),
        match direction {
            Direction::Horizontal => area.x < column && area.w - 1 <= 9 * (column - area.x) && 9 * (
            column - area.x) <= 8 * (area.w - 1) && layout::MIN_PANE_W <= column - area.x
                <= area.w - 1 - layout::MIN_PANE_W,
            Direction::Vertical => area.y < row && area.h - 1 <= 9 * (row - area.y) && 9 * (row
                - area.y) <= 8 * (area.h - 1) && layout::MIN_PANE_H <= row - area.y <= area.h - 1
                - layout::MIN_PANE_H,
        },
    ensures
        ({
            let r = state::drag_ratio(direction, area, column, row);
            let (a, b) = layout::halves(area, direction, r);
            match direction {
                Direction::Horizontal => a.x + a.w == column && b.x == column + 1,
                Direction::Vertical => a.y + a.h == row && b.y == row + 1,
            }
        }),
{
    let (n, u) = match direction {
        Direction::Horizontal => (column - area.x, area.w - 1),
        Direction::Vertical => (row - area.y, area.h - 1),
    };
    ratio::small_counts_are_exact(n as nat, u as nat);
    ratio::proportion::middle_shares_stay(n as nat, u as nat);
    ratio::proportion::shares_of_cells_are_exact(u as nat, n as nat);
}

/// A drag of a separator changes the ratio of the split that it belongs to, and
/// has all panes resized; lifting the button ends the drag.
pub proof fn a_drag_moves_its_separator(
    v: UiView,
    m: MouseEvent,
    path: Seq<bool>,
    direction: Direction,
    area: Rect,
    panes: Map<usize, Pane>,
    grabs: Set<usize>,
    rects: Map<usize, Rect>,
    inner: Rect,
    tab: Option<(usize, usize)>,
    env: Env,
)
    requires
        m.kind == MouseEventKind::Drag(MouseButton::Left),
        v.drag == Some((path, direction, area)),
        geometry::node_at(v.layout.root, path) is Split,
    ensures
        ({
            let (w, asked) = mouse::mouse_step(v, m, panes, grabs, rects, inner, tab, env);
            let lifted = MouseEvent { kind: MouseEventKind::Up(MouseButton::Left), ..m };
            let (done, after) = mouse::mouse_step(w, lifted, panes, grabs, rects, inner, tab, env);
            &&& geometry::node_at(w.layout.root, path) is Split
            &&& geometry::node_at(w.layout.root, path)->ratio == ratio::clamp(
                state::drag_ratio(direction, area, m.column, m.row),
            )
            &&& layout::ids(w.layout.root) == layout::ids(v.layout.root)
            &&& asked == seq![state::plain(Effect::ResizeAll)]
            &&& done.drag is None && after == seq![state::plain(Effect::ResizeAll)]
        }),
{
    lemma_with_ratio(
        v.layout.root,
        path,
        state::drag_ratio(direction, area, m.column, m.row),
    );
}

proof fn lemma_with_ratio(node: layout::LayoutNode, path: Seq<bool>, r: ratio::Ratio)
    requires
        geometry::node_at(node, path) is Split,
    ensures
        ({
            let now = layout::with_ratio(node, path, r);
            &&& geometry::node_at(now, path) is Split
            &&& geometry::node_at(now, path)->ratio == ratio::clamp(r)
            &&& layout::ids(now) == layout::ids(node)
        }),
    decreases node,
{
    match node {
        layout::LayoutNode::Leaf { .. } => {},
        layout::LayoutNode::Split { first, second, .. } => {
            if path.len() > 0 {
                if path[0] {
                    lemma_with_ratio(*second, path.skip(1), r);
                } else {
                    lemma_with_ratio(*first, path.skip(1), r);
                }
            }
        },
    }
}

/// The buttons stand at the right end of the line above a pane, which a wide
/// pane has three of: the last closes the pane, the one before it puts a new
/// pane to its right, and the one before that a new pane below. A narrow pane
/// has the last alone.
pub proof fn title_buttons_do_what_they_show(id: usize, r: Rect, x: u16)
    requires
        r.fits(),
        r.y > 0,
        r.w >= 4,
    ensures
        ({
            let above = (r.y - 1) as u16;
            let hit = render::button_at(id, r, x, above);
            let end = r.x + r.w;
            &&& r.w >= 14 && (x == end - 1 || x == end - 2 || x == end - 3) ==> hit
                == Some(TitleAction::Close(id))
            &&& r.w >= 14 && (x == end - 5 || x == end - 6 || x == end - 7) ==> hit is Some
                && mouse::title_work(hit->Some_0)[0] == state::plain(
                Effect::Split { target: id, dir: Direction::Horizontal },
            )
            &&& r.w >= 14 && (x == end - 9 || x == end - 10 || x == end - 11) ==> hit is Some
                && mouse::title_work(hit->Some_0)[0] == state::plain(
                Effect::Split { target: id, dir: Direction::Vertical },
            )
            &&& r.w < 14 && (x == end - 1 || x == end - 2) ==> hit == Some(TitleAction::Close(id))
            &&& x < end - 11 || x >= end ==> hit is None
        }),
        mouse::title_work(TitleAction::Close(id))[0] == state::plain(
            Effect::ClosePane { target: id },
        ),
        forall|y: u16| y + 1 != r.y ==> (#[trigger] render::button_at(id, r, x, y)) is None,
{
}

/// A click on the tab bar goes to the tab under the mouse.
pub proof fn a_click_on_a_tab_goes_there(
    v: UiView,
    m: MouseEvent,
    hit: usize,
    current: usize,
    panes: Map<usize, Pane>,
    grabs: Set<usize>,
    rects: Map<usize, Rect>,
    inner: Rect,
    env: Env,
)
    requires
        m.kind == MouseEventKind::Down(MouseButton::Left),
        v.last_click is None,
    ensures
        ({
            let (w, asked) = mouse::mouse_step(
                v,
                m,
                panes,
                grabs,
                rects,
                inner,
                Some((hit, current)),
                env,
            );
            w.tab_action == TabActionView::GoToTab(hit) && w.active == v.active && w.mode == v.mode
                && asked.len() == 0
        }),
{
}

} // verus!
