//! Where the panes of a layout lie.

use vstd::prelude::*;
use vstd::string::*;

use crate::layout;
use crate::layout::{Direction, Layout, LayoutNode, NavDir, Rect};
use crate::ratio;
use crate::ratio::Ratio;
use crate::text;

verus! {

/// `a` ends before `b` begins, with at least one column between them.
pub open spec fn left_of(a: Rect, b: Rect) -> bool {
    a.x + a.w < b.x
}

/// `a` ends before `b` begins, with at least one row between them.
pub open spec fn above(a: Rect, b: Rect) -> bool {
    a.y + a.h < b.y
}

pub open spec fn shown(r: Rect) -> bool {
    r.w > 0 && r.h > 0
}

/// Where the second side of a split has any cell, the sides stand next to each
/// other with one cell between them: left and right in a horizontal split, one
/// above the other in a vertical one. Together they reach from end to end.
pub proof fn sides_follow_each_other(area: Rect, dir: Direction, r: Ratio)
    requires
        area.fits(),
        shown(layout::halves(area, dir, r).1),
    ensures
        ({
            let (a, b) = layout::halves(area, dir, r);
            &&& shown(a)
            &&& a.fits() && b.fits()
            &&& a.x == area.x && a.y == area.y
            &&& b.x + b.w == area.x + area.w && b.y + b.h == area.y + area.h
            &&& dir == Direction::Horizontal ==> a.x + a.w + 1 == b.x && a.y == b.y && a.h == b.h
            &&& dir == Direction::Vertical ==> a.y + a.h + 1 == b.y && a.x == b.x && a.w == b.w
        }),
{
}

proof fn lemma_parts(first: LayoutNode, second: LayoutNode, a: Rect, b: Rect, id: usize)
    requires
        a.fits(),
        b.fits(),
        (layout::ids(first) + layout::ids(second)).no_duplicates(),
    ensures
        ({
            let m = layout::rect_map(first, a).union_prefer_right(layout::rect_map(second, b));
            &&& layout::ids(first).no_duplicates() && layout::ids(second).no_duplicates()
            &&& layout::ids(first).contains(id) ==> m.contains_key(id) && m[id]
                == layout::rect_map(first, a)[id] && m[id].inside(a) && layout::rect_map(
                first,
                a,
            ).contains_key(id) && !layout::ids(second).contains(id)
            &&& layout::ids(second).contains(id) ==> m.contains_key(id) && m[id]
                == layout::rect_map(second, b)[id] && m[id].inside(b) && layout::rect_map(
                second,
                b,
            ).contains_key(id) && !layout::ids(first).contains(id)
        }),
{
    layout::rects_inside(first, a);
    layout::rects_inside(second, b);
    layout::lemma_parts_distinct(layout::ids(first), layout::ids(second));
    assert(layout::rect_map(first, a).contains_key(id) == layout::ids(first).contains(id));
    assert(layout::rect_map(second, b).contains_key(id) == layout::ids(second).contains(id));
}

/// The new pane lies right of the old one, or below it, with one cell between
/// them, and is as high, or as wide, as the old one.
pub open spec fn placed_next(old_pane: Rect, new_pane: Rect, dir: Direction) -> bool {
    match dir {
        Direction::Horizontal => old_pane.x + old_pane.w + 1 == new_pane.x && old_pane.y
            == new_pane.y && old_pane.h == new_pane.h,
        Direction::Vertical => old_pane.y + old_pane.h + 1 == new_pane.y && old_pane.x
            == new_pane.x && old_pane.w == new_pane.w,
    }
}

/// After a split, the pane that was split and the new one lie next to each
/// other with one cell between them: after a horizontal split the new pane is
/// to the right, after a vertical one below. This holds in any area in which
/// the new pane gets a cell.
pub proof fn a_split_puts_the_new_pane_next(l: Layout, target: usize, dir: Direction, area: Rect)
    requires
        l.fresh(),
        layout::ids(l.root).contains(target),
        area.fits(),
        shown(
            layout::rect_map(
                layout::equalized(layout::with_split(l.root, target, l.next_id, dir)),
                area,
            )[l.next_id],
        ),
    ensures
        ({
            let rects = layout::rect_map(
                layout::equalized(layout::with_split(l.root, target, l.next_id, dir)),
                area,
            );
            &&& rects.contains_key(target) && rects.contains_key(l.next_id)
            &&& shown(rects[target])
            &&& placed_next(rects[target], rects[l.next_id], dir)
        }),
{
    assert(!layout::ids(l.root).contains(l.next_id));
    lemma_next(l.root, target, l.next_id, dir, area);
}

proof fn lemma_next(node: LayoutNode, target: usize, new_id: usize, dir: Direction, area: Rect)
    requires
        layout::ids(node).no_duplicates(),
        layout::ids(node).contains(target),
        !layout::ids(node).contains(new_id),
        area.fits(),
        shown(
            layout::rect_map(
                layout::equalized(layout::with_split(node, target, new_id, dir)),
                area,
            )[new_id],
        ),
    ensures
        ({
            let rects = layout::rect_map(
                layout::equalized(layout::with_split(node, target, new_id, dir)),
                area,
            );
            let o = rects[target];
            let n = rects[new_id];
            &&& rects.contains_key(target) && rects.contains_key(new_id)
            &&& shown(o)
            &&& dir == Direction::Horizontal ==> o.x + o.w + 1 == n.x && o.y == n.y && o.h == n.h
            &&& dir == Direction::Vertical ==> o.y + o.h + 1 == n.y && o.x == n.x && o.w == n.w
        }),
    decreases node,
{
    let tree = layout::equalized(layout::with_split(node, target, new_id, dir));
    match node {
        LayoutNode::Leaf { id } => {
            reveal_with_fuel(layout::rect_map, 2);
            reveal_with_fuel(layout::equalized, 2);
            assert(target == id) by {
                let i = layout::ids(node).index_of(target);
                assert(layout::ids(node)[i] == target);
            }
            assert(layout::ids(node)[0] == id);
            assert(target != new_id);
            match tree {
                LayoutNode::Split { direction, ratio, first, second } => {
                    let (a, b) = layout::halves(area, direction, ratio);
                    assert(*second == LayoutNode::Leaf { id: new_id });
                    assert(*first == LayoutNode::Leaf { id: target });
                    assert(layout::rect_map(tree, area)[new_id] == b);
                    assert(layout::rect_map(tree, area)[target] == a);
                    sides_follow_each_other(area, direction, ratio);
                },
                LayoutNode::Leaf { .. } => {},
            }
        },
        LayoutNode::Split { first, second, .. } => {
            let f = layout::with_split(*first, target, new_id, dir);
            let s = layout::with_split(*second, target, new_id, dir);
            let i = layout::ids(*first);
            let j = layout::ids(*second);
            layout::lemma_parts_distinct(i, j);
            layout::split_inserts_after(*first, target, new_id, dir);
            layout::split_inserts_after(*second, target, new_id, dir);
            layout::split_inserts_after(node, target, new_id, dir);
            layout::equalize_keeps_panes(f);
            layout::equalize_keeps_panes(s);
            layout::equalize_keeps_panes(layout::with_split(node, target, new_id, dir));
            layout::lemma_with_after_distinct(i, target, new_id);
            layout::lemma_with_after_distinct(j, target, new_id);
            layout::lemma_with_after_distinct(layout::ids(node), target, new_id);
            match tree {
                LayoutNode::Split { direction, ratio, first: ef, second: es } => {
                    let (a, b) = layout::halves(area, direction, ratio);
                    layout::halves_are_apart(area, direction, ratio);
                    assert(*ef == layout::equalized(f));
                    assert(*es == layout::equalized(s));
                    assert(layout::ids(*ef) + layout::ids(*es) == layout::ids(tree));
                    lemma_parts(*ef, *es, a, b, target);
                    lemma_parts(*ef, *es, a, b, new_id);
                    if i.contains(target) {
                        lemma_next(*first, target, new_id, dir, a);
                    } else {
                        lemma_next(*second, target, new_id, dir, b);
                    }
                },
                LayoutNode::Leaf { .. } => {},
            }
        },
    }
}

/// Every pane gets a cell.
pub open spec fn all_shown(node: LayoutNode, area: Rect) -> bool {
    forall|id: usize| #[trigger]
        layout::rect_map(node, area).contains_key(id) ==> shown(layout::rect_map(node, area)[id])
}

/// Every split of the tree has room for a separator and two sides of the
/// smallest size.
pub open spec fn roomy(node: LayoutNode, area: Rect) -> bool
    decreases node,
{
    match node {
        LayoutNode::Leaf { .. } => true,
        LayoutNode::Split { direction, ratio, first, second } => {
            let (a, b) = layout::halves(area, direction, ratio);
            &&& match direction {
                Direction::Horizontal => area.w >= 2 * layout::MIN_PANE_W + 1,
                Direction::Vertical => area.h >= 2 * layout::MIN_PANE_H + 1,
            }
            &&& roomy(*first, a)
            &&& roomy(*second, b)
        },
    }
}

/// Where every split has room, every pane keeps the smallest size.
pub proof fn room_keeps_the_smallest_size(node: LayoutNode, area: Rect, id: usize)
    requires
        area.fits(),
        area.w >= layout::MIN_PANE_W,
        area.h >= layout::MIN_PANE_H,
        roomy(node, area),
        layout::ids(node).contains(id),
    ensures
        layout::rect_map(node, area).contains_key(id),
        layout::rect_map(node, area)[id].w >= layout::MIN_PANE_W,
        layout::rect_map(node, area)[id].h >= layout::MIN_PANE_H,
    decreases node,
{
    layout::rects_inside(node, area);
    assert(layout::rect_map(node, area).contains_key(id) == layout::ids(node).contains(id));
    match node {
        LayoutNode::Leaf { .. } => {},
        LayoutNode::Split { direction, ratio, first, second } => {
            let (a, b) = layout::halves(area, direction, ratio);
            layout::halves_are_apart(area, direction, ratio);
            layout::halves_keep_minimum(area, direction, ratio);
            layout::rects_inside(*first, a);
            layout::rects_inside(*second, b);
            if layout::rect_map(*second, b).contains_key(id) {
                assert(layout::ids(*second).contains(id));
                room_keeps_the_smallest_size(*second, b, id);
            } else {
                assert(layout::rect_map(*first, a).contains_key(id));
                assert(layout::ids(*first).contains(id));
                room_keeps_the_smallest_size(*first, a, id);
            }
        },
    }
}

pub proof fn lemma_shown_sides(
    direction: Direction,
    ratio: Ratio,
    first: LayoutNode,
    second: LayoutNode,
    area: Rect,
)
    requires
        area.fits(),
        (layout::ids(first) + layout::ids(second)).no_duplicates(),
        all_shown(
            LayoutNode::Split { direction, ratio, first: Box::new(first), second: Box::new(second) },
            area,
        ),
    ensures
        ({
            let (a, b) = layout::halves(area, direction, ratio);
            all_shown(first, a) && all_shown(second, b) && shown(b)
        }),
{
    let node = LayoutNode::Split {
        direction,
        ratio,
        first: Box::new(first),
        second: Box::new(second),
    };
    let (a, b) = layout::halves(area, direction, ratio);
    layout::halves_are_apart(area, direction, ratio);
    layout::rects_inside(first, a);
    layout::rects_inside(second, b);
    let m = layout::rect_map(node, area);
    assert(m == layout::rect_map(first, a).union_prefer_right(layout::rect_map(second, b)));
    assert forall|id: usize| #[trigger] layout::rect_map(first, a).contains_key(id) implies shown(
        layout::rect_map(first, a)[id],
    ) by {
        assert(layout::ids(first).contains(id));
        lemma_parts(first, second, a, b, id);
        assert(m.contains_key(id));
    }
    assert forall|id: usize| #[trigger] layout::rect_map(second, b).contains_key(id) implies shown(
        layout::rect_map(second, b)[id],
    ) by {
        assert(m.contains_key(id));
    }
    layout::lemma_some_leaf(second);
    let id = layout::ids(second)[0];
    assert(layout::ids(second).contains(id));
    assert(layout::rect_map(second, b).contains_key(id));
}

/// The number of the pane in row `r` and column `c` where the rows hold `counts`
/// panes.
pub open spec fn pane_number(counts: Seq<nat>, r: int, c: int) -> int
    decreases r,
{
    if r <= 0 {
        c
    } else {
        counts[r - 1] + pane_number(counts, r - 1, c)
    }
}

/// The panes stand in rows of `counts` panes each, numbered row by row from
/// `id` on. The panes of a row have the same height and follow each other from
/// left to right over the whole width; the rows follow each other from top to
/// bottom over the whole height.
pub open spec fn in_rows(rects: Map<usize, Rect>, counts: Seq<nat>, id: nat, area: Rect) -> bool {
    &&& forall|r: int, c: int|
        #![trigger pane_number(counts, r, c)]
        0 <= r < counts.len() && 0 <= c < counts[r] ==> {
            let p = rects[(id + pane_number(counts, r, c)) as usize];
            &&& rects.contains_key((id + pane_number(counts, r, c)) as usize)
            &&& c == 0 ==> p.x == area.x
            &&& c == counts[r] - 1 ==> p.x + p.w == area.x + area.w
            &&& r == 0 ==> p.y == area.y
            &&& r == counts.len() - 1 ==> p.y + p.h == area.y + area.h
        }
    &&& forall|r: int, c: int, s: int, d: int|
        #![trigger pane_number(counts, r, c), pane_number(counts, s, d)]
        0 <= r < counts.len() && 0 <= c < counts[r] && 0 <= s < counts.len() && 0 <= d < counts[s]
            ==> {
            let p = rects[(id + pane_number(counts, r, c)) as usize];
            let q = rects[(id + pane_number(counts, s, d)) as usize];
            &&& r == s ==> p.y == q.y && p.h == q.h
            &&& r == s && c < d ==> left_of(p, q)
            &&& r < s ==> above(p, q)
        }
}

/// A row of `n` panes, numbered from `id` on.
pub open spec fn is_row(node: LayoutNode, n: nat, id: nat) -> bool
    decreases n,
{
    if n <= 1 {
        n == 1 && node == (LayoutNode::Leaf { id: id as usize })
    } else {
        match node {
            LayoutNode::Split { direction: Direction::Horizontal, first, second, .. } => *first == (
            LayoutNode::Leaf { id: id as usize }) && is_row(*second, (n - 1) as nat, id + 1),
            _ => false,
        }
    }
}

/// Such rows, one below the other.
pub open spec fn is_stack(node: LayoutNode, counts: Seq<nat>, id: nat) -> bool
    decreases counts.len(),
{
    if counts.len() <= 1 {
        counts.len() == 1 && is_row(node, counts[0], id)
    } else {
        match node {
            LayoutNode::Split { direction: Direction::Vertical, first, second, .. } => is_row(
                *first,
                counts[0],
                id,
            ) && is_stack(*second, counts.skip(1), id + counts[0]),
            _ => false,
        }
    }
}

pub open spec fn sum(counts: Seq<nat>) -> nat
    decreases counts.len(),
{
    if counts.len() == 0 {
        0
    } else {
        counts[0] + sum(counts.skip(1))
    }
}

proof fn lemma_row_run(node: LayoutNode, n: nat, id: nat)
    requires
        is_row(node, n, id),
    ensures
        n >= 1,
        layout::ids(node) == layout::run(id, n),
    decreases n,
{
    reveal_with_fuel(layout::ids, 2);
    if n > 1 {
        match node {
            LayoutNode::Split { first, second, .. } => {
                lemma_row_run(*second, (n - 1) as nat, id + 1);
                assert(seq![id as usize] + layout::run(id + 1, (n - 1) as nat) =~= layout::run(
                    id,
                    n,
                ));
            },
            LayoutNode::Leaf { .. } => {},
        }
    } else {
        assert(seq![id as usize] =~= layout::run(id, 1));
    }
}

proof fn lemma_stack_run(node: LayoutNode, counts: Seq<nat>, id: nat)
    requires
        is_stack(node, counts, id),
    ensures
        layout::ids(node) == layout::run(id, sum(counts)),
    decreases counts.len(),
{
    if counts.len() > 1 {
        match node {
            LayoutNode::Split { first, second, .. } => {
                lemma_row_run(*first, counts[0], id);
                lemma_stack_run(*second, counts.skip(1), id + counts[0]);
                assert(layout::run(id, counts[0]) + layout::run(
                    id + counts[0],
                    sum(counts.skip(1)),
                ) =~= layout::run(id, sum(counts)));
            },
            LayoutNode::Leaf { .. } => {},
        }
    } else {
        lemma_row_run(node, counts[0], id);
        assert(counts.skip(1) =~= seq![]);
        assert(sum(counts.skip(1)) == 0);
    }
}

proof fn lemma_run_distinct(id: nat, n: nat)
    requires
        id + n <= usize::MAX,
    ensures
        layout::run(id, n).no_duplicates(),
        forall|x: usize| #[trigger] layout::run(id, n).contains(x) <==> id <= x < id + n,
{
    let s = layout::run(id, n);
    assert forall|x: usize| #[trigger] s.contains(x) == (id <= x < id + n) by {
        if id <= x < id + n {
            assert(s[x - id] == x);
        }
        if s.contains(x) {
            let i = s.index_of(x);
            assert(s[i] == (id + i) as usize);
        }
    }
}

proof fn lemma_row(node: LayoutNode, n: nat, id: nat, area: Rect)
    requires
        is_row(node, n, id),
        id + n <= usize::MAX,
        area.fits(),
        all_shown(node, area),
    ensures
        forall|x: usize|
            #![trigger layout::rect_map(node, area)[x]]
            id <= x < id + n ==> {
                let p = layout::rect_map(node, area)[x];
                &&& layout::rect_map(node, area).contains_key(x)
                &&& p.y == area.y && p.h == area.h
                &&& x == id ==> p.x == area.x
                &&& x == id + n - 1 ==> p.x + p.w == area.x + area.w
            },
        forall|x: usize, y: usize|
            id <= x < y < id + n ==> left_of(
                #[trigger] layout::rect_map(node, area)[x],
                #[trigger] layout::rect_map(node, area)[y],
            ),
    decreases n,
{
    lemma_row_run(node, n, id);
    lemma_run_distinct(id, n);
    let m = layout::rect_map(node, area);
    if n > 1 {
        match node {
            LayoutNode::Split { direction, ratio, first, second } => {
                let (a, b) = layout::halves(area, direction, ratio);
                let k = (n - 1) as nat;
                lemma_shown_sides(direction, ratio, *first, *second, area);
                sides_follow_each_other(area, direction, ratio);
                lemma_row_run(*second, k, id + 1);
                lemma_run_distinct(id + 1, k);
                lemma_row(*second, k, id + 1, b);
                let t = layout::rect_map(*second, b);
                assert(m == layout::rect_map(*first, a).union_prefer_right(t));
                layout::rects_inside(*second, b);
                let i = id as usize;
                assert(!t.contains_key(i)) by {
                    assert(t.contains_key(i) == layout::ids(*second).contains(i));
                }
                assert(layout::rect_map(*first, a)[i] == a);
                assert(m[i] == a);
                assert forall|x: usize| id + 1 <= x < id + n implies #[trigger] m[x] == t[x]
                    && m.contains_key(x) && t[x].inside(b) by {
                    assert(layout::ids(*second).contains(x));
                    assert(t.contains_key(x));
                }
            },
            LayoutNode::Leaf { .. } => {},
        }
    }
}

proof fn lemma_number_step(counts: Seq<nat>, r: int, c: int)
    requires
        1 <= r <= counts.len(),
    ensures
        pane_number(counts, r, c) == counts[0] + pane_number(counts.skip(1), r - 1, c),
    decreases r,
{
    reveal_with_fuel(pane_number, 2);
    if r > 1 {
        lemma_number_step(counts, r - 1, c);
        assert(counts.skip(1)[r - 2] == counts[r - 1]);
    }
}

proof fn lemma_number_bounds(counts: Seq<nat>, r: int, c: int)
    requires
        0 <= r < counts.len(),
        0 <= c < counts[r],
    ensures
        0 <= pane_number(counts, r, c) < sum(counts),
    decreases counts.len(),
{
    if r > 0 {
        lemma_number_step(counts, r, c);
        lemma_number_bounds(counts.skip(1), r - 1, c);
    }
}

/// The rows of a stack lie as rows do.
proof fn lemma_stack(node: LayoutNode, counts: Seq<nat>, id: nat, area: Rect)
    requires
        is_stack(node, counts, id),
        id + sum(counts) <= usize::MAX,
        area.fits(),
        all_shown(node, area),
    ensures
        in_rows(layout::rect_map(node, area), counts, id, area),
    decreases counts.len(),
{
    let m = layout::rect_map(node, area);
    if counts.len() == 1 {
        assert(counts.skip(1) =~= seq![]);
        assert(sum(counts.skip(1)) == 0);
        lemma_row(node, counts[0], id, area);
        assert forall|r: int, c: int|
            #![trigger pane_number(counts, r, c)]
            0 <= r < counts.len() && 0 <= c < counts[r] implies {
            let x = (id + pane_number(counts, r, c)) as usize;
            let p = m[x];
            &&& x == id + c
            &&& m.contains_key(x)
            &&& c == 0 ==> p.x == area.x
            &&& c == counts[r] - 1 ==> p.x + p.w == area.x + area.w
            &&& p.y == area.y && p.h == area.h
        } by {
            assert(r == 0);
            assert(pane_number(counts, r, c) == c);
            let x = (id + c) as usize;
            assert(id <= x < id + counts[0]);
            assert(m[x].y == area.y);
        }
    } else {
        match node {
            LayoutNode::Split { direction, ratio, first, second } => {
                let (a, b) = layout::halves(area, direction, ratio);
                let rest = counts.skip(1);
                let d = id + counts[0];
                lemma_stack_run(node, counts, id);
                lemma_run_distinct(id, sum(counts));
                lemma_shown_sides(direction, ratio, *first, *second, area);
                sides_follow_each_other(area, direction, ratio);
                lemma_row(*first, counts[0], id, a);
                lemma_row_run(*first, counts[0], id);
                lemma_run_distinct(id, counts[0]);
                lemma_stack(*second, rest, d, b);
                lemma_stack_run(*second, rest, d);
                lemma_run_distinct(d, sum(rest));
                layout::rects_inside(*first, a);
                layout::rects_inside(*second, b);
                let f = layout::rect_map(*first, a);
                let t = layout::rect_map(*second, b);
                assert(m == f.union_prefer_right(t));
                assert forall|x: usize| id <= x < d implies #[trigger] m[x] == f[x]
                    && m.contains_key(x) && f[x].inside(a) by {
                    assert(t.contains_key(x) == layout::ids(*second).contains(x));
                    assert(layout::ids(*first).contains(x));
                    assert(f.contains_key(x));
                }
                assert forall|x: usize| d <= x < d + sum(rest) implies #[trigger] m[x] == t[x]
                    && m.contains_key(x) && t[x].inside(b) by {
                    assert(layout::ids(*second).contains(x));
                    assert(t.contains_key(x));
                }
                assert forall|r: int, c: int|
                    #![trigger pane_number(counts, r, c)]
                    0 <= r < counts.len() && 0 <= c < counts[r] implies {
                    let x = (id + pane_number(counts, r, c)) as usize;
                    let p = m[x];
                    &&& m.contains_key(x)
                    &&& r == 0 ==> x == id + c && p == f[x] && p.inside(a)
                    &&& r > 0 ==> x == d + pane_number(rest, r - 1, c) && p == t[x] && p.inside(b)
                    &&& c == 0 ==> p.x == area.x
                    &&& c == counts[r] - 1 ==> p.x + p.w == area.x + area.w
                    &&& r == 0 ==> p.y == area.y
                    &&& r == counts.len() - 1 ==> p.y + p.h == area.y + area.h
                } by {
                    lemma_number_bounds(counts, r, c);
                    let x = (id + pane_number(counts, r, c)) as usize;
                    if r == 0 {
                        assert(m[x] == f[x]);
                    } else {
                        lemma_number_step(counts, r, c);
                        lemma_number_bounds(rest, r - 1, c);
                        assert(rest[r - 1] == counts[r]);
                        assert(m[x] == t[x]);
                        assert(x == (d + pane_number(rest, r - 1, c)) as usize);
                    }
                }
                assert forall|r: int, c: int, s: int, e: int|
                    #![trigger pane_number(counts, r, c), pane_number(counts, s, e)]
                    0 <= r < counts.len() && 0 <= c < counts[r] && 0 <= s < counts.len() && 0 <= e
                        < counts[s] implies {
                    let p = m[(id + pane_number(counts, r, c)) as usize];
                    let q = m[(id + pane_number(counts, s, e)) as usize];
                    &&& r == s ==> p.y == q.y && p.h == q.h
                    &&& r == s && c < e ==> left_of(p, q)
                    &&& r < s ==> above(p, q)
                } by {
                    let x = (id + pane_number(counts, r, c)) as usize;
                    let y = (id + pane_number(counts, s, e)) as usize;
                    lemma_number_bounds(counts, r, c);
                    lemma_number_bounds(counts, s, e);
                    if r > 0 {
                        lemma_number_step(counts, r, c);
                        assert(rest[r - 1] == counts[r]);
                        assert(x == (d + pane_number(rest, r - 1, c)) as usize);
                        assert(m[x] == t[x]);
                    }
                    if s > 0 {
                        lemma_number_step(counts, s, e);
                        assert(rest[s - 1] == counts[s]);
                        assert(y == (d + pane_number(rest, s - 1, e)) as usize);
                        assert(m[y] == t[y]);
                    }
                    if r == 0 && s == 0 {
                        assert(m[x] == f[x] && m[y] == f[y]);
                        if c < e {
                            assert(left_of(f[x], f[y]));
                        }
                    }
                }
            },
            LayoutNode::Leaf { .. } => {},
        }
    }
}

proof fn lemma_row_tree(cols: nat, id: nat)
    requires
        cols >= 1,
    ensures
        is_row(layout::row_tree(cols, id), cols, id),
    decreases cols,
{
    if cols > 1 {
        lemma_row_tree((cols - 1) as nat, id + 1);
    }
}

proof fn lemma_grid_tree(rows: nat, cols: nat, id: nat)
    requires
        rows >= 1,
        cols >= 1,
    ensures
        is_stack(layout::grid_tree(rows, cols, id), Seq::new(rows, |i: int| cols), id),
        sum(Seq::new(rows, |i: int| cols)) == rows * cols,
    decreases rows,
{
    let counts = Seq::new(rows, |i: int| cols);
    lemma_row_tree(cols, id);
    assert(counts.skip(1) =~= Seq::new((rows - 1) as nat, |i: int| cols));
    if rows > 1 {
        lemma_grid_tree((rows - 1) as nat, cols, id + cols);
        assert(rows * cols == cols + (rows - 1) * cols) by (nonlinear_arith);
    } else {
        assert(sum(counts.skip(1)) == 0);
        assert(rows * cols == cols) by (nonlinear_arith)
            requires
                rows == 1,
        ;
    }
}

/// The panes of a grid stand in rows, each of as many panes as there are
/// columns, in any area in which all are shown.
pub proof fn a_grid_stands_in_rows(rows: nat, cols: nat, area: Rect)
    requires
        rows >= 1,
        cols >= 1,
        rows * cols <= usize::MAX,
        area.fits(),
        all_shown(layout::grid_tree(rows, cols, 0), area),
    ensures
        in_rows(
            layout::rect_map(layout::grid_tree(rows, cols, 0), area),
            Seq::new(rows, |i: int| cols),
            0,
            area,
        ),
{
    lemma_grid_tree(rows, cols, 0);
    lemma_stack(layout::grid_tree(rows, cols, 0), Seq::new(rows, |i: int| cols), 0, area);
}

/// How many panes the rows of a layout spec hold: the rows are parted by `/`,
/// the panes of a row by `:`.
pub open spec fn spec_counts(t: Seq<char>) -> Seq<nat> {
    text::split_on(t, '/').map_values(|row: Seq<char>| text::split_on(row, ':').len())
}

/// How many panes the rows of a layout spec hold, or of the preset that it
/// names.
pub open spec fn row_counts(spec: Seq<char>) -> Seq<nat> {
    if text::trim(spec) == "quad"@ {
        seq![2nat, 2nat]
    } else {
        spec_counts(layout::preset(text::trim(spec)))
    }
}

proof fn lemma_weights_len(parts: Seq<Seq<char>>)
    ensures
        layout::weights(parts) matches Ok(ws) ==> ws.len() == parts.len(),
    decreases parts.len(),
{
    if parts.len() > 0 {
        lemma_weights_len(parts.skip(1));
    }
}

proof fn lemma_split_some(s: Seq<char>, sep: char)
    ensures
        text::split_on(s, sep).len() >= 1,
{
}

proof fn lemma_weight_rows_len(lines: Seq<Seq<char>>)
    ensures
        layout::weight_rows(lines) matches Ok(rows) ==> {
            &&& rows.len() == lines.len()
            &&& forall|i: int|
                0 <= i < rows.len() ==> (#[trigger] rows[i]).len() == text::split_on(
                    lines[i],
                    ':',
                ).len()
        },
    decreases lines.len(),
{
    if lines.len() > 0 {
        lemma_weights_len(text::split_on(lines[0], ':'));
        lemma_weight_rows_len(lines.skip(1));
        match layout::weight_rows(lines) {
            Ok(rows) => {
                let rest = layout::weight_rows(lines.skip(1))->Ok_0;
                assert forall|i: int| 0 <= i < rows.len() implies (#[trigger] rows[i]).len()
                    == text::split_on(lines[i], ':').len() by {
                    if i > 0 {
                        assert(rows[i] == rest[i - 1]);
                        assert(lines.skip(1)[i - 1] == lines[i]);
                    }
                }
            },
            Err(_) => {},
        }
    }
}

proof fn lemma_weighted_row(ws: Seq<u32>, id: nat)
    requires
        ws.len() >= 1,
    ensures
        is_row(layout::weighted_row(ws, id), ws.len(), id),
    decreases ws.len(),
{
    if ws.len() > 1 {
        lemma_weighted_row(ws.skip(1), id + 1);
    }
}

proof fn lemma_weighted_column(rows: Seq<Seq<u32>>, id: nat)
    requires
        rows.len() >= 1,
        forall|i: int| 0 <= i < rows.len() ==> (#[trigger] rows[i]).len() >= 1,
    ensures
        is_stack(
            layout::column(layout::weighted_rows(rows, id)),
            rows.map_values(|ws: Seq<u32>| ws.len()),
            id,
        ),
        sum(rows.map_values(|ws: Seq<u32>| ws.len())) == layout::pane_total(rows),
    decreases rows.len(),
{
    let counts = rows.map_values(|ws: Seq<u32>| ws.len());
    let nodes = layout::weighted_rows(rows, id);
    let rest = rows.skip(1);
    let d = id + rows[0].len();
    assert(rows[0].len() >= 1);
    lemma_weighted_row(rows[0], id);
    layout::lemma_weighted_rows_len(rest, d);
    assert(nodes[0] == layout::weighted_row(rows[0], id));
    assert(nodes.skip(1) =~= layout::weighted_rows(rest, d));
    assert(counts.skip(1) =~= rest.map_values(|ws: Seq<u32>| ws.len()));
    assert(counts[0] == rows[0].len());
    if rows.len() == 1 {
        assert(sum(counts.skip(1)) == 0);
        assert(layout::pane_total(rest) == 0);
    } else {
        assert forall|i: int| 0 <= i < rest.len() implies (#[trigger] rest[i]).len() >= 1 by {
            assert(rest[i] == rows[i + 1]);
        }
        lemma_weighted_column(rest, d);
    }
}

/// The panes of a layout spec stand in rows, one for each part between the `/`,
/// with one pane for each part between the `:`, in any area in which all are
/// shown. A row of one pane so has the full width.
pub proof fn a_spec_stands_in_rows(spec: Seq<char>, area: Rect)
    requires
        area.fits(),
        layout::spec_layout(spec) matches Ok(l) && all_shown(l.root, area),
    ensures
        layout::spec_layout(spec) matches Ok(l) && in_rows(
            layout::rect_map(l.root, area),
            row_counts(spec),
            0,
            area,
        ),
{
    let t = text::trim(spec);
    let l = layout::spec_layout(spec)->Ok_0;
    if t == "quad"@ {
        assert(2 * 2 == 4nat) by (nonlinear_arith);
        a_grid_stands_in_rows(2, 2, area);
        assert(Seq::new(2, |i: int| 2nat) =~= seq![2nat, 2nat]);
    } else {
        let lines = text::split_on(layout::preset(t), '/');
        let rows = layout::weight_rows(lines)->Ok_0;
        let counts = spec_counts(layout::preset(t));
        lemma_weight_rows_len(lines);
        lemma_split_some(layout::preset(t), '/');
        assert forall|i: int| 0 <= i < rows.len() implies (#[trigger] rows[i]).len() >= 1 by {
            lemma_split_some(lines[i], ':');
        }
        lemma_weighted_column(rows, 0);
        assert(rows.map_values(|ws: Seq<u32>| ws.len()) =~= counts);
        lemma_stack(l.root, counts, 0, area);
    }
}

// ─── Moving and swapping ───────────────────────────────────

/// A row of cells runs through both.
pub open spec fn share_a_row(a: Rect, b: Rect) -> bool {
    a.y < b.y + b.h && b.y < a.y + a.h
}

/// A column of cells runs through both.
pub open spec fn share_a_column(a: Rect, b: Rect) -> bool {
    a.x < b.x + b.w && b.x < a.x + a.w
}

/// `to` lies on the side `nav` of `from`, level with it.
pub open spec fn lies_that_way(from: Rect, to: Rect, nav: NavDir) -> bool {
    match nav {
        NavDir::Left => to.x + to.w <= from.x && share_a_row(from, to),
        NavDir::Right => from.x + from.w <= to.x && share_a_row(from, to),
        NavDir::Up => to.y + to.h <= from.y && share_a_column(from, to),
        NavDir::Down => from.y + from.h <= to.y && share_a_column(from, to),
    }
}

/// Coming from the other side, `near` begins no later than `far` on the way in
/// direction `nav`.
pub open spec fn no_farther(near: Rect, far: Rect, nav: NavDir) -> bool {
    match nav {
        NavDir::Left => near.x + near.w >= far.x + far.w,
        NavDir::Right => near.x <= far.x,
        NavDir::Up => near.y + near.h >= far.y + far.h,
        NavDir::Down => near.y <= far.y,
    }
}

proof fn lemma_nearest(
    all: Seq<usize>,
    rects: Map<usize, Rect>,
    from: usize,
    nav: NavDir,
    k: nat,
)
    requires
        k <= all.len(),
        rects.contains_key(from),
    ensures
        match layout::nearest(all, rects, from, nav, k) {
            Some(n) => {
                &&& rects.contains_key(n) && n != from
                &&& lies_that_way(rects[from], rects[n], nav)
                &&& forall|j: int|
                    #![trigger all[j]]
                    0 <= j < k && all[j] != from && rects.contains_key(all[j]) && lies_that_way(
                        rects[from],
                        rects[all[j]],
                        nav,
                    ) ==> no_farther(rects[n], rects[all[j]], nav)
            },
            None => forall|j: int|
                #![trigger all[j]]
                0 <= j < k && all[j] != from && rects.contains_key(all[j]) ==> !lies_that_way(
                    rects[from],
                    rects[all[j]],
                    nav,
                ),
        },
    decreases k,
{
    if k > 0 {
        lemma_nearest(all, rects, from, nav, (k - 1) as nat);
    }
}

/// A move of the focus leads to a pane that lies that way and level with the
/// pane it started from, and no pane that does is nearer. It leads nowhere only
/// where no pane lies that way.
pub proof fn navigation_leads_that_way(node: LayoutNode, from: usize, nav: NavDir, area: Rect)
    requires
        area.fits(),
        layout::ids(node).contains(from),
    ensures
        ({
            let rects = layout::rect_map(node, area);
            match layout::nearest_pane(node, from, nav, area) {
                Some(n) => {
                    &&& layout::ids(node).contains(n) && n != from
                    &&& lies_that_way(rects[from], rects[n], nav)
                    &&& forall|m: usize|
                        #![trigger rects[m]]
                        layout::ids(node).contains(m) && m != from && lies_that_way(
                            rects[from],
                            rects[m],
                            nav,
                        ) ==> no_farther(rects[n], rects[m], nav)
                },
                None => forall|m: usize|
                    #![trigger rects[m]]
                    layout::ids(node).contains(m) && m != from ==> !lies_that_way(
                        rects[from],
                        rects[m],
                        nav,
                    ),
            }
        }),
{
    let rects = layout::rect_map(node, area);
    let all = layout::ids(node);
    layout::rects_inside(node, area);
    assert(rects.contains_key(from) == all.contains(from));
    lemma_nearest(all, rects, from, nav, all.len());
    assert forall|m: usize| #[trigger] all.contains(m) implies rects.contains_key(m) && exists|j: int|
        0 <= j < all.len() && all[j] == m by {
        assert(all[all.index_of(m)] == m);
    }
    match layout::nearest_pane(node, from, nav, area) {
        Some(n) => {
            assert(rects.contains_key(n) == all.contains(n));
            assert forall|m: usize|
                #![trigger rects[m]]
                all.contains(m) && m != from && lies_that_way(
                    rects[from],
                    rects[m],
                    nav,
                ) implies no_farther(rects[n], rects[m], nav) by {
                let j = all.index_of(m);
                assert(all[j] == m);
            }
        },
        None => {
            assert forall|m: usize|
                #![trigger rects[m]]
                all.contains(m) && m != from implies !lies_that_way(rects[from], rects[m], nav) by {
                let j = all.index_of(m);
                assert(all[j] == m);
            }
        },
    }
}

/// Two panes that are swapped take each other's place, and every other pane
/// keeps its own.
pub proof fn swapping_exchanges_places(node: LayoutNode, a: usize, b: usize, area: Rect)
    requires
        area.fits(),
        layout::ids(node).no_duplicates(),
        layout::ids(node).contains(a),
        layout::ids(node).contains(b),
    ensures
        ({
            let was = layout::rect_map(node, area);
            let now = layout::rect_map(layout::swapped(node, a, b), area);
            &&& now[a] == was[b]
            &&& now[b] == was[a]
            &&& forall|p: usize|
                #![trigger now[p]]
                layout::ids(node).contains(p) && p != a && p != b ==> now[p] == was[p]
        }),
{
    let was = layout::rect_map(node, area);
    let now = layout::rect_map(layout::swapped(node, a, b), area);
    lemma_exchanged(node, a, b, a, area);
    lemma_exchanged(node, a, b, b, area);
    assert forall|p: usize|
        #![trigger now[p]]
        layout::ids(node).contains(p) && p != a && p != b implies now[p] == was[p] by {
        lemma_exchanged(node, a, b, p, area);
    }
}

/// The pane that stands where `p` stood.
spec fn exchanged(a: usize, b: usize, p: usize) -> usize {
    if p == a {
        b
    } else if p == b {
        a
    } else {
        p
    }
}

proof fn lemma_exchanged(node: LayoutNode, a: usize, b: usize, p: usize, area: Rect)
    requires
        area.fits(),
        layout::ids(node).no_duplicates(),
    ensures
        layout::rect_map(layout::swapped(node, a, b), area).contains_key(exchanged(a, b, p))
            == layout::ids(node).contains(p),
        layout::ids(node).contains(p) ==> layout::rect_map(
            layout::swapped(node, a, b),
            area,
        )[exchanged(a, b, p)] == layout::rect_map(node, area)[p],
    decreases node,
{
    match node {
        LayoutNode::Leaf { id } => {
            assert(layout::ids(node)[0] == id);
        },
        LayoutNode::Split { direction, ratio, first, second } => {
            let (f, s) = layout::halves(area, direction, ratio);
            layout::halves_are_apart(area, direction, ratio);
            layout::lemma_parts_distinct(layout::ids(*first), layout::ids(*second));
            lemma_exchanged(*first, a, b, p, f);
            lemma_exchanged(*second, a, b, p, s);
            lemma_parts(*first, *second, f, s, p);
        },
    }
}

// ─── Resizing ──────────────────────────────────────────────

/// The part of the area that the node at `path` has.
pub open spec fn area_at(node: LayoutNode, path: Seq<bool>, area: Rect) -> Rect
    decreases node,
{
    match node {
        LayoutNode::Leaf { .. } => area,
        LayoutNode::Split { direction, ratio, first, second } => if path.len() == 0 {
            area
        } else {
            let (a, b) = layout::halves(area, direction, ratio);
            if path[0] {
                area_at(*second, path.skip(1), b)
            } else {
                area_at(*first, path.skip(1), a)
            }
        },
    }
}

/// The node at `path`.
pub open spec fn node_at(node: LayoutNode, path: Seq<bool>) -> LayoutNode
    decreases node,
{
    match node {
        LayoutNode::Leaf { .. } => node,
        LayoutNode::Split { first, second, .. } => if path.len() == 0 {
            node
        } else if path[0] {
            node_at(*second, path.skip(1))
        } else {
            node_at(*first, path.skip(1))
        },
    }
}

/// The pane touches the edge of `area` on the side `nav`.
pub open spec fn at_the_edge(p: Rect, area: Rect, nav: NavDir) -> bool {
    match nav {
        NavDir::Left => p.x == area.x,
        NavDir::Right => p.x + p.w == area.x + area.w,
        NavDir::Up => p.y == area.y,
        NavDir::Down => p.y + p.h == area.y + area.h,
    }
}

/// The split at `path` is one whose separator runs along the side `nav` of the
/// pane.
pub open spec fn borders(node: LayoutNode, path: Seq<bool>, area: Rect, p: Rect, nav: NavDir) -> bool {
    match node_at(node, path) {
        LayoutNode::Leaf { .. } => false,
        LayoutNode::Split { direction, ratio, .. } => {
            let (a, b) = layout::halves(area_at(node, path, area), direction, ratio);
            match nav {
                NavDir::Left => direction == Direction::Horizontal && p.x == b.x,
                NavDir::Right => direction == Direction::Horizontal && p.x + p.w == a.x + a.w,
                NavDir::Up => direction == Direction::Vertical && p.y == b.y,
                NavDir::Down => direction == Direction::Vertical && p.y + p.h == a.y + a.h,
            }
        },
    }
}

/// The way to the innermost split that has the pane on the side that a push in
/// direction `nav` starts from.
spec fn side_path(node: LayoutNode, pane: usize, axis: Direction, back: bool) -> Option<Seq<bool>>
    decreases node,
{
    match node {
        LayoutNode::Leaf { .. } => None,
        LayoutNode::Split { direction, first, second, .. } => {
            let in_second = !layout::ids(*first).contains(pane);
            let rest = if in_second {
                side_path(*second, pane, axis, back)
            } else {
                side_path(*first, pane, axis, back)
            };
            match rest {
                Some(p) => Some(seq![in_second] + p),
                None => if direction == axis && in_second == back {
                    Some(seq![])
                } else {
                    None
                },
            }
        },
    }
}

proof fn lemma_crumb_push(
    c: Seq<(Seq<bool>, Direction, bool)>,
    x: (Seq<bool>, Direction, bool),
    i: int,
    dir: Direction,
    back: bool,
)
    requires
        0 <= i <= c.len(),
    ensures
        layout::nearest_crumb(c.push(x), i, dir, back) == (match layout::nearest_crumb(
            c,
            i,
            dir,
            back,
        ) {
            Some(p) => Some(p),
            None => if x.1 == dir && x.2 == back {
                Some(x.0)
            } else {
                None
            },
        }),
    decreases c.len() - i,
{
    reveal_with_fuel(layout::nearest_crumb, 2);
    if i < c.len() {
        assert(c.push(x)[i] == c[i]);
        lemma_crumb_push(c, x, i + 1, dir, back);
    } else {
        assert(c.push(x)[i] == x);
    }
}

proof fn lemma_crumbs(node: LayoutNode, pane: usize, pre: Seq<bool>, axis: Direction, back: bool)
    requires
        layout::ids(node).no_duplicates(),
    ensures
        match layout::crumbs(node, pane, pre) {
            Some(c) => layout::ids(node).contains(pane) && layout::nearest_crumb(c, 0, axis, back)
                == (match side_path(node, pane, axis, back) {
                Some(p) => Some(pre + p),
                None => None,
            }),
            None => !layout::ids(node).contains(pane),
        },
    decreases node,
{
    match node {
        LayoutNode::Leaf { id } => {
            assert(layout::ids(node)[0] == id);
        },
        LayoutNode::Split { direction, first, second, .. } => {
            layout::lemma_parts_distinct(layout::ids(*first), layout::ids(*second));
            lemma_crumbs(*first, pane, pre.push(false), axis, back);
            lemma_crumbs(*second, pane, pre.push(true), axis, back);
            assert(pre + seq![] =~= pre);
            match layout::crumbs(*first, pane, pre.push(false)) {
                Some(c) => {
                    lemma_crumb_push(c, (pre, direction, false), 0, axis, back);
                    match side_path(*first, pane, axis, back) {
                        Some(p) => {
                            assert(pre.push(false) + p =~= pre + (seq![false] + p));
                        },
                        None => {},
                    }
                },
                None => {
                    match layout::crumbs(*second, pane, pre.push(true)) {
                        Some(c) => {
                            lemma_crumb_push(c, (pre, direction, true), 0, axis, back);
                            match side_path(*second, pane, axis, back) {
                                Some(p) => {
                                    assert(pre.push(true) + p =~= pre + (seq![true] + p));
                                },
                                None => {},
                            }
                        },
                        None => {},
                    }
                },
            }
        },
    }
}

proof fn lemma_side(node: LayoutNode, pane: usize, nav: NavDir, area: Rect)
    requires
        area.fits(),
        layout::ids(node).no_duplicates(),
        layout::ids(node).contains(pane),
        all_shown(node, area),
    ensures
        match side_path(node, pane, layout::nav_axis(nav), layout::nav_back(nav)) {
            Some(path) => borders(node, path, area, layout::rect_map(node, area)[pane], nav)
                && !at_the_edge(layout::rect_map(node, area)[pane], area, nav),
            None => at_the_edge(layout::rect_map(node, area)[pane], area, nav),
        },
    decreases node,
{
    let axis = layout::nav_axis(nav);
    let back = layout::nav_back(nav);
    match node {
        LayoutNode::Leaf { id } => {
            assert(layout::ids(node)[0] == id);
            let i = layout::ids(node).index_of(pane);
            assert(layout::ids(node)[i] == pane);
        },
        LayoutNode::Split { direction, ratio, first, second } => {
            let (a, b) = layout::halves(area, direction, ratio);
            layout::halves_are_apart(area, direction, ratio);
            layout::lemma_parts_distinct(layout::ids(*first), layout::ids(*second));
            lemma_shown_sides(direction, ratio, *first, *second, area);
            sides_follow_each_other(area, direction, ratio);
            lemma_parts(*first, *second, a, b, pane);
            assert(seq![] =~= Seq::<bool>::empty());
            if layout::ids(*first).contains(pane) {
                lemma_side(*first, pane, nav, a);
                match side_path(*first, pane, axis, back) {
                    Some(p) => {
                        assert((seq![false] + p).skip(1) =~= p);
                    },
                    None => {},
                }
            } else {
                lemma_side(*second, pane, nav, b);
                match side_path(*second, pane, axis, back) {
                    Some(p) => {
                        assert((seq![true] + p).skip(1) =~= p);
                    },
                    None => {},
                }
            }
        },
    }
}

/// Resizing a pane in a direction moves the separator that runs along that side
/// of the pane. There is none only where the pane touches the edge of the whole
/// area on that side.
pub proof fn resizing_moves_the_separator_on_that_side(
    node: LayoutNode,
    pane: usize,
    nav: NavDir,
    area: Rect,
)
    requires
        area.fits(),
        layout::ids(node).no_duplicates(),
        layout::ids(node).contains(pane),
        all_shown(node, area),
    ensures
        match layout::resize_path(node, pane, nav) {
            Some(path) => borders(node, path, area, layout::rect_map(node, area)[pane], nav)
                && !at_the_edge(layout::rect_map(node, area)[pane], area, nav),
            None => at_the_edge(layout::rect_map(node, area)[pane], area, nav),
        },
{
    let axis = layout::nav_axis(nav);
    let back = layout::nav_back(nav);
    lemma_crumbs(node, pane, seq![], axis, back);
    lemma_side(node, pane, nav, area);
    match side_path(node, pane, axis, back) {
        Some(p) => {
            assert(seq![] + p =~= p);
        },
        None => {},
    }
}

/// A change of the split at `path` changes its ratio and no other split.
pub proof fn a_nudge_changes_one_split(
    node: LayoutNode,
    path: Seq<bool>,
    d: Ratio,
    up: bool,
    other: Seq<bool>,
)
    requires
        node_at(node, path) is Split,
        node_at(node, other) is Split,
    ensures
        ({
            let now = layout::with_nudge(node, path, d, up);
            &&& layout::ids(now) == layout::ids(node)
            &&& node_at(now, other) is Split
            &&& node_at(now, other)->direction == node_at(node, other)->direction
            &&& other == path ==> node_at(now, other)->ratio == ratio::nudged(
                node_at(node, other)->ratio,
                d,
                up,
            )
            &&& other != path && path_in(node, path) && path_in(node, other) ==> node_at(
                now,
                other,
            )->ratio == node_at(node, other)->ratio
        }),
    decreases node,
{
    match node {
        LayoutNode::Leaf { .. } => {},
        LayoutNode::Split { first, second, .. } => {
            if path.len() > 0 && other.len() > 0 && path[0] == other[0] {
                if other != path {
                    assert(other.skip(1) != path.skip(1)) by {
                        if other.skip(1) == path.skip(1) {
                            assert(other =~= seq![other[0]] + other.skip(1));
                            assert(path =~= seq![path[0]] + path.skip(1));
                        }
                    }
                }
                if path[0] {
                    a_nudge_changes_one_split(*second, path.skip(1), d, up, other.skip(1));
                } else {
                    a_nudge_changes_one_split(*first, path.skip(1), d, up, other.skip(1));
                }
            } else if path.len() > 0 {
                if path[0] {
                    a_nudge_changes_one_split(*second, path.skip(1), d, up, path.skip(1));
                } else {
                    a_nudge_changes_one_split(*first, path.skip(1), d, up, path.skip(1));
                }
            } else {
                assert(other.len() == 0 ==> other =~= path);
            }
        },
    }
}

/// The path leads along splits of the tree.
pub open spec fn path_in(node: LayoutNode, path: Seq<bool>) -> bool
    decreases node,
{
    match node {
        LayoutNode::Leaf { .. } => path.len() == 0,
        LayoutNode::Split { first, second, .. } => path.len() == 0 || (if path[0] {
            path_in(*second, path.skip(1))
        } else {
            path_in(*first, path.skip(1))
        }),
    }
}

// ─── Shares ────────────────────────────────────────────────

/// `n` cells are less than one off from what `a` of `b` parts get of `u` cells.
pub open spec fn near_share(n: int, u: int, a: int, b: int) -> bool {
    -b < b * n - u * a < b
}

/// The exact share of the first side leaves both sides more than the smallest
/// size.
pub open spec fn share_has_room(area: Rect, dir: Direction, a: int, b: int) -> bool {
    match dir {
        Direction::Horizontal => (layout::MIN_PANE_W + 1) * b <= (area.w - 1) * a && (area.w - 1) * a
            <= (area.w - 2 - layout::MIN_PANE_W) * b,
        Direction::Vertical => (layout::MIN_PANE_H + 1) * b <= (area.h - 1) * a && (area.h - 1) * a
            <= (area.h - 2 - layout::MIN_PANE_H) * b,
    }
}

/// A split in the proportion of `a` to `b` gives its first side that share of
/// the cells that the separator leaves, along its direction.
pub proof fn sides_get_their_share(area: Rect, dir: Direction, a: nat, b: nat)
    requires
        area.fits(),
        1 <= a <= b,
        b < 0x100_0000,
        share_has_room(area, dir, a as int, b as int),
    ensures
        ({
            let (first, second) = layout::halves(area, dir, ratio::share(a, b));
            match dir {
                Direction::Horizontal => near_share(
                    first.w as int,
                    area.w - 1,
                    a as int,
                    b as int,
                ),
                Direction::Vertical => near_share(
                    first.h as int,
                    area.h - 1,
                    a as int,
                    b as int,
                ),
            }
        }),
{
    let (len, least) = match dir {
        Direction::Horizontal => (area.w as int, layout::MIN_PANE_W as int),
        Direction::Vertical => (area.h as int, layout::MIN_PANE_H as int),
    };
    let u = len - 1;
    assert(u > 0) by (nonlinear_arith)
        requires
            (least + 1) * b <= u * a,
            a >= 1,
            b >= 1,
            least >= 0,
    ;
    ratio::proportion::shares_are_in_proportion(u as nat, a, b);
    let c = ratio::cells(u as nat, ratio::share(a, b)) as int;
    assert(least < c + 1 && c - 1 < u - least) by (nonlinear_arith)
        requires
            -b < b * c - u * a < b,
            (least + 1) * b <= u * a,
            u * a <= (u - 1 - least) * b,
            b >= 1,
    ;
}

/// A row of a layout spec gives its first pane the share of its weight among
/// the weights from it on.
pub proof fn weights_share_the_width(ws: Seq<u32>, id: nat, area: Rect)
    requires
        ws.len() >= 2,
        id + ws.len() <= usize::MAX,
        layout::proper_weights(ws),
        layout::total(ws) < 0x100_0000,
        area.fits(),
        share_has_room(area, Direction::Horizontal, ws[0] as int, layout::total(ws) as int),
    ensures
        near_share(
            layout::rect_map(layout::weighted_row(ws, id), area)[id as usize].w as int,
            area.w - 1,
            ws[0] as int,
            layout::total(ws) as int,
        ),
{
    let rest = layout::weighted_row(ws.skip(1), id + 1);
    let r = ratio::share(ws[0] as nat, layout::total(ws));
    assert(1 <= ws[0] <= 9);
    sides_get_their_share(area, Direction::Horizontal, ws[0] as nat, layout::total(ws));
    layout::halves_are_apart(area, Direction::Horizontal, r);
    let (a, b) = layout::halves(area, Direction::Horizontal, r);
    lemma_weighted_row(ws.skip(1), id + 1);
    lemma_row_run(rest, (ws.len() - 1) as nat, id + 1);
    lemma_run_distinct(id + 1, (ws.len() - 1) as nat);
    layout::rects_inside(rest, b);
    assert(layout::rect_map(rest, b).contains_key(id as usize) == layout::ids(rest).contains(
        id as usize,
    ));
    reveal_with_fuel(layout::rect_map, 2);
    let node = layout::weighted_row(ws, id);
    let leaf = LayoutNode::Leaf { id: id as usize };
    assert(layout::rect_map(node, area) == layout::rect_map(leaf, a).union_prefer_right(
        layout::rect_map(rest, b),
    ));
    assert(layout::rect_map(node, area)[id as usize] == a);
}

/// The rows of a layout spec get equal shares of the height: the first of them
/// one part of as many as there are rows from it on.
pub proof fn rows_share_the_height(rows: Seq<Seq<u32>>, id: nat, area: Rect)
    requires
        2 <= rows.len() < 0x100_0000,
        forall|i: int| 0 <= i < rows.len() ==> (#[trigger] rows[i]).len() >= 1,
        id + layout::pane_total(rows) <= usize::MAX,
        area.fits(),
        share_has_room(area, Direction::Vertical, 1, rows.len() as int),
        all_shown(layout::column(layout::weighted_rows(rows, id)), area),
    ensures
        near_share(
            layout::rect_map(
                layout::column(layout::weighted_rows(rows, id)),
                area,
            )[id as usize].h as int,
            area.h - 1,
            1,
            rows.len() as int,
        ),
{
    let node = layout::column(layout::weighted_rows(rows, id));
    let counts = rows.map_values(|ws: Seq<u32>| ws.len());
    let n = rows.len();
    lemma_weighted_column(rows, id);
    layout::lemma_weighted_rows_len(rows, id);
    sides_get_their_share(area, Direction::Vertical, 1, n);
    lemma_stack_run(node, counts, id);
    lemma_run_distinct(id, sum(counts));
    assert(rows[0].len() >= 1);
    match node {
        LayoutNode::Split { direction, ratio, first, second } => {
            let (a, b) = layout::halves(area, direction, ratio);
            layout::halves_are_apart(area, direction, ratio);
            lemma_shown_sides(direction, ratio, *first, *second, area);
            lemma_row(*first, counts[0], id, a);
            lemma_row_run(*first, counts[0], id);
            lemma_run_distinct(id, counts[0]);
            assert(layout::ids(*first).contains(id as usize));
            lemma_parts(*first, *second, a, b, id as usize);
            assert(layout::rect_map(*first, a)[id as usize].h == a.h);
        },
        LayoutNode::Leaf { .. } => {},
    }
}

/// Equalizing gives the first side of every split the share of its panes among
/// the panes of both sides.
pub proof fn panes_share_equally(
    direction: Direction,
    ratio: Ratio,
    first: LayoutNode,
    second: LayoutNode,
    area: Rect,
)
    requires
        area.fits(),
        layout::ids(first).len() + layout::ids(second).len() < 0x100_0000,
        share_has_room(
            area,
            direction,
            layout::ids(first).len() as int,
            (layout::ids(first).len() + layout::ids(second).len()) as int,
        ),
    ensures
        ({
            let node = LayoutNode::Split {
                direction,
                ratio,
                first: Box::new(first),
                second: Box::new(second),
            };
            let k = layout::ids(first).len() as int;
            let n = layout::ids(node).len() as int;
            &&& layout::equalized(node) is Split
            &&& layout::equalized(node)->direction == direction
            &&& *layout::equalized(node)->first == layout::equalized(first)
            &&& *layout::equalized(node)->second == layout::equalized(second)
            &&& match direction {
                Direction::Horizontal => near_share(
                    layout::halves(area, direction, layout::equalized(node)->ratio).0.w as int,
                    area.w - 1,
                    k,
                    n,
                ),
                Direction::Vertical => near_share(
                    layout::halves(area, direction, layout::equalized(node)->ratio).0.h as int,
                    area.h - 1,
                    k,
                    n,
                ),
            }
        }),
{
    layout::lemma_some_leaf(first);
    layout::lemma_some_leaf(second);
    sides_get_their_share(
        area,
        direction,
        layout::ids(first).len(),
        layout::ids(first).len() + layout::ids(second).len(),
    );
}

/// The presets and the layout specs that they stand for.
pub proof fn presets_stand_for_specs()
    ensures
        layout::preset("ide"@) == "7:3/1:1"@,
        layout::preset("dev"@) == "7:3"@,
        layout::preset("monitor"@) == "1:1:1"@,
        layout::preset("stack"@) == "1/1/1"@,
        layout::preset("main"@) == "6:4/1"@,
        layout::preset("trio"@) == "1/1:1"@,
{
    reveal_strlit("ide");
    reveal_strlit("dev");
    reveal_strlit("monitor");
    reveal_strlit("stack");
    reveal_strlit("main");
    reveal_strlit("trio");
    assert("ide"@.len() == 3);
    assert("ide"@[0] == 'i');
    assert("ide"@[1] == 'd');
    assert("ide"@[2] == 'e');
    assert("dev"@.len() == 3);
    assert("dev"@[0] == 'd');
    assert("dev"@[1] == 'e');
    assert("dev"@[2] == 'v');
    assert("monitor"@.len() == 7);
    assert("monitor"@[0] == 'm');
    assert("monitor"@[1] == 'o');
    assert("monitor"@[2] == 'n');
    assert("monitor"@[3] == 'i');
    assert("monitor"@[4] == 't');
    assert("monitor"@[5] == 'o');
    assert("monitor"@[6] == 'r');
    assert("stack"@.len() == 5);
    assert("stack"@[0] == 's');
    assert("stack"@[1] == 't');
    assert("stack"@[2] == 'a');
    assert("stack"@[3] == 'c');
    assert("stack"@[4] == 'k');
    assert("main"@.len() == 4);
    assert("main"@[0] == 'm');
    assert("main"@[1] == 'a');
    assert("main"@[2] == 'i');
    assert("main"@[3] == 'n');
    assert("trio"@.len() == 4);
    assert("trio"@[0] == 't');
    assert("trio"@[1] == 'r');
    assert("trio"@[2] == 'i');
    assert("trio"@[3] == 'o');
}

// ─── Removing and hitting ──────────────────────────────────

/// The other side of the split that the pane is a side of, and the part of the
/// area that the split has.
pub open spec fn sibling(node: LayoutNode, pane: usize, area: Rect) -> Option<(LayoutNode, Rect)>
    decreases node,
{
    match node {
        LayoutNode::Leaf { .. } => None,
        LayoutNode::Split { direction, ratio, first, second } => {
            let (a, b) = layout::halves(area, direction, ratio);
            if *first == (LayoutNode::Leaf { id: pane }) {
                Some((*second, area))
            } else if *second == (LayoutNode::Leaf { id: pane }) {
                Some((*first, area))
            } else if layout::ids(*first).contains(pane) {
                sibling(*first, pane, a)
            } else {
                sibling(*second, pane, b)
            }
        },
    }
}

/// When a pane is removed, the panes on the other side of its split share the
/// room of both sides, and all other panes keep their places.
pub proof fn removing_gives_the_room_to_the_neighbours(
    node: LayoutNode,
    pane: usize,
    area: Rect,
    p: usize,
)
    requires
        area.fits(),
        layout::ids(node).no_duplicates(),
        layout::ids(node).contains(pane),
        layout::ids(node).contains(p),
        p != pane,
    ensures
        layout::without(node, pane) matches Some(now) && sibling(node, pane, area) matches Some(
            (sib, both),
        ) && {
            &&& layout::rect_map(node, area)[pane].inside(both)
            &&& layout::ids(sib).contains(p) ==> layout::rect_map(node, area)[p].inside(both)
                && layout::rect_map(now, area)[p] == layout::rect_map(sib, both)[p]
            &&& !layout::ids(sib).contains(p) ==> layout::rect_map(now, area)[p]
                == layout::rect_map(node, area)[p]
        },
    decreases node,
{
    layout::remove_takes_one(node, pane);
    match node {
        LayoutNode::Leaf { id } => {
            let i = layout::ids(node).index_of(pane);
            let j = layout::ids(node).index_of(p);
            assert(layout::ids(node)[i] == pane && layout::ids(node)[j] == p);
            assert(layout::ids(node).len() == 1);
            assert(i == 0 && j == 0);
            assert(p == pane);
        },
        LayoutNode::Split { direction, ratio, first, second } => {
            let (a, b) = layout::halves(area, direction, ratio);
            layout::halves_are_apart(area, direction, ratio);
            layout::lemma_parts_distinct(layout::ids(*first), layout::ids(*second));
            lemma_parts(*first, *second, a, b, pane);
            lemma_parts(*first, *second, a, b, p);
            layout::remove_takes_one(*first, pane);
            layout::remove_takes_one(*second, pane);
            reveal_with_fuel(layout::ids, 2);
            reveal_with_fuel(layout::without, 2);
            if *first == (LayoutNode::Leaf { id: pane }) {
                assert(layout::ids(*first)[0] == pane);
                assert(layout::ids(*first).contains(pane));
            }
            if *second == (LayoutNode::Leaf { id: pane }) {
                assert(layout::ids(*second)[0] == pane);
                assert(layout::ids(*second).contains(pane));
            }
            if layout::ids(*first).contains(pane) {
                if *first == (LayoutNode::Leaf { id: pane }) {
                    let i = layout::ids(*first).index_of(p);
                    assert(layout::ids(*first).contains(p) ==> layout::ids(*first)[i] == p);
                } else {
                    lemma_leaf_alone(*first, pane);
                    lemma_leaf_alone(*second, pane);
                    let f = layout::without(*first, pane)->Some_0;
                    lemma_without_ids(*first, pane, f);
                    assert((layout::ids(f) + layout::ids(*second)).no_duplicates()) by {
                        lemma_sum_distinct(layout::ids(f), layout::ids(*second));
                    }
                    lemma_parts(f, *second, a, b, p);
                    if layout::ids(*first).contains(p) {
                        removing_gives_the_room_to_the_neighbours(*first, pane, a, p);
                    } else {
                        lemma_sibling(*first, pane, a);
                    }
                }
            } else {
                if *second == (LayoutNode::Leaf { id: pane }) {
                    let i = layout::ids(*second).index_of(p);
                    assert(layout::ids(*second).contains(p) ==> layout::ids(*second)[i] == p);
                } else {
                    lemma_leaf_alone(*first, pane);
                    lemma_leaf_alone(*second, pane);
                    let t = layout::without(*second, pane)->Some_0;
                    lemma_without_ids(*second, pane, t);
                    assert((layout::ids(*first) + layout::ids(t)).no_duplicates()) by {
                        lemma_sum_distinct(layout::ids(*first), layout::ids(t));
                    }
                    lemma_parts(*first, t, a, b, p);
                    if layout::ids(*second).contains(p) {
                        removing_gives_the_room_to_the_neighbours(*second, pane, b, p);
                    } else {
                        lemma_sibling(*second, pane, b);
                    }
                }
            }
        },
    }
}

/// A leaf holds its pane and no other.
proof fn lemma_leaf_alone(node: LayoutNode, pane: usize)
    ensures
        node is Leaf && layout::ids(node).contains(pane) ==> node == (LayoutNode::Leaf {
            id: pane,
        }),
        node is Split ==> layout::without(node, pane) is Some,
{
    layout::remove_takes_one(node, pane);
    match node {
        LayoutNode::Leaf { id } => {
            if layout::ids(node).contains(pane) {
                let i = layout::ids(node).index_of(pane);
                assert(layout::ids(node)[i] == pane);
            }
        },
        LayoutNode::Split { .. } => {},
    }
}

proof fn lemma_without_ids(node: LayoutNode, pane: usize, now: LayoutNode)
    requires
        layout::ids(node).no_duplicates(),
        layout::ids(node).contains(pane),
        layout::without(node, pane) == Some(now),
    ensures
        layout::ids(now).no_duplicates(),
        forall|x: usize| #[trigger]
            layout::ids(now).contains(x) <==> layout::ids(node).contains(x) && x != pane,
{
    let s = layout::ids(node);
    layout::remove_takes_one(node, pane);
    s.index_of_first_ensures(pane);
    let k = s.index_of_first(pane)->0;
    let t = s.remove(k);
    assert(layout::ids(now) == t);
    assert forall|x: usize| #[trigger] t.contains(x) == (s.contains(x) && x != pane) by {
        if t.contains(x) {
            let i = t.index_of(x);
            assert(t[i] == s[if i < k {
                i
            } else {
                i + 1
            }]);
        }
        if s.contains(x) && x != pane {
            let i = s.index_of(x);
            assert(t[if i < k {
                i
            } else {
                i - 1
            }] == x);
        }
    }
}

proof fn lemma_sum_distinct(s: Seq<usize>, t: Seq<usize>)
    requires
        s.no_duplicates(),
        t.no_duplicates(),
        forall|x: usize| !(s.contains(x) && #[trigger] t.contains(x)),
    ensures
        (s + t).no_duplicates(),
{
    let u = s + t;
    assert forall|i: int, j: int| 0 <= i < u.len() && 0 <= j < u.len() && i != j implies u[i]
        != u[j] by {
        if i < s.len() && j >= s.len() {
            assert(s.contains(s[i]));
            assert(t.contains(t[j - s.len()]));
        }
        if j < s.len() && i >= s.len() {
            assert(s.contains(s[j]));
            assert(t.contains(t[i - s.len()]));
        }
    }
}

proof fn lemma_sibling(node: LayoutNode, pane: usize, area: Rect)
    requires
        area.fits(),
        node is Split,
        layout::ids(node).no_duplicates(),
        layout::ids(node).contains(pane),
    ensures
        sibling(node, pane, area) matches Some((sib, both)) && layout::rect_map(
            node,
            area,
        )[pane].inside(both) && forall|x: usize| #[trigger]
            layout::ids(sib).contains(x) ==> layout::ids(node).contains(x),
    decreases node,
{
    match node {
        LayoutNode::Leaf { .. } => {},
        LayoutNode::Split { direction, ratio, first, second } => {
            let (a, b) = layout::halves(area, direction, ratio);
            layout::halves_are_apart(area, direction, ratio);
            layout::lemma_parts_distinct(layout::ids(*first), layout::ids(*second));
            lemma_parts(*first, *second, a, b, pane);
            lemma_leaf_alone(*first, pane);
            lemma_leaf_alone(*second, pane);
            if *first != (LayoutNode::Leaf { id: pane }) && *second != (LayoutNode::Leaf {
                id: pane,
            }) {
                if layout::ids(*first).contains(pane) {
                    lemma_sibling(*first, pane, a);
                } else {
                    lemma_sibling(*second, pane, b);
                }
            }
        },
    }
}

/// The separator that a cell hits belongs to the split that is named: its line
/// runs through the cell or right beside it, across the part of the area that
/// the split has.
pub proof fn a_hit_is_on_the_separator(
    node: LayoutNode,
    x: u16,
    y: u16,
    area: Rect,
    pre: Seq<bool>,
)
    requires
        area.fits(),
    ensures
        layout::sep_at(node, x, y, area, pre) matches Some((path, direction, part)) ==> {
            let tail = path.skip(pre.len() as int);
            &&& path == pre + tail
            &&& area_at(node, tail, area) == part
            &&& node_at(node, tail) matches LayoutNode::Split { direction: d, ratio, .. } && d
                == direction && {
                let (a, b) = layout::halves(part, direction, ratio);
                match direction {
                    Direction::Horizontal => a.x + a.w - 1 <= x <= a.x + a.w + 1 && part.y <= y
                        < part.y + part.h,
                    Direction::Vertical => a.y + a.h - 1 <= y <= a.y + a.h + 1 && part.x <= x
                        < part.x + part.w,
                }
            }
        },
    decreases node,
{
    match node {
        LayoutNode::Leaf { .. } => {},
        LayoutNode::Split { direction, ratio, first, second } => {
            let (a, b) = layout::halves(area, direction, ratio);
            layout::halves_are_apart(area, direction, ratio);
            if layout::on_separator(area, direction, a, x, y) {
                assert(pre.skip(pre.len() as int) =~= seq![]);
                assert(pre + seq![] =~= pre);
            } else {
                a_hit_is_on_the_separator(*first, x, y, a, pre.push(false));
                a_hit_is_on_the_separator(*second, x, y, b, pre.push(true));
                match layout::sep_at(*first, x, y, a, pre.push(false)) {
                    Some((path, _, _)) => {
                        lemma_path_step(path, pre, false);
                    },
                    None => {
                        match layout::sep_at(*second, x, y, b, pre.push(true)) {
                            Some((path, _, _)) => {
                                lemma_path_step(path, pre, true);
                            },
                            None => {},
                        }
                    },
                }
            }
        },
    }
}

proof fn lemma_path_step(path: Seq<bool>, pre: Seq<bool>, side: bool)
    requires
        path == pre.push(side) + path.skip(pre.push(side).len() as int),
        path.len() > pre.len(),
    ensures
        path == pre + path.skip(pre.len() as int),
        path.skip(pre.len() as int).len() > 0,
        path.skip(pre.len() as int)[0] == side,
        path.skip(pre.len() as int).skip(1) == path.skip(pre.len() as int + 1),
{
    let t = path.skip(pre.len() as int);
    assert(path[pre.len() as int] == pre.push(side)[pre.len() as int]);
    assert(path =~= pre + t) by {
        assert forall|i: int| 0 <= i < pre.len() implies path[i] == pre[i] by {
            assert(path[i] == pre.push(side)[i]);
        }
    }
    assert(t.skip(1) =~= path.skip(pre.len() as int + 1));
}

} // verus!
