//! Pane layout: a binary tree of splits over rectangles of terminal cells.

use std::collections::HashMap;

use vstd::prelude::*;
use vstd::string::*;

use crate::ratio;
use crate::ratio::Ratio;
use crate::text;

pub mod geometry;

verus! {

broadcast use vstd::std_specs::hash::group_hash_axioms;

#[derive(Clone, Copy, Debug, PartialEq, Eq, Structural)]
pub enum Direction {
    /// Panes arranged left | right.
    Horizontal,
    /// Panes arranged top / bottom.
    Vertical,
}

#[derive(Debug)]
pub enum LayoutNode {
    Leaf { id: usize },
    Split { direction: Direction, ratio: Ratio, first: Box<LayoutNode>, second: Box<LayoutNode> },
}

impl Default for LayoutNode {
    fn default() -> (r: Self)
        ensures
            r == (LayoutNode::Leaf { id: 0 }),
    {
        LayoutNode::Leaf { id: 0 }
    }
}

#[derive(Clone, Copy, Debug, PartialEq, Eq, Structural)]
pub struct Rect {
    pub x: u16,
    pub y: u16,
    pub w: u16,
    pub h: u16,
}

#[derive(Clone, Copy, Debug, PartialEq, Eq, Structural)]
pub enum NavDir {
    Left,
    Right,
    Up,
    Down,
}

#[derive(Clone, Copy, Debug, PartialEq, Eq, Structural)]
pub struct SepLine {
    pub horizontal: bool,
    pub x: u16,
    pub y: u16,
    pub length: u16,
}

/// Result of hitting a separator line (for drag-to-resize).
pub struct SepHit {
    /// Tree path: false = first, true = second.
    pub path: Vec<bool>,
    /// Direction of the split.
    pub direction: Direction,
    /// Content area of the split.
    pub area: Rect,
}

#[derive(Debug)]
pub struct Layout {
    pub root: LayoutNode,
    pub next_id: usize,
}

impl Clone for LayoutNode {
    fn clone(&self) -> (r: Self)
        ensures
            r == *self,
        decreases self,
    {
        match self {
            LayoutNode::Leaf { id } => LayoutNode::Leaf { id: *id },
            LayoutNode::Split { direction, ratio, first, second } => LayoutNode::Split {
                direction: *direction,
                ratio: *ratio,
                first: Box::new((&**first).clone()),
                second: Box::new((&**second).clone()),
            },
        }
    }
}

impl Clone for Layout {
    fn clone(&self) -> (r: Self)
        ensures
            r == *self,
    {
        Layout { root: self.root.clone(), next_id: self.next_id }
    }
}

/// Smallest width that a pane is given where the area can afford it.
pub const MIN_PANE_W: u16 = 3;

/// Smallest height that a pane is given where the area can afford it.
pub const MIN_PANE_H: u16 = 2;

// ─── Splitting a rectangle ─────────────────────────────────

impl Rect {
    /// The cells of the rectangle have coordinates that fit.
    pub open spec fn fits(self) -> bool {
        self.x + self.w <= 0xffff && self.y + self.h <= 0xffff
    }

    pub open spec fn holds(self, x: int, y: int) -> bool {
        self.x <= x < self.x + self.w && self.y <= y < self.y + self.h
    }

    /// Every cell of `self` lies in `outer`, and so do its corners.
    pub open spec fn inside(self, outer: Rect) -> bool {
        &&& outer.x <= self.x
        &&& self.x + self.w <= outer.x + outer.w
        &&& outer.y <= self.y
        &&& self.y + self.h <= outer.y + outer.h
    }

    /// No cell lies in both.
    pub open spec fn apart(self, other: Rect) -> bool {
        forall|x: int, y: int| !(self.holds(x, y) && #[trigger] other.holds(x, y))
    }
}

pub open spec fn min(a: int, b: int) -> int {
    if a <= b {
        a
    } else {
        b
    }
}

pub open spec fn max(a: int, b: int) -> int {
    if a >= b {
        a
    } else {
        b
    }
}

/// `len - less`, at least zero.
pub open spec fn minus(len: int, less: int) -> int {
    max(len - less, 0)
}

/// The length of the first side when `len` cells are split, one of them given
/// to the separator, so that each side keeps `least` cells where there are
/// enough; `None` where there is no room for two sides.
pub open spec fn first_len(len: int, least: int, r: Ratio) -> Option<int> {
    let usable = minus(len, 1);
    if usable < 2 {
        None
    } else {
        let lo = max(min(least, minus(usable, least)), 1);
        let hi = max(minus(usable, least), lo);
        Some(max(lo, min(hi, ratio::cells(usable as nat, r) as int)))
    }
}

/// The two sides of a split area. Where there is no room, the first side is
/// the whole area and the second is empty.
pub open spec fn halves(area: Rect, dir: Direction, r: Ratio) -> (Rect, Rect) {
    match dir {
        Direction::Horizontal => match first_len(area.w as int, MIN_PANE_W as int, r) {
            Some(n) => (
                Rect { w: n as u16, ..area },
                Rect {
                    x: (area.x + n + 1) as u16,
                    w: (area.w - 1 - n) as u16,
                    ..area
                },
            ),
            None => (area, Rect { w: 0, ..area }),
        },
        Direction::Vertical => match first_len(area.h as int, MIN_PANE_H as int, r) {
            Some(n) => (
                Rect { h: n as u16, ..area },
                Rect {
                    y: (area.y + n + 1) as u16,
                    h: (area.h - 1 - n) as u16,
                    ..area
                },
            ),
            None => (area, Rect { h: 0, ..area }),
        },
    }
}

/// The second side of a split area begins at a coordinate that fits.
pub open spec fn sides_fit(area: Rect, dir: Direction, r: Ratio) -> bool {
    match dir {
        Direction::Horizontal => match first_len(area.w as int, MIN_PANE_W as int, r) {
            Some(n) => area.x + n + 1 <= 0xffff,
            None => true,
        },
        Direction::Vertical => match first_len(area.h as int, MIN_PANE_H as int, r) {
            Some(n) => area.y + n + 1 <= 0xffff,
            None => true,
        },
    }
}

/// Tells whether `area` has room for a separator and two sides of the
/// smallest size along `dir`.
pub fn can_split(area: &Rect, dir: Direction) -> (r: bool)
    ensures
        r == match dir {
            Direction::Horizontal => area.w >= 2 * MIN_PANE_W + 1,
            Direction::Vertical => area.h >= 2 * MIN_PANE_H + 1,
        },
{
    match dir {
        Direction::Horizontal => area.w > 2 * MIN_PANE_W,
        Direction::Vertical => area.h > 2 * MIN_PANE_H,
    }
}

/// The length of the first side of a split.
fn side_len(len: u16, least: u16, r: &Ratio) -> (n: Option<u16>)
    requires
        r.wf(),
        1 <= least <= 3,
    ensures
        match n {
            Some(v) => first_len(len as int, least as int, *r) == Some(v as int) && v <= len - 2,
            None => first_len(len as int, least as int, *r) is None,
        },
{
    let usable: u16 = len.saturating_sub(1);
    if usable < 2 {
        return None;
    }
    let rest: u16 = usable.saturating_sub(least);
    let lo: u16 = if rest < least {
        rest
    } else {
        least
    };
    let lo: u16 = if lo < 1 {
        1
    } else {
        lo
    };
    let hi: u16 = if rest < lo {
        lo
    } else {
        rest
    };
    let want: u16 = r.cells_of(usable);
    if want < lo {
        Some(lo)
    } else if want > hi {
        Some(hi)
    } else {
        Some(want)
    }
}

/// The two sides of a split area.
pub fn split_area(area: &Rect, dir: Direction, ratio: Ratio) -> (r: (Rect, Rect))
    requires
        sides_fit(*area, dir, ratio),
        ratio.wf(),
    ensures
        r == halves(*area, dir, ratio),
        area.fits() ==> r.0.fits() && r.1.fits(),
{
    match dir {
        Direction::Horizontal => match side_len(area.w, MIN_PANE_W, &ratio) {
            None => (*area, Rect { x: area.x, y: area.y, w: 0, h: area.h }),
            Some(fw) => (
                Rect { x: area.x, y: area.y, w: fw, h: area.h },
                Rect { x: area.x + fw + 1, y: area.y, w: area.w - 1 - fw, h: area.h },
            ),
        },
        Direction::Vertical => match side_len(area.h, MIN_PANE_H, &ratio) {
            None => (*area, Rect { x: area.x, y: area.y, w: area.w, h: 0 }),
            Some(fh) => (
                Rect { x: area.x, y: area.y, w: area.w, h: fh },
                Rect { x: area.x, y: area.y + fh + 1, w: area.w, h: area.h - 1 - fh },
            ),
        },
    }
}

/// Both sides of a split lie inside the area and share no cell.
pub proof fn halves_are_apart(area: Rect, dir: Direction, r: Ratio)
    requires
        area.fits(),
    ensures
        halves(area, dir, r).0.inside(area),
        halves(area, dir, r).1.inside(area),
        halves(area, dir, r).0.apart(halves(area, dir, r).1),
        halves(area, dir, r).0.fits(),
        halves(area, dir, r).1.fits(),
{
}

/// Where a split is allowed, both sides keep the smallest size of a pane, and
/// with the separator they use up the whole length.
pub proof fn halves_keep_minimum(area: Rect, dir: Direction, r: Ratio)
    requires
        area.fits(),
        match dir {
            Direction::Horizontal => area.w >= 2 * MIN_PANE_W + 1,
            Direction::Vertical => area.h >= 2 * MIN_PANE_H + 1,
        },
    ensures
        ({
            let (a, b) = halves(area, dir, r);
            match dir {
                Direction::Horizontal => a.w >= MIN_PANE_W && b.w >= MIN_PANE_W && a.w + 1 + b.w
                    == area.w && a.h == area.h && b.h == area.h,
                Direction::Vertical => a.h >= MIN_PANE_H && b.h >= MIN_PANE_H && a.h + 1 + b.h
                    == area.h && a.w == area.w && b.w == area.w,
            }
        }),
{
}

// ─── Leaves ────────────────────────────────────────────────

/// The pane ids of a tree, in order.
pub open spec fn ids(node: LayoutNode) -> Seq<usize>
    decreases node,
{
    match node {
        LayoutNode::Leaf { id } => seq![id],
        LayoutNode::Split { first, second, .. } => ids(*first) + ids(*second),
    }
}

/// Every ratio in the tree is a proper ratio.
pub open spec fn ratios_wf(node: LayoutNode) -> bool
    decreases node,
{
    match node {
        LayoutNode::Leaf { .. } => true,
        LayoutNode::Split { ratio, first, second, .. } => ratio.wf() && ratios_wf(*first)
            && ratios_wf(*second),
    }
}

impl LayoutNode {
    /// Every ratio is one, and the panes can be counted.
    pub open spec fn wf(self) -> bool {
        ratios_wf(self) && ids(self).len() <= usize::MAX
    }
}

impl Layout {
    pub open spec fn wf(self) -> bool {
        self.root.wf()
    }

    /// The ids are pairwise different, and the next id is larger than all.
    pub open spec fn fresh(self) -> bool {
        &&& ids(self.root).no_duplicates()
        &&& forall|i: int| 0 <= i < ids(self.root).len() ==> #[trigger] ids(self.root)[i] < self.next_id
    }

    /// A split of `target` leaves no more panes than can be counted. Where the
    /// ids are fresh there is always room, as a split adds one pane at most.
    pub open spec fn has_room(self, target: usize) -> bool {
        ||| self.fresh()
        ||| with_after(ids(self.root), target, self.next_id).len() <= usize::MAX
    }
}

pub proof fn lemma_some_leaf(node: LayoutNode)
    ensures
        ids(node).len() >= 1,
    decreases node,
{
    match node {
        LayoutNode::Leaf { .. } => {},
        LayoutNode::Split { first, second, .. } => {
            lemma_some_leaf(*first);
            lemma_some_leaf(*second);
        },
    }
}

fn collect_ids(node: &LayoutNode, out: &mut Vec<usize>)
    ensures
        final(out)@ == old(out)@ + ids(*node),
    decreases node,
{
    match node {
        LayoutNode::Leaf { id } => {
            out.push(*id);
            assert(out@ =~= old(out)@ + ids(*node));
        },
        LayoutNode::Split { first, second, .. } => {
            collect_ids(first, out);
            collect_ids(second, out);
            assert(out@ =~= old(out)@ + ids(*node));
        },
    }
}

fn count_leaves(node: &LayoutNode) -> (n: usize)
    requires
        ids(*node).len() <= usize::MAX,
    ensures
        n == ids(*node).len(),
        n >= 1,
    decreases node,
{
    proof {
        lemma_some_leaf(*node);
    }
    match node {
        LayoutNode::Leaf { .. } => 1,
        LayoutNode::Split { first, second, .. } => count_leaves(first) + count_leaves(second),
    }
}

// ─── Rectangles of the panes ───────────────────────────────

/// The content rectangle of every pane. Where an id occurs twice, the later
/// occurrence counts.
pub open spec fn rect_map(node: LayoutNode, area: Rect) -> Map<usize, Rect>
    decreases node,
{
    match node {
        LayoutNode::Leaf { id } => map![id => area],
        LayoutNode::Split { direction, ratio, first, second } => {
            let (a, b) = halves(area, direction, ratio);
            rect_map(*first, a).union_prefer_right(rect_map(*second, b))
        },
    }
}

fn collect_rects(node: &LayoutNode, area: &Rect, out: &mut HashMap<usize, Rect>)
    requires
        area.fits(),
        ratios_wf(*node),
    ensures
        final(out)@ == old(out)@.union_prefer_right(rect_map(*node, *area)),
    decreases node,
{
    match node {
        LayoutNode::Leaf { id } => {
            out.insert(*id, *area);
            assert(out@ =~= old(out)@.union_prefer_right(rect_map(*node, *area)));
        },
        LayoutNode::Split { direction, ratio, first, second } => {
            let (a, b) = split_area(area, *direction, *ratio);
            collect_rects(first, &a, out);
            collect_rects(second, &b, out);
            assert(out@ =~= old(out)@.union_prefer_right(rect_map(*node, *area)));
        },
    }
}

/// Every pane has a rectangle, no other id has one, and each lies inside the
/// area.
pub proof fn rects_inside(node: LayoutNode, area: Rect)
    requires
        area.fits(),
    ensures
        rect_map(node, area).dom() =~= ids(node).to_set(),
        forall|id: usize| #[trigger]
            rect_map(node, area).contains_key(id) ==> rect_map(node, area)[id].inside(area),
    decreases node,
{
    match node {
        LayoutNode::Leaf { id } => {
            assert(ids(node)[0] == id);
        },
        LayoutNode::Split { direction, ratio, first, second } => {
            let (a, b) = halves(area, direction, ratio);
            halves_are_apart(area, direction, ratio);
            rects_inside(*first, a);
            rects_inside(*second, b);
            let s = ids(*first);
            let t = ids(*second);
            assert forall|id: usize| (s + t).contains(id) == (s.contains(id) || t.contains(id)) by {
                if s.contains(id) {
                    let i = s.index_of(id);
                    assert((s + t)[i] == id);
                }
                if t.contains(id) {
                    let i = t.index_of(id);
                    assert((s + t)[s.len() + i] == id);
                }
            }
        },
    }
}

/// Where no id occurs twice, the rectangles of two panes share no cell.
pub proof fn rects_apart(node: LayoutNode, area: Rect, p: usize, q: usize)
    requires
        area.fits(),
        ids(node).no_duplicates(),
        ids(node).contains(p),
        ids(node).contains(q),
        p != q,
    ensures
        rect_map(node, area)[p].apart(rect_map(node, area)[q]),
    decreases node,
{
    match node {
        LayoutNode::Leaf { .. } => {},
        LayoutNode::Split { direction, ratio, first, second } => {
            let (a, b) = halves(area, direction, ratio);
            let s = ids(*first);
            let t = ids(*second);
            halves_are_apart(area, direction, ratio);
            rects_inside(*first, a);
            rects_inside(*second, b);
            lemma_parts_distinct(s, t);
            assert(rect_map(*first, a).dom() =~= s.to_set());
            assert(rect_map(*second, b).dom() =~= t.to_set());
            if s.contains(p) && s.contains(q) {
                rects_apart(*first, a, p, q);
            } else if t.contains(p) && t.contains(q) {
                rects_apart(*second, b, p, q);
            } else {
                let m = rect_map(node, area);
                assert(m.contains_key(p));
                assert(m.contains_key(q));
                if s.contains(p) {
                    assert(t.contains(q));
                    assert(m[p] == rect_map(*first, a)[p]);
                    assert(m[q] == rect_map(*second, b)[q]);
                    assert(rect_map(*first, a).contains_key(p));
                    assert(rect_map(*second, b).contains_key(q));
                    lemma_inside_apart(m[p], a, m[q], b);
                } else {
                    assert(t.contains(p));
                    assert(s.contains(q));
                    assert(m[p] == rect_map(*second, b)[p]);
                    assert(m[q] == rect_map(*first, a)[q]);
                    assert(rect_map(*first, a).contains_key(q));
                    assert(rect_map(*second, b).contains_key(p));
                    lemma_inside_apart(m[q], a, m[p], b);
                    assert forall|x: int, y: int| !(m[p].holds(x, y) && #[trigger] m[q].holds(
                        x,
                        y,
                    )) by {
                        assert(!(m[q].holds(x, y) && m[p].holds(x, y)));
                    }
                }
            }
        },
    }
}

proof fn lemma_inside_apart(p: Rect, a: Rect, q: Rect, b: Rect)
    requires
        p.inside(a),
        q.inside(b),
        a.apart(b),
    ensures
        p.apart(q),
{
    assert forall|x: int, y: int| !(p.holds(x, y) && #[trigger] q.holds(x, y)) by {
        assert(!(a.holds(x, y) && b.holds(x, y)));
    }
}

/// The two halves of a list without duplicates have none and share none.
pub proof fn lemma_parts_distinct(s: Seq<usize>, t: Seq<usize>)
    requires
        (s + t).no_duplicates(),
    ensures
        s.no_duplicates(),
        t.no_duplicates(),
        forall|x: usize| !(s.contains(x) && #[trigger] t.contains(x)),
        forall|x: usize| #[trigger] (s + t).contains(x) == (s.contains(x) || t.contains(x)),
{
    let u = s + t;
    assert forall|i: int, j: int| 0 <= i < s.len() && 0 <= j < s.len() && i != j implies s[i]
        != s[j] by {
        assert(u[i] == s[i] && u[j] == s[j]);
    }
    assert forall|i: int, j: int| 0 <= i < t.len() && 0 <= j < t.len() && i != j implies t[i]
        != t[j] by {
        assert(u[s.len() + i] == t[i] && u[s.len() + j] == t[j]);
    }
    assert forall|x: usize| !(s.contains(x) && #[trigger] t.contains(x)) by {
        if s.contains(x) && t.contains(x) {
            let i = s.index_of(x);
            let j = t.index_of(x);
            assert(u[i] == x && u[s.len() + j] == x);
        }
    }
    assert forall|x: usize| #[trigger] u.contains(x) == (s.contains(x) || t.contains(x)) by {
        if s.contains(x) {
            assert(u[s.index_of(x)] == x);
        }
        if t.contains(x) {
            assert(u[s.len() + t.index_of(x)] == x);
        }
    }
}

// ─── Hit testing ───────────────────────────────────────────

/// The first pane, in tree order, whose rectangle holds the cell.
pub open spec fn pane_at(node: LayoutNode, x: u16, y: u16, area: Rect) -> Option<usize>
    decreases node,
{
    match node {
        LayoutNode::Leaf { id } => if area.holds(x as int, y as int) {
            Some(id)
        } else {
            None
        },
        LayoutNode::Split { direction, ratio, first, second } => {
            let (a, b) = halves(area, direction, ratio);
            match pane_at(*first, x, y, a) {
                Some(id) => Some(id),
                None => pane_at(*second, x, y, b),
            }
        },
    }
}

fn find_at_node(node: &LayoutNode, x: u16, y: u16, area: &Rect) -> (r: Option<usize>)
    requires
        area.fits(),
        ratios_wf(*node),
    ensures
        r == pane_at(*node, x, y, *area),
    decreases node,
{
    match node {
        LayoutNode::Leaf { id } => {
            if x >= area.x && x < area.x + area.w && y >= area.y && y < area.y + area.h {
                Some(*id)
            } else {
                None
            }
        },
        LayoutNode::Split { direction, ratio, first, second } => {
            let (a, b) = split_area(area, *direction, *ratio);
            match find_at_node(first, x, y, &a) {
                Some(id) => Some(id),
                None => find_at_node(second, x, y, &b),
            }
        },
    }
}

/// A cell inside the rectangle of a pane belongs to that pane, and a pane
/// found at a cell holds that cell.
pub proof fn pane_at_agrees(node: LayoutNode, x: u16, y: u16, area: Rect, id: usize)
    requires
        area.fits(),
        ids(node).no_duplicates(),
    ensures
        pane_at(node, x, y, area) == Some(id) <==> (rect_map(node, area).contains_key(id)
            && rect_map(node, area)[id].holds(x as int, y as int)),
    decreases node,
{
    match node {
        LayoutNode::Leaf { .. } => {},
        LayoutNode::Split { direction, ratio, first, second } => {
            let (a, b) = halves(area, direction, ratio);
            let s = ids(*first);
            let t = ids(*second);
            halves_are_apart(area, direction, ratio);
            lemma_parts_distinct(s, t);
            rects_inside(*first, a);
            rects_inside(*second, b);
            assert(rect_map(*first, a).dom() =~= s.to_set());
            assert(rect_map(*second, b).dom() =~= t.to_set());
            pane_at_agrees(*first, x, y, a, id);
            pane_at_agrees(*second, x, y, b, id);
            assert(!(a.holds(x as int, y as int) && b.holds(x as int, y as int)));
            match pane_at(*first, x, y, a) {
                Some(other) => {
                    pane_at_agrees(*first, x, y, a, other);
                    assert(rect_map(*first, a).contains_key(other));
                    if rect_map(*second, b).contains_key(id) {
                        assert(rect_map(*second, b)[id].inside(b));
                    }
                },
                None => {},
            }
            if s.contains(id) {
                assert(!t.contains(id));
            }
        },
    }
}

// ─── Separators ────────────────────────────────────────────

/// The last coordinate of `len` cells from `start` on. No cells at the origin
/// have none: there the largest coordinate stands for it, which cuts nothing
/// off.
pub open spec fn last_of(start: int, len: int) -> int {
    if start + len == 0 {
        0xffff
    } else {
        start + len - 1
    }
}

/// The separator line of one split, lengthened by one cell at each end to meet
/// the border, within `outer`.
pub open spec fn sep_line(area: Rect, outer: Rect, dir: Direction, a: Rect) -> SepLine {
    match dir {
        Direction::Horizontal => {
            let y0 = max(minus(area.y as int, 1), outer.y as int);
            let y1 = min(area.y + area.h, last_of(outer.y as int, outer.h as int));
            SepLine {
                horizontal: false,
                x: (a.x + a.w) as u16,
                y: y0 as u16,
                length: (minus(y1, y0) + 1) as u16,
            }
        },
        Direction::Vertical => {
            let x0 = max(minus(area.x as int, 1), outer.x as int);
            let x1 = min(area.x + area.w, last_of(outer.x as int, outer.w as int));
            SepLine {
                horizontal: true,
                x: x0 as u16,
                y: (a.y + a.h) as u16,
                length: (minus(x1, x0) + 1) as u16,
            }
        },
    }
}

/// The separator lines of all splits, each before those of its sides.
pub open spec fn seps(node: LayoutNode, area: Rect, outer: Rect) -> Seq<SepLine>
    decreases node,
{
    match node {
        LayoutNode::Leaf { .. } => seq![],
        LayoutNode::Split { direction, ratio, first, second } => {
            let (a, b) = halves(area, direction, ratio);
            seq![sep_line(area, outer, direction, a)] + seps(*first, a, outer) + seps(
                *second,
                b,
                outer,
            )
        },
    }
}

/// There is one separator line for each split, one fewer than there are panes.
pub proof fn one_separator_less(node: LayoutNode, area: Rect, outer: Rect)
    ensures
        seps(node, area, outer).len() == ids(node).len() - 1,
    decreases node,
{
    match node {
        LayoutNode::Leaf { .. } => {},
        LayoutNode::Split { direction, ratio, first, second } => {
            let (a, b) = halves(area, direction, ratio);
            one_separator_less(*first, a, outer);
            one_separator_less(*second, b, outer);
        },
    }
}

/// The cells of a separator line have coordinates that fit.
pub open spec fn line_fits(l: SepLine) -> bool {
    if l.horizontal {
        l.x + l.length <= 0x1_0000
    } else {
        l.y + l.length <= 0x1_0000
    }
}

/// A line across `area` within `outer` has a length that fits: only where
/// nothing cuts it off it may not reach the largest coordinate.
pub open spec fn lines_fit(area: Rect, outer: Rect) -> bool {
    &&& outer.x + outer.w > 0 || area.x + area.w < 0xffff
    &&& outer.y + outer.h > 0 || area.y + area.h < 0xffff
}

/// Separator lines stay within the coordinates of the terminal.
pub proof fn separators_fit(node: LayoutNode, area: Rect, outer: Rect)
    requires
        area.fits(),
        outer.fits(),
        lines_fit(area, outer),
    ensures
        forall|i: int|
            0 <= i < seps(node, area, outer).len() ==> line_fits(
                #[trigger] seps(node, area, outer)[i],
            ),
    decreases node,
{
    match node {
        LayoutNode::Leaf { .. } => {},
        LayoutNode::Split { direction, ratio, first, second } => {
            let (a, b) = halves(area, direction, ratio);
            halves_are_apart(area, direction, ratio);
            separators_fit(*first, a, outer);
            separators_fit(*second, b, outer);
            let l = sep_line(area, outer, direction, a);
            let s1 = seps(*first, a, outer);
            let s2 = seps(*second, b, outer);
            let all = seps(node, area, outer);
            assert(all == seq![l] + s1 + s2);
            assert(line_fits(l));
            assert forall|i: int| 0 <= i < all.len() implies line_fits(#[trigger] all[i]) by {
                if i == 0 {
                    assert(all[0] == l);
                } else if i <= s1.len() {
                    assert(all[i] == s1[i - 1]);
                } else {
                    assert(all[i] == s2[i - 1 - s1.len()]);
                }
            }
        },
    }
}

fn larger(a: u16, b: u16) -> (r: u16)
    ensures
        r == max(a as int, b as int),
{
    if a >= b {
        a
    } else {
        b
    }
}

fn smaller(a: u16, b: u16) -> (r: u16)
    ensures
        r == min(a as int, b as int),
{
    if a <= b {
        a
    } else {
        b
    }
}

fn last_cell(start: u16, len: u16) -> (r: u16)
    requires
        start + len <= 0xffff,
    ensures
        r == last_of(start as int, len as int),
{
    if start + len == 0 {
        0xffff
    } else {
        start + len - 1
    }
}

/// The separator line of one split.
fn separator_line(area: &Rect, outer: &Rect, dir: Direction, a: &Rect) -> (r: SepLine)
    requires
        area.fits(),
        outer.fits(),
        a.fits(),
        lines_fit(*area, *outer),
    ensures
        r == sep_line(*area, *outer, dir, *a),
{
    match dir {
        Direction::Horizontal => {
            let y0: u16 = larger(area.y.saturating_sub(1), outer.y);
            let y1: u16 = smaller(area.y + area.h, last_cell(outer.y, outer.h));
            SepLine {
                horizontal: false,
                x: a.x + a.w,
                y: y0,
                length: y1.saturating_sub(y0) + 1,
            }
        },
        Direction::Vertical => {
            let x0: u16 = larger(area.x.saturating_sub(1), outer.x);
            let x1: u16 = smaller(area.x + area.w, last_cell(outer.x, outer.w));
            SepLine {
                horizontal: true,
                x: x0,
                y: a.y + a.h,
                length: x1.saturating_sub(x0) + 1,
            }
        },
    }
}

fn collect_seps(node: &LayoutNode, area: &Rect, outer: &Rect, out: &mut Vec<SepLine>)
    requires
        area.fits(),
        outer.fits(),
        lines_fit(*area, *outer),
        ratios_wf(*node),
    ensures
        final(out)@ == old(out)@ + seps(*node, *area, *outer),
    decreases node,
{
    match node {
        LayoutNode::Leaf { .. } => {
            assert(out@ =~= old(out)@ + seps(*node, *area, *outer));
        },
        LayoutNode::Split { direction, ratio, first, second } => {
            let (a, b) = split_area(area, *direction, *ratio);
            proof {
                halves_are_apart(*area, *direction, *ratio);
            }
            let line = separator_line(area, outer, *direction, &a);
            out.push(line);
            collect_seps(first, &a, outer, out);
            collect_seps(second, &b, outer, out);
            proof {
                let s = seps(**first, a, *outer);
                let t = seps(**second, b, *outer);
                assert(seps(*node, *area, *outer) == seq![line] + s + t);
                assert(old(out)@.push(line) + s + t =~= old(out)@ + (seq![line] + s + t));
            }
        },
    }
}

/// The cell lies on the separator of a split of `area`, or next to it.
pub open spec fn on_separator(area: Rect, dir: Direction, a: Rect, x: u16, y: u16) -> bool {
    match dir {
        Direction::Horizontal => {
            let sep = a.x + a.w;
            minus(sep, 1) <= x <= sep + 1 && area.y <= y < area.y + area.h
        },
        Direction::Vertical => {
            let sep = a.y + a.h;
            minus(sep, 1) <= y <= sep + 1 && area.x <= x < area.x + area.w
        },
    }
}

/// The outermost split whose separator is at the cell, the first side searched
/// before the second: the path to it, its direction and its area.
pub open spec fn sep_at(node: LayoutNode, x: u16, y: u16, area: Rect, path: Seq<bool>) -> Option<
    (Seq<bool>, Direction, Rect),
>
    decreases node,
{
    match node {
        LayoutNode::Leaf { .. } => None,
        LayoutNode::Split { direction, ratio, first, second } => {
            let (a, b) = halves(area, direction, ratio);
            if on_separator(area, direction, a, x, y) {
                Some((path, direction, area))
            } else {
                match sep_at(*first, x, y, a, path.push(false)) {
                    Some(hit) => Some(hit),
                    None => sep_at(*second, x, y, b, path.push(true)),
                }
            }
        },
    }
}

impl SepHit {
    pub open spec fn parts(self) -> (Seq<bool>, Direction, Rect) {
        (self.path@, self.direction, self.area)
    }
}

fn copy_path(path: &Vec<bool>) -> (r: Vec<bool>)
    ensures
        r@ == path@,
{
    let mut out: Vec<bool> = Vec::new();
    let mut i: usize = 0;
    while i < path.len()
        invariant
            i <= path@.len(),
            out@ == path@.take(i as int),
        decreases path@.len() - i,
    {
        out.push(path[i]);
        i += 1;
        assert(path@.take(i as int) =~= path@.take(i - 1).push(path@[i - 1]));
    }
    assert(path@.take(path@.len() as int) =~= path@);
    out
}

fn find_sep_at(node: &LayoutNode, x: u16, y: u16, area: &Rect, path: &mut Vec<bool>) -> (r: Option<
    SepHit,
>)
    requires
        area.fits(),
        ratios_wf(*node),
    ensures
        match r {
            Some(hit) => sep_at(*node, x, y, *area, old(path)@) == Some(hit.parts()),
            None => sep_at(*node, x, y, *area, old(path)@) is None && final(path)@ == old(path)@,
        },
    decreases node,
{
    match node {
        LayoutNode::Leaf { .. } => None,
        LayoutNode::Split { direction, ratio, first, second } => {
            let (a, b) = split_area(area, *direction, *ratio);
            let on_sep = match direction {
                Direction::Horizontal => {
                    let sep: u16 = a.x + a.w;
                    x >= sep.saturating_sub(1) && x <= sep.saturating_add(1) && y >= area.y && y
                        < area.y + area.h
                },
                Direction::Vertical => {
                    let sep: u16 = a.y + a.h;
                    y >= sep.saturating_sub(1) && y <= sep.saturating_add(1) && x >= area.x && x
                        < area.x + area.w
                },
            };
            if on_sep {
                return Some(SepHit { path: copy_path(path), direction: *direction, area: *area });
            }
            let ghost before = path@;
            path.push(false);
            let hit = find_sep_at(first, x, y, &a, path);
            if hit.is_some() {
                return hit;
            }
            let _ = path.pop();
            assert(path@ =~= before);
            path.push(true);
            let hit = find_sep_at(second, x, y, &b, path);
            if hit.is_some() {
                return hit;
            }
            let _ = path.pop();
            assert(path@ =~= before);
            None
        },
    }
}

// ─── Ratios by path ────────────────────────────────────────

/// The tree with `r`, kept between one tenth and nine tenths, as the ratio of
/// the split at `path`; unchanged where the path leads to no split.
pub open spec fn with_ratio(node: LayoutNode, path: Seq<bool>, r: Ratio) -> LayoutNode
    decreases node,
{
    match node {
        LayoutNode::Leaf { .. } => node,
        LayoutNode::Split { direction, ratio, first, second } => if path.len() == 0 {
            LayoutNode::Split { direction, ratio: ratio::clamp(r), first, second }
        } else if !path[0] {
            LayoutNode::Split {
                direction,
                ratio,
                first: Box::new(with_ratio(*first, path.skip(1), r)),
                second,
            }
        } else {
            LayoutNode::Split {
                direction,
                ratio,
                first,
                second: Box::new(with_ratio(*second, path.skip(1), r)),
            }
        },
    }
}

fn set_ratio_at(node: &mut LayoutNode, path: &[bool], at: usize, r: Ratio)
    requires
        at <= path@.len(),
        r.wf(),
        ratios_wf(*old(node)),
    ensures
        *final(node) == with_ratio(*old(node), path@.skip(at as int), r),
        ratios_wf(*final(node)),
        ids(*final(node)) == ids(*old(node)),
    decreases *old(node),
{
    match node {
        LayoutNode::Leaf { .. } => {},
        LayoutNode::Split { ratio, first, second, .. } => {
            if at == path.len() {
                *ratio = r.clamped();
            } else {
                assert(path@.skip(at as int).skip(1) =~= path@.skip(at + 1));
                if !path[at] {
                    set_ratio_at(first, path, at + 1, r);
                } else {
                    set_ratio_at(second, path, at + 1, r);
                }
            }
        },
    }
}

// ─── Splitting ─────────────────────────────────────────────

/// The tree in which every leaf `target` has become a split of itself and a
/// new leaf.
pub open spec fn with_split(
    node: LayoutNode,
    target: usize,
    new_id: usize,
    dir: Direction,
) -> LayoutNode
    decreases node,
{
    match node {
        LayoutNode::Leaf { id } => if id == target {
            LayoutNode::Split {
                direction: dir,
                ratio: ratio::half(),
                first: Box::new(LayoutNode::Leaf { id }),
                second: Box::new(LayoutNode::Leaf { id: new_id }),
            }
        } else {
            node
        },
        LayoutNode::Split { direction, ratio, first, second } => LayoutNode::Split {
            direction,
            ratio,
            first: Box::new(with_split(*first, target, new_id, dir)),
            second: Box::new(with_split(*second, target, new_id, dir)),
        },
    }
}

/// A list with `new_id` put in after every `target`.
pub open spec fn with_after(s: Seq<usize>, target: usize, new_id: usize) -> Seq<usize>
    decreases s.len(),
{
    if s.len() == 0 {
        s
    } else {
        let rest = with_after(s.skip(1), target, new_id);
        if s[0] == target {
            seq![target, new_id] + rest
        } else {
            seq![s[0]] + rest
        }
    }
}

proof fn lemma_with_after_add(s: Seq<usize>, t: Seq<usize>, target: usize, new_id: usize)
    ensures
        with_after(s + t, target, new_id) == with_after(s, target, new_id) + with_after(
            t,
            target,
            new_id,
        ),
    decreases s.len(),
{
    if s.len() == 0 {
        assert(s + t =~= t);
        assert(with_after(s, target, new_id) + with_after(t, target, new_id) =~= with_after(
            t,
            target,
            new_id,
        ));
    } else {
        assert((s + t).skip(1) =~= s.skip(1) + t);
        lemma_with_after_add(s.skip(1), t, target, new_id);
        assert(with_after(s + t, target, new_id) =~= with_after(s, target, new_id) + with_after(
            t,
            target,
            new_id,
        ));
    }
}

/// Splitting puts the new pane right after the pane that was split and leaves
/// the order of the others.
pub proof fn split_inserts_after(node: LayoutNode, target: usize, new_id: usize, dir: Direction)
    ensures
        ids(with_split(node, target, new_id, dir)) == with_after(ids(node), target, new_id),
    decreases node,
{
    match node {
        LayoutNode::Leaf { id } => {
            reveal_with_fuel(ids, 2);
            assert(seq![id].skip(1) =~= seq![]);
            assert(with_after(seq![], target, new_id) == Seq::<usize>::empty());
            assert(ids(with_split(node, target, new_id, dir)) =~= with_after(
                ids(node),
                target,
                new_id,
            ));
        },
        LayoutNode::Split { first, second, .. } => {
            split_inserts_after(*first, target, new_id, dir);
            split_inserts_after(*second, target, new_id, dir);
            lemma_with_after_add(ids(*first), ids(*second), target, new_id);
        },
    }
}

/// Where `target` occurs once, one element is added; where it does not occur,
/// none.
pub proof fn lemma_with_after_distinct(s: Seq<usize>, target: usize, new_id: usize)
    requires
        s.no_duplicates(),
        !s.contains(new_id),
    ensures
        ({
            let t = with_after(s, target, new_id);
            &&& t.no_duplicates()
            &&& t.len() == s.len() + (if s.contains(target) {
                1int
            } else {
                0
            })
            &&& forall|x: usize| #[trigger]
                t.contains(x) <==> s.contains(x) || (x == new_id && s.contains(target))
        }),
    decreases s.len(),
{
    let t = with_after(s, target, new_id);
    if s.len() > 0 {
        let r = s.skip(1);
        assert(s =~= seq![s[0]] + r);
        lemma_parts_distinct(seq![s[0]], r);
        assert(seq![s[0]].contains(s[0])) by {
            assert(seq![s[0]][0] == s[0]);
        }
        assert(!r.contains(new_id)) by {
            if r.contains(new_id) {
                let i = r.index_of(new_id);
                assert(s[i + 1] == new_id);
            }
        }
        lemma_with_after_distinct(r, target, new_id);
        let u = with_after(r, target, new_id);
        let head = if s[0] == target {
            seq![target, new_id]
        } else {
            seq![s[0]]
        };
        assert(t == head + u);
        assert(s[0] != new_id) by {
            if s[0] == new_id {
                assert(s.contains(new_id));
            }
        }
        assert forall|x: usize| #[trigger] head.contains(x) == (x == s[0] || (x == new_id && s[0]
            == target)) by {
            assert(head[0] == s[0]);
            if s[0] == target {
                assert(head[1] == new_id);
            }
        }
        assert forall|x: usize| #[trigger] t.contains(x) == (head.contains(x) || u.contains(x)) by {
            if head.contains(x) {
                assert(t[head.index_of(x)] == x);
            }
            if u.contains(x) {
                assert(t[head.len() + u.index_of(x)] == x);
            }
            if t.contains(x) {
                let i = t.index_of(x);
                if i < head.len() {
                    assert(head[i] == x);
                } else {
                    assert(u[i - head.len()] == x);
                }
            }
        }
        assert forall|x: usize| #[trigger] s.contains(x) == (x == s[0] || r.contains(x)) by {
            assert(s.contains(x) == (seq![s[0]] + r).contains(x));
        }
        assert forall|i: int, j: int| 0 <= i < t.len() && 0 <= j < t.len() && i != j implies t[i]
            != t[j] by {
            if i < head.len() && j < head.len() {
            } else if i >= head.len() && j >= head.len() {
                assert(u[i - head.len()] == t[i]);
                assert(u[j - head.len()] == t[j]);
            } else if i < head.len() {
                assert(head.contains(t[i])) by {
                    assert(head[i] == t[i]);
                }
                assert(u.contains(t[j])) by {
                    assert(u[j - head.len()] == t[j]);
                }
            } else {
                assert(head.contains(t[j])) by {
                    assert(head[j] == t[j]);
                }
                assert(u.contains(t[i])) by {
                    assert(u[i - head.len()] == t[i]);
                }
            }
        }
    } else {
        assert(t =~= s);
    }
}

fn split_node(node: LayoutNode, target: usize, new_id: usize, dir: Direction) -> (r: LayoutNode)
    requires
        ratios_wf(node),
    ensures
        r == with_split(node, target, new_id, dir),
        ratios_wf(r),
    decreases node,
{
    proof {
        reveal_with_fuel(ratios_wf, 2);
    }
    match node {
        LayoutNode::Leaf { id } => {
            if id == target {
                LayoutNode::Split {
                    direction: dir,
                    ratio: ratio::half(),
                    first: Box::new(LayoutNode::Leaf { id }),
                    second: Box::new(LayoutNode::Leaf { id: new_id }),
                }
            } else {
                LayoutNode::Leaf { id }
            }
        },
        LayoutNode::Split { direction, ratio, first, second } => {
            let f = split_node(*first, target, new_id, dir);
            let s = split_node(*second, target, new_id, dir);
            LayoutNode::Split { direction, ratio, first: Box::new(f), second: Box::new(s) }
        },
    }
}

// ─── Equalizing ────────────────────────────────────────────

/// The tree in which every split gives its first side a share of the cells in
/// proportion to its panes.
pub open spec fn equalized(node: LayoutNode) -> LayoutNode
    decreases node,
{
    match node {
        LayoutNode::Leaf { .. } => node,
        LayoutNode::Split { direction, ratio, first, second } => LayoutNode::Split {
            direction,
            ratio: ratio::share(ids(*first).len(), ids(*first).len() + ids(*second).len()),
            first: Box::new(equalized(*first)),
            second: Box::new(equalized(*second)),
        },
    }
}

/// Equalizing keeps the panes and their order.
pub proof fn equalize_keeps_panes(node: LayoutNode)
    ensures
        ids(equalized(node)) == ids(node),
    decreases node,
{
    match node {
        LayoutNode::Leaf { .. } => {},
        LayoutNode::Split { first, second, .. } => {
            equalize_keeps_panes(*first);
            equalize_keeps_panes(*second);
        },
    }
}

/// Equalizing twice is the same as equalizing once.
pub proof fn equalize_is_idempotent(node: LayoutNode)
    ensures
        equalized(equalized(node)) == equalized(node),
    decreases node,
{
    match node {
        LayoutNode::Leaf { .. } => {},
        LayoutNode::Split { first, second, .. } => {
            equalize_keeps_panes(*first);
            equalize_keeps_panes(*second);
            equalize_is_idempotent(*first);
            equalize_is_idempotent(*second);
        },
    }
}

fn equalize_node(node: &mut LayoutNode)
    requires
        ids(*old(node)).len() <= usize::MAX,
    ensures
        *final(node) == equalized(*old(node)),
        ratios_wf(*final(node)),
    decreases *old(node),
{
    match node {
        LayoutNode::Leaf { .. } => {},
        LayoutNode::Split { ratio, first, second, .. } => {
            let left: usize = count_leaves(first);
            let total: usize = left + count_leaves(second);
            *ratio = Ratio::of(left as u64, total as u64);
            equalize_node(first);
            equalize_node(second);
        },
    }
}

// ─── Removing ──────────────────────────────────────────────

/// The tree without the first leaf `target`; its sibling takes the place of
/// their split. Nothing is left of a single leaf `target`.
pub open spec fn without(node: LayoutNode, target: usize) -> Option<LayoutNode>
    decreases node,
{
    match node {
        LayoutNode::Leaf { id } => if id == target {
            None
        } else {
            Some(node)
        },
        LayoutNode::Split { direction, ratio, first, second } => if ids(*first).contains(target) {
            match without(*first, target) {
                Some(f) => Some(
                    LayoutNode::Split { direction, ratio, first: Box::new(f), second },
                ),
                None => Some(*second),
            }
        } else if ids(*second).contains(target) {
            match without(*second, target) {
                Some(s) => Some(
                    LayoutNode::Split { direction, ratio, first, second: Box::new(s) },
                ),
                None => Some(*first),
            }
        } else {
            Some(node)
        },
    }
}

/// A list without the first occurrence of `target`.
pub open spec fn without_first(s: Seq<usize>, target: usize) -> Seq<usize> {
    if s.contains(target) {
        s.remove(s.index_of_first(target)->0)
    } else {
        s
    }
}

/// Removing a pane takes it out of the order and leaves the others as they
/// were.
pub proof fn remove_takes_one(node: LayoutNode, target: usize)
    ensures
        match without(node, target) {
            Some(t) => ids(t) == without_first(ids(node), target),
            None => ids(node) == seq![target],
        },
        ratios_wf(node) ==> (without(node, target) matches Some(t) ==> ratios_wf(t)),
        node is Split ==> without(node, target) is Some,
    decreases node,
{
    match node {
        LayoutNode::Leaf { id } => {
            assert(seq![id][0] == id);
            if id != target {
                assert(!seq![id].contains(target));
            }
        },
        LayoutNode::Split { direction, ratio, first, second } => {
            let s = ids(*first);
            let t = ids(*second);
            remove_takes_one(*first, target);
            remove_takes_one(*second, target);
            lemma_remove_in_sum(s, t, target);
            if s.contains(target) {
                match without(*first, target) {
                    Some(_) => {},
                    None => {
                        assert(s =~= seq![target]);
                        assert(s.index_of_first(target) == Some(0int)) by {
                            s.index_of_first_ensures(target);
                        }
                        assert(without_first(s, target) =~= seq![]);
                        assert(without_first(s, target) + t =~= t);
                    },
                }
            } else if t.contains(target) {
                match without(*second, target) {
                    Some(_) => {},
                    None => {
                        assert(t.index_of_first(target) == Some(0int)) by {
                            t.index_of_first_ensures(target);
                        }
                        assert(without_first(t, target) =~= seq![]);
                        assert(s + without_first(t, target) =~= s);
                    },
                }
            }
        },
    }
}

proof fn lemma_remove_in_sum(s: Seq<usize>, t: Seq<usize>, target: usize)
    ensures
        s.contains(target) ==> without_first(s + t, target) == without_first(s, target) + t,
        !s.contains(target) && t.contains(target) ==> without_first(s + t, target) == s
            + without_first(t, target),
        !s.contains(target) && !t.contains(target) ==> without_first(s + t, target) == s + t,
{
    let u = s + t;
    s.index_of_first_ensures(target);
    t.index_of_first_ensures(target);
    u.index_of_first_ensures(target);
    if s.contains(target) {
        let i = s.index_of_first(target)->0;
        assert(u[i] == target);
        assert(u.contains(target));
        let k = u.index_of_first(target)->0;
        assert(k == i) by {
            if k < i {
                assert(s[k] == u[k]);
            }
        }
        assert(u.remove(k) =~= s.remove(i) + t);
    } else if t.contains(target) {
        let i = t.index_of_first(target)->0;
        assert(u[s.len() + i] == target);
        assert(u.contains(target));
        let k = u.index_of_first(target)->0;
        assert(k == s.len() + i) by {
            if k < s.len() {
                assert(s[k] == target);
            } else if k < s.len() + i {
                assert(t[k - s.len()] == u[k]);
            }
        }
        assert(u.remove(k) =~= s + t.remove(i));
    } else {
        assert(!u.contains(target)) by {
            if u.contains(target) {
                let k = u.index_of(target);
                if k < s.len() {
                    assert(s[k] == target);
                } else {
                    assert(t[k - s.len()] == target);
                }
            }
        }
    }
}

fn contains(node: &LayoutNode, target: usize) -> (r: bool)
    ensures
        r == ids(*node).contains(target),
    decreases node,
{
    match node {
        LayoutNode::Leaf { id } => {
            assert(ids(*node)[0] == *id);
            *id == target
        },
        LayoutNode::Split { first, second, .. } => {
            let r = contains(first, target) || contains(second, target);
            proof {
                let s = ids(**first);
                let t = ids(**second);
                if s.contains(target) {
                    assert((s + t)[s.index_of(target)] == target);
                }
                if t.contains(target) {
                    assert((s + t)[s.len() + t.index_of(target)] == target);
                }
                if (s + t).contains(target) {
                    let k = (s + t).index_of(target);
                    if k < s.len() {
                        assert(s[k] == target);
                    } else {
                        assert(t[k - s.len()] == target);
                    }
                }
            }
            r
        },
    }
}

fn remove_node(node: LayoutNode, target: usize) -> (r: Option<LayoutNode>)
    ensures
        r == without(node, target),
    decreases node,
{
    match node {
        LayoutNode::Leaf { id } => {
            if id == target {
                None
            } else {
                Some(LayoutNode::Leaf { id })
            }
        },
        LayoutNode::Split { direction, ratio, first, second } => {
            if contains(&first, target) {
                match remove_node(*first, target) {
                    Some(f) => Some(
                        LayoutNode::Split { direction, ratio, first: Box::new(f), second },
                    ),
                    None => Some(*second),
                }
            } else if contains(&second, target) {
                match remove_node(*second, target) {
                    Some(s) => Some(
                        LayoutNode::Split { direction, ratio, first, second: Box::new(s) },
                    ),
                    None => Some(*first),
                }
            } else {
                Some(LayoutNode::Split { direction, ratio, first, second })
            }
        },
    }
}

// ─── Swapping ──────────────────────────────────────────────

pub open spec fn swap_id(id: usize, a: usize, b: usize) -> usize {
    if id == a {
        b
    } else if id == b {
        a
    } else {
        id
    }
}

/// The tree with the ids `a` and `b` exchanged.
pub open spec fn swapped(node: LayoutNode, a: usize, b: usize) -> LayoutNode
    decreases node,
{
    match node {
        LayoutNode::Leaf { id } => LayoutNode::Leaf { id: swap_id(id, a, b) },
        LayoutNode::Split { direction, ratio, first, second } => LayoutNode::Split {
            direction,
            ratio,
            first: Box::new(swapped(*first, a, b)),
            second: Box::new(swapped(*second, a, b)),
        },
    }
}

/// Swapping the same two panes again restores the tree.
pub proof fn swap_undoes_itself(node: LayoutNode, a: usize, b: usize)
    ensures
        swapped(swapped(node, a, b), a, b) == node,
    decreases node,
{
    match node {
        LayoutNode::Leaf { .. } => {},
        LayoutNode::Split { first, second, .. } => {
            swap_undoes_itself(*first, a, b);
            swap_undoes_itself(*second, a, b);
        },
    }
}

fn swap_leaf_ids(node: &mut LayoutNode, a: usize, b: usize)
    ensures
        *final(node) == swapped(*old(node), a, b),
        ratios_wf(*old(node)) ==> ratios_wf(*final(node)),
        ids(*final(node)).len() == ids(*old(node)).len(),
    decreases *old(node),
{
    match node {
        LayoutNode::Leaf { id } => {
            if *id == a {
                *id = b;
            } else if *id == b {
                *id = a;
            }
        },
        LayoutNode::Split { first, second, .. } => {
            swap_leaf_ids(first, a, b);
            swap_leaf_ids(second, a, b);
        },
    }
}

// ─── Keyboard resize ───────────────────────────────────────

/// The splits above the first leaf `target`, innermost first: the path to
/// each, its direction, and whether the pane is on its second side; `None`
/// where there is no such leaf.
pub open spec fn crumbs(node: LayoutNode, target: usize, path: Seq<bool>) -> Option<
    Seq<(Seq<bool>, Direction, bool)>,
>
    decreases node,
{
    match node {
        LayoutNode::Leaf { id } => if id == target {
            Some(seq![])
        } else {
            None
        },
        LayoutNode::Split { direction, first, second, .. } => match crumbs(
            *first,
            target,
            path.push(false),
        ) {
            Some(c) => Some(c.push((path, direction, false))),
            None => match crumbs(*second, target, path.push(true)) {
                Some(c) => Some(c.push((path, direction, true))),
                None => None,
            },
        },
    }
}

/// One step of the way from the root to a pane.
pub struct Crumb {
    pub path: Vec<bool>,
    pub direction: Direction,
    pub in_second: bool,
}

pub open spec fn crumb_parts(s: Seq<Crumb>) -> Seq<(Seq<bool>, Direction, bool)> {
    s.map_values(|c: Crumb| (c.path@, c.direction, c.in_second))
}

fn collect_path_to_pane(
    node: &LayoutNode,
    target: usize,
    current: &mut Vec<bool>,
    out: &mut Vec<Crumb>,
) -> (r: bool)
    ensures
        final(current)@ == old(current)@,
        match crumbs(*node, target, old(current)@) {
            Some(c) => r && crumb_parts(final(out)@) == crumb_parts(old(out)@) + c,
            None => !r && crumb_parts(final(out)@) == crumb_parts(old(out)@),
        },
    decreases node,
{
    match node {
        LayoutNode::Leaf { id } => {
            assert(crumb_parts(out@) + seq![] =~= crumb_parts(out@));
            *id == target
        },
        LayoutNode::Split { direction, first, second, .. } => {
            let here = copy_path(current);
            let ghost before = current@;
            let ghost seen = crumb_parts(out@);
            current.push(false);
            let hit = collect_path_to_pane(first, target, current, out);
            let _ = current.pop();
            assert(current@ =~= before);
            if hit {
                let c = Crumb { path: here, direction: *direction, in_second: false };
                let ghost was = out@;
                out.push(c);
                proof {
                    let inner = crumbs(**first, target, before.push(false))->0;
                    assert(crumb_parts(out@) =~= crumb_parts(was).push(
                        (before, *direction, false),
                    ));
                    assert((seen + inner).push((before, *direction, false)) =~= seen + inner.push(
                        (before, *direction, false),
                    ));
                }
                return true;
            }
            current.push(true);
            let hit = collect_path_to_pane(second, target, current, out);
            let _ = current.pop();
            assert(current@ =~= before);
            if hit {
                let c = Crumb { path: here, direction: *direction, in_second: true };
                let ghost was = out@;
                out.push(c);
                proof {
                    let inner = crumbs(**second, target, before.push(true))->0;
                    assert(crumb_parts(out@) =~= crumb_parts(was).push((before, *direction, true)));
                    assert((seen + inner).push((before, *direction, true)) =~= seen + inner.push(
                        (before, *direction, true),
                    ));
                }
                return true;
            }
            false
        },
    }
}

/// The tree with the ratio of the split at `path` moved by `d`.
pub open spec fn with_nudge(node: LayoutNode, path: Seq<bool>, d: Ratio, up: bool) -> LayoutNode
    decreases node,
{
    match node {
        LayoutNode::Leaf { .. } => node,
        LayoutNode::Split { direction, ratio, first, second } => if path.len() == 0 {
            LayoutNode::Split { direction, ratio: ratio::nudged(ratio, d, up), first, second }
        } else if !path[0] {
            LayoutNode::Split {
                direction,
                ratio,
                first: Box::new(with_nudge(*first, path.skip(1), d, up)),
                second,
            }
        } else {
            LayoutNode::Split {
                direction,
                ratio,
                first,
                second: Box::new(with_nudge(*second, path.skip(1), d, up)),
            }
        },
    }
}

fn adjust_ratio_at(node: &mut LayoutNode, path: &Vec<bool>, at: usize, d: &Ratio, up: bool)
    requires
        at <= path@.len(),
        d.wf(),
        ratios_wf(*old(node)),
    ensures
        *final(node) == with_nudge(*old(node), path@.skip(at as int), *d, up),
        ratios_wf(*final(node)),
        ids(*final(node)) == ids(*old(node)),
    decreases *old(node),
{
    match node {
        LayoutNode::Leaf { .. } => {},
        LayoutNode::Split { ratio, first, second, .. } => {
            if at == path.len() {
                *ratio = ratio.nudge(d, up);
            } else {
                assert(path@.skip(at as int).skip(1) =~= path@.skip(at + 1));
                if !path[at] {
                    adjust_ratio_at(first, path, at + 1, d, up);
                } else {
                    adjust_ratio_at(second, path, at + 1, d, up);
                }
            }
        },
    }
}

/// The path of the first of the splits from index `i` on that runs in
/// direction `dir` and has the pane on the wanted side.
pub open spec fn nearest_crumb(
    c: Seq<(Seq<bool>, Direction, bool)>,
    i: int,
    dir: Direction,
    in_second: bool,
) -> Option<Seq<bool>>
    decreases c.len() - i,
{
    if i < 0 || i >= c.len() {
        None
    } else if c[i].1 == dir && c[i].2 == in_second {
        Some(c[i].0)
    } else {
        nearest_crumb(c, i + 1, dir, in_second)
    }
}

/// The direction of the splits that a move in direction `nav` shifts.
pub open spec fn nav_axis(nav: NavDir) -> Direction {
    match nav {
        NavDir::Left | NavDir::Right => Direction::Horizontal,
        NavDir::Up | NavDir::Down => Direction::Vertical,
    }
}

/// A move to the left or up shifts the separator before the pane, one to the
/// right or down the separator after it.
pub open spec fn nav_back(nav: NavDir) -> bool {
    nav == NavDir::Left || nav == NavDir::Up
}

/// The path to the innermost split that a resize of `pane` in direction `nav`
/// moves.
pub open spec fn resize_path(node: LayoutNode, pane: usize, nav: NavDir) -> Option<Seq<bool>> {
    match crumbs(node, pane, seq![]) {
        Some(c) => nearest_crumb(c, 0, nav_axis(nav), nav_back(nav)),
        None => None,
    }
}

// ─── Navigation ────────────────────────────────────────────

pub open spec fn v_overlaps(a: Rect, b: Rect) -> bool {
    a.y < b.y + b.h && b.y < a.y + a.h
}

pub open spec fn h_overlaps(a: Rect, b: Rect) -> bool {
    a.x < b.x + b.w && b.x < a.x + a.w
}

/// `to` lies wholly on the side `nav` of `from` and shares a row or column
/// with it.
pub open spec fn adjacent(from: Rect, to: Rect, nav: NavDir) -> bool {
    match nav {
        NavDir::Left => to.x + to.w <= from.x && v_overlaps(from, to),
        NavDir::Right => to.x >= from.x + from.w && v_overlaps(from, to),
        NavDir::Up => to.y + to.h <= from.y && h_overlaps(from, to),
        NavDir::Down => to.y >= from.y + from.h && h_overlaps(from, to),
    }
}

/// The number of cells between two rectangles in direction `nav`.
pub open spec fn distance(from: Rect, to: Rect, nav: NavDir) -> int {
    match nav {
        NavDir::Left => minus(from.x as int, to.x + to.w),
        NavDir::Right => minus(to.x as int, from.x + from.w),
        NavDir::Up => minus(from.y as int, to.y + to.h),
        NavDir::Down => minus(to.y as int, from.y + from.h),
    }
}

fn is_adjacent(from: &Rect, to: &Rect, dir: NavDir) -> (r: bool)
    requires
        from.fits(),
        to.fits(),
    ensures
        r == adjacent(*from, *to, dir),
{
    match dir {
        NavDir::Left => to.x + to.w <= from.x && v_overlap(from, to),
        NavDir::Right => to.x >= from.x + from.w && v_overlap(from, to),
        NavDir::Up => to.y + to.h <= from.y && h_overlap(from, to),
        NavDir::Down => to.y >= from.y + from.h && h_overlap(from, to),
    }
}

fn v_overlap(a: &Rect, b: &Rect) -> (r: bool)
    requires
        a.fits(),
        b.fits(),
    ensures
        r == v_overlaps(*a, *b),
{
    a.y < b.y + b.h && b.y < a.y + a.h
}

fn h_overlap(a: &Rect, b: &Rect) -> (r: bool)
    requires
        a.fits(),
        b.fits(),
    ensures
        r == h_overlaps(*a, *b),
{
    a.x < b.x + b.w && b.x < a.x + a.w
}

fn nav_distance(from: &Rect, to: &Rect, dir: NavDir) -> (r: u16)
    requires
        from.fits(),
        to.fits(),
    ensures
        r == distance(*from, *to, dir),
{
    match dir {
        NavDir::Left => from.x.saturating_sub(to.x + to.w),
        NavDir::Right => to.x.saturating_sub(from.x + from.w),
        NavDir::Up => from.y.saturating_sub(to.y + to.h),
        NavDir::Down => to.y.saturating_sub(from.y + from.h),
    }
}

/// `to` is a pane that a move from `from` in direction `nav` may reach.
pub open spec fn reachable(rects: Map<usize, Rect>, from: usize, to: usize, nav: NavDir) -> bool {
    &&& rects.contains_key(from)
    &&& rects.contains_key(to)
    &&& to != from
    &&& adjacent(rects[from], rects[to], nav)
}

// ─── Cycling ───────────────────────────────────────────────

/// The position of `id`, or zero where it does not occur.
pub open spec fn position(s: Seq<usize>, id: usize) -> int {
    match s.index_of_first(id) {
        Some(i) => i,
        None => 0,
    }
}

/// The id after `current` in the cycle of all ids.
pub open spec fn cycle_next(s: Seq<usize>, current: usize) -> usize {
    s[(position(s, current) + 1) % (s.len() as int)]
}

/// The id before `current` in the cycle of all ids.
pub open spec fn cycle_prev(s: Seq<usize>, current: usize) -> usize {
    let p = position(s, current);
    if p == 0 {
        s[s.len() - 1]
    } else {
        s[p - 1]
    }
}

/// Going to the next pane and back leads to where it started.
pub proof fn cycle_there_and_back(s: Seq<usize>, current: usize)
    requires
        s.no_duplicates(),
        s.contains(current),
    ensures
        cycle_prev(s, cycle_next(s, current)) == current,
        cycle_next(s, cycle_prev(s, current)) == current,
        s.contains(cycle_next(s, current)),
        s.contains(cycle_prev(s, current)),
{
    let n = s.len() as int;
    s.index_of_first_ensures(current);
    let p = position(s, current);
    let q = (p + 1) % n;
    let next = s[q];
    s.index_of_first_ensures(next);
    assert(s.contains(next));
    assert(position(s, next) == q);
    let r = if p == 0 {
        n - 1
    } else {
        p - 1
    };
    let prev = s[r];
    s.index_of_first_ensures(prev);
    assert(s.contains(prev));
    assert(position(s, prev) == r);
    if p + 1 == n {
        assert(q == 0) by (nonlinear_arith)
            requires
                q == (p + 1) % n,
                p + 1 == n,
                n > 0,
        ;
    } else {
        assert(q == p + 1) by (nonlinear_arith)
            requires
                q == (p + 1) % n,
                0 <= p + 1 < n,
        ;
    }
    if r + 1 == n {
        assert((r + 1) % n == 0) by (nonlinear_arith)
            requires
                r + 1 == n,
                n > 0,
        ;
    } else {
        assert((r + 1) % n == r + 1) by (nonlinear_arith)
            requires
                0 <= r + 1 < n,
        ;
    }
}

/// The position of `id` in a list, or zero.
pub fn position_of(s: &Vec<usize>, id: usize) -> (r: usize)
    requires
        s@.len() > 0,
    ensures
        r == position(s@, id),
        r < s@.len(),
{
    let mut i: usize = 0;
    while i < s.len()
        invariant
            i <= s@.len(),
            s@.len() > 0,
            forall|j: int| 0 <= j < i ==> s@[j] != id,
        decreases s@.len() - i,
    {
        if s[i] == id {
            proof {
                s@.index_of_first_ensures(id);
                assert(s@.contains(id));
            }
            return i;
        }
        i += 1;
    }
    proof {
        s@.index_of_first_ensures(id);
    }
    0
}

// ─── Construction ──────────────────────────────────────────

/// A row of `cols` panes of equal width, numbered from `id` on.
pub open spec fn row_tree(cols: nat, id: nat) -> LayoutNode
    decreases cols,
{
    if cols <= 1 {
        LayoutNode::Leaf { id: id as usize }
    } else {
        LayoutNode::Split {
            direction: Direction::Horizontal,
            ratio: ratio::share(1, cols as nat),
            first: Box::new(LayoutNode::Leaf { id: id as usize }),
            second: Box::new(row_tree((cols - 1) as nat, id + 1)),
        }
    }
}

/// `rows` such rows of equal height, numbered row by row.
pub open spec fn grid_tree(rows: nat, cols: nat, id: nat) -> LayoutNode
    decreases rows,
{
    if rows <= 1 {
        row_tree(cols, id)
    } else {
        LayoutNode::Split {
            direction: Direction::Vertical,
            ratio: ratio::share(1, rows as nat),
            first: Box::new(row_tree(cols, id)),
            second: Box::new(grid_tree((rows - 1) as nat, cols, id + cols)),
        }
    }
}

/// `n` consecutive ids.
pub open spec fn run(id: nat, n: nat) -> Seq<usize> {
    Seq::new(n, |i: int| (id + i) as usize)
}

proof fn lemma_row_ids(cols: nat, id: nat)
    requires
        cols >= 1,
    ensures
        ids(row_tree(cols, id)) == run(id, cols),
    decreases cols,
{
    reveal_with_fuel(ids, 2);
    if cols > 1 {
        lemma_row_ids((cols - 1) as nat, id + 1);
        assert(seq![id as usize] + run(id + 1, (cols - 1) as nat) =~= run(id, cols));
    } else {
        assert(seq![id as usize] =~= run(id, 1));
    }
}

/// A grid numbers its panes from zero on, row by row.
pub proof fn grid_ids(rows: nat, cols: nat, id: nat)
    requires
        rows >= 1,
        cols >= 1,
    ensures
        ids(grid_tree(rows, cols, id)) == run(id, rows * cols),
    decreases rows,
{
    lemma_row_ids(cols, id);
    if rows > 1 {
        let rest = (rows - 1) as nat;
        grid_ids(rest, cols, id + cols);
        assert(rows * cols == cols + rest * cols) by (nonlinear_arith)
            requires
                rows == rest + 1,
        ;
        assert(run(id, cols) + run(id + cols, rest * cols) =~= run(id, rows * cols));
    } else {
        assert(rows * cols == cols) by (nonlinear_arith)
            requires
                rows == 1,
        ;
    }
}

fn build_row(cols: usize, next_id: &mut usize) -> (r: LayoutNode)
    requires
        1 <= cols,
        *old(next_id) + cols <= usize::MAX,
    ensures
        r == row_tree(cols as nat, *old(next_id) as nat),
        *final(next_id) == *old(next_id) + cols,
        ratios_wf(r),
    decreases cols,
{
    proof {
        reveal_with_fuel(ratios_wf, 2);
    }
    let id: usize = *next_id;
    *next_id = id + 1;
    if cols == 1 {
        return LayoutNode::Leaf { id };
    }
    let rest = build_row(cols - 1, next_id);
    LayoutNode::Split {
        direction: Direction::Horizontal,
        ratio: Ratio::of(1, cols as u64),
        first: Box::new(LayoutNode::Leaf { id }),
        second: Box::new(rest),
    }
}

fn build_grid(rows: usize, cols: usize, next_id: &mut usize) -> (r: LayoutNode)
    requires
        1 <= rows,
        1 <= cols,
        *old(next_id) + rows * cols <= usize::MAX,
    ensures
        r == grid_tree(rows as nat, cols as nat, *old(next_id) as nat),
        *final(next_id) == *old(next_id) + rows * cols,
        ratios_wf(r),
    decreases rows,
{
    proof {
        assert(rows * cols == cols + (rows - 1) * cols) by (nonlinear_arith);
        assert((rows - 1) * cols >= 0) by (nonlinear_arith)
            requires
                rows >= 1,
                cols >= 0,
        ;
    }
    if rows == 1 {
        assert(rows * cols == cols) by (nonlinear_arith)
            requires
                rows == 1,
        ;
        return build_row(cols, next_id);
    }
    let top = build_row(cols, next_id);
    let rest = build_grid(rows - 1, cols, next_id);
    LayoutNode::Split {
        direction: Direction::Vertical,
        ratio: Ratio::of(1, rows as u64),
        first: Box::new(top),
        second: Box::new(rest),
    }
}

/// The sum of a list of weights.
pub open spec fn total(ws: Seq<u32>) -> nat
    decreases ws.len(),
{
    if ws.len() == 0 {
        0
    } else {
        ws[0] as nat + total(ws.skip(1))
    }
}

/// A row whose panes have widths in proportion to `ws`.
pub open spec fn weighted_row(ws: Seq<u32>, id: nat) -> LayoutNode
    decreases ws.len(),
{
    if ws.len() <= 1 {
        LayoutNode::Leaf { id: id as usize }
    } else {
        LayoutNode::Split {
            direction: Direction::Horizontal,
            ratio: ratio::share(ws[0] as nat, total(ws)),
            first: Box::new(LayoutNode::Leaf { id: id as usize }),
            second: Box::new(weighted_row(ws.skip(1), id + 1)),
        }
    }
}

/// Rows of the given weights, numbered row by row from `id` on.
pub open spec fn weighted_rows(rows: Seq<Seq<u32>>, id: nat) -> Seq<LayoutNode>
    decreases rows.len(),
{
    if rows.len() == 0 {
        seq![]
    } else {
        seq![weighted_row(rows[0], id)] + weighted_rows(rows.skip(1), id + rows[0].len())
    }
}

/// Nodes stacked at equal height.
pub open spec fn column(nodes: Seq<LayoutNode>) -> LayoutNode
    decreases nodes.len(),
{
    if nodes.len() <= 1 {
        nodes[0]
    } else {
        LayoutNode::Split {
            direction: Direction::Vertical,
            ratio: ratio::share(1, nodes.len() as nat),
            first: Box::new(nodes[0]),
            second: Box::new(column(nodes.skip(1))),
        }
    }
}

/// How many weights the rows hold.
pub open spec fn pane_total(rows: Seq<Seq<u32>>) -> nat
    decreases rows.len(),
{
    if rows.len() == 0 {
        0
    } else {
        rows[0].len() + pane_total(rows.skip(1))
    }
}

pub open spec fn proper_weights(ws: Seq<u32>) -> bool {
    forall|i: int| 0 <= i < ws.len() ==> 1 <= #[trigger] ws[i] <= 9
}

proof fn lemma_total_bounds(ws: Seq<u32>)
    requires
        proper_weights(ws),
    ensures
        ws.len() <= total(ws) <= 9 * ws.len(),
    decreases ws.len(),
{
    if ws.len() > 0 {
        assert(1 <= ws[0] <= 9);
        assert forall|i: int| 0 <= i < ws.skip(1).len() implies 1 <= #[trigger] ws.skip(1)[i]
            <= 9 by {
            assert(ws.skip(1)[i] == ws[i + 1]);
        }
        lemma_total_bounds(ws.skip(1));
    }
}

fn build_weighted_row(ws: &Vec<u32>, at: usize, sum: u32, next_id: &mut usize) -> (r: LayoutNode)
    requires
        at < ws@.len() <= 100,
        proper_weights(ws@),
        sum == total(ws@.skip(at as int)),
        *old(next_id) + ws@.len() <= usize::MAX + at,
    ensures
        r == weighted_row(ws@.skip(at as int), *old(next_id) as nat),
        *final(next_id) == *old(next_id) + ws@.len() - at,
        ratios_wf(r),
    decreases ws@.len() - at,
{
    let ghost s = ws@.skip(at as int);
    proof {
        reveal_with_fuel(ratios_wf, 2);
        assert(proper_weights(s));
        lemma_total_bounds(s);
        assert(s.skip(1) =~= ws@.skip(at + 1));
        assert(proper_weights(s.skip(1)));
        lemma_total_bounds(s.skip(1));
        assert(s[0] == ws@[at as int]);
    }
    let id: usize = *next_id;
    *next_id = id + 1;
    if at + 1 == ws.len() {
        return LayoutNode::Leaf { id };
    }
    let w: u32 = ws[at];
    let rest = build_weighted_row(ws, at + 1, sum - w, next_id);
    LayoutNode::Split {
        direction: Direction::Horizontal,
        ratio: Ratio::of(w as u64, sum as u64),
        first: Box::new(LayoutNode::Leaf { id }),
        second: Box::new(rest),
    }
}

fn build_weighted_column(nodes: Vec<LayoutNode>) -> (r: LayoutNode)
    requires
        1 <= nodes@.len() <= 100,
        forall|i: int| 0 <= i < nodes@.len() ==> ratios_wf(#[trigger] nodes@[i]),
    ensures
        r == column(nodes@),
        ratios_wf(r),
{
    let mut rest = nodes;
    let n: usize = rest.len();
    let ghost all = rest@;
    let mut acc = match rest.pop() {
        Some(last) => last,
        None => LayoutNode::Leaf { id: 0 },
    };
    assert(all.skip(n - 1)[0] == all[n - 1]);
    assert(rest@ =~= all.take(n - 1));
    while rest.len() > 0
        invariant
            rest@.len() < n <= 100,
            n == all.len(),
            rest@ == all.take(rest@.len() as int),
            acc == column(all.skip(rest@.len() as int)),
            ratios_wf(acc),
            forall|i: int| 0 <= i < all.len() ==> ratios_wf(#[trigger] all[i]),
        decreases rest@.len(),
    {
        let ghost k = rest@.len() as int;
        match rest.pop() {
            Some(node) => {
                proof {
                    assert(node == all[k - 1]);
                    assert(all.skip(k - 1).skip(1) =~= all.skip(k));
                    assert(all.skip(k - 1)[0] == all[k - 1]);
                    assert(rest@ =~= all.take(k - 1));
                }
                acc = LayoutNode::Split {
                    direction: Direction::Vertical,
                    ratio: Ratio::of(1, (n - rest.len()) as u64),
                    first: Box::new(node),
                    second: Box::new(acc),
                };
            },
            None => {},
        }
    }
    assert(all.skip(0) =~= all);
    acc
}

// ─── Layout specs ──────────────────────────────────────────

/// One weight of a layout spec, or the message for a bad one.
pub open spec fn weight(s: Seq<char>) -> Result<u32, Seq<char>> {
    match text::parse_unsigned(text::trim(s), 0xffff_ffff) {
        None => Err("invalid weight: '"@ + s + "'"@),
        Some(w) => if 1 <= w <= 9 {
            Ok(w as u32)
        } else {
            Err("weight must be 1-9: '"@ + s + "'"@)
        },
    }
}

/// All weights of a row, or the message for the first bad one.
pub open spec fn weights(parts: Seq<Seq<char>>) -> Result<Seq<u32>, Seq<char>>
    decreases parts.len(),
{
    if parts.len() == 0 {
        Ok(seq![])
    } else {
        match weight(parts[0]) {
            Err(e) => Err(e),
            Ok(w) => prepend(seq![w], weights(parts.skip(1))),
        }
    }
}

pub open spec fn prepend<T>(a: Seq<T>, r: Result<Seq<T>, Seq<char>>) -> Result<Seq<T>, Seq<char>> {
    match r {
        Ok(s) => Ok(a + s),
        Err(e) => Err(e),
    }
}

/// The weights of all rows, or the message for the first bad one.
pub open spec fn weight_rows(rows: Seq<Seq<char>>) -> Result<Seq<Seq<u32>>, Seq<char>>
    decreases rows.len(),
{
    if rows.len() == 0 {
        Ok(seq![])
    } else {
        match weights(text::split_on(rows[0], ':')) {
            Err(e) => Err(e),
            Ok(ws) => prepend(seq![ws], weight_rows(rows.skip(1))),
        }
    }
}

/// What a preset name stands for; any other text stands for itself.
pub open spec fn preset(t: Seq<char>) -> Seq<char> {
    if t == "ide"@ {
        "7:3/1:1"@
    } else if t == "dev"@ {
        "7:3"@
    } else if t == "monitor"@ {
        "1:1:1"@
    } else if t == "stack"@ {
        "1/1/1"@
    } else if t == "main"@ {
        "6:4/1"@
    } else if t == "trio"@ {
        "1/1:1"@
    } else {
        t
    }
}

/// The layout that a spec describes: rows separated by `/`, columns by `:`,
/// weights from 1 to 9, at most 100 panes; or the message for a bad spec.
pub open spec fn spec_layout(spec: Seq<char>) -> Result<Layout, Seq<char>> {
    let t = text::trim(spec);
    if t == "quad"@ {
        Ok(Layout { root: grid_tree(2, 2, 0), next_id: 4 })
    } else {
        match weight_rows(text::split_on(preset(t), '/')) {
            Err(e) => Err(e),
            Ok(rows) => {
                let n = pane_total(rows);
                if n > 100 {
                    Err("too many panes: "@ + text::decimal(n))
                } else {
                    Ok(Layout { root: column(weighted_rows(rows, 0)), next_id: n as usize })
                }
            },
        }
    }
}

fn quoted(before: &str, s: &str) -> (r: String)
    ensures
        r@ == before@ + s@ + "'"@,
{
    let mut out = String::new();
    out.append(before);
    out.append(s);
    out.append("'");
    assert(out@ =~= before@ + s@ + "'"@);
    out
}

fn parse_weight(s: &str) -> (r: Result<u32, String>)
    ensures
        match r {
            Ok(w) => weight(s@) == Ok::<u32, Seq<char>>(w),
            Err(e) => weight(s@) == Err::<u32, Seq<char>>(e@),
        },
{
    match text::parse_unsigned_text(text::trim_text(s), 0xffff_ffff) {
        None => Err(quoted("invalid weight: '", s)),
        Some(w) => {
            if 1 <= w && w <= 9 {
                Ok(w as u32)
            } else {
                Err(quoted("weight must be 1-9: '", s))
            }
        },
    }
}

fn parse_row(row: &str) -> (r: Result<Vec<u32>, String>)
    ensures
        match r {
            Ok(ws) => weights(text::split_on(row@, ':')) == Ok::<Seq<u32>, Seq<char>>(ws@)
                && proper_weights(ws@) && ws@.len() == text::split_on(row@, ':').len() && ws@.len()
                >= 1,
            Err(e) => weights(text::split_on(row@, ':')) == Err::<Seq<u32>, Seq<char>>(e@),
        },
{
    let parts = text::split_text(row, ':');
    let ghost all = text::texts(parts@);
    let mut out: Vec<u32> = Vec::new();
    let mut i: usize = 0;
    proof {
        assert(all.skip(0) =~= all);
        lemma_prepend_nothing(weights(all));
    }
    while i < parts.len()
        invariant
            i <= parts@.len(),
            out@.len() == i,
            all == text::texts(parts@),
            all == text::split_on(row@, ':'),
            proper_weights(out@),
            weights(all) == prepend(out@, weights(all.skip(i as int))),
        decreases parts@.len() - i,
    {
        proof {
            assert(all.skip(i as int)[0] == parts@[i as int]@);
            assert(all.skip(i as int).skip(1) =~= all.skip(i + 1));
        }
        match parse_weight(parts[i].as_str()) {
            Err(e) => return Err(e),
            Ok(w) => {
                let ghost before = out@;
                out.push(w);
                proof {
                    lemma_prepend_push(before, w, weights(all.skip(i + 1)));
                }
            },
        }
        i += 1;
    }
    proof {
        assert(all.skip(i as int) =~= seq![]);
        assert(out@ + seq![] =~= out@);
    }
    Ok(out)
}

proof fn lemma_prepend_nothing<T>(r: Result<Seq<T>, Seq<char>>)
    ensures
        prepend(seq![], r) == r,
{
    match r {
        Ok(s) => {
            assert(seq![] + s =~= s);
        },
        Err(_) => {},
    }
}

proof fn lemma_prepend_push<T>(a: Seq<T>, x: T, r: Result<Seq<T>, Seq<char>>)
    ensures
        prepend(a, prepend(seq![x], r)) == prepend(a.push(x), r),
{
    match r {
        Ok(s) => {
            assert(a + (seq![x] + s) =~= a.push(x) + s);
        },
        Err(_) => {},
    }
}

/// The weights held by each row.
pub open spec fn row_views(rows: Seq<Vec<u32>>) -> Seq<Seq<u32>> {
    rows.map_values(|v: Vec<u32>| v@)
}

fn parse_rows(resolved: &str) -> (r: Result<Vec<Vec<u32>>, String>)
    ensures
        match r {
            Ok(rows) => weight_rows(text::split_on(resolved@, '/')) == Ok::<
                Seq<Seq<u32>>,
                Seq<char>,
            >(row_views(rows@)) && rows@.len() >= 1 && forall|i: int|
                0 <= i < rows@.len() ==> proper_weights((#[trigger] rows@[i])@) && rows@[i]@.len()
                    >= 1,
            Err(e) => weight_rows(text::split_on(resolved@, '/')) == Err::<
                Seq<Seq<u32>>,
                Seq<char>,
            >(e@),
        },
{
    let parts = text::split_text(resolved, '/');
    let ghost all = text::texts(parts@);
    let mut out: Vec<Vec<u32>> = Vec::new();
    let mut i: usize = 0;
    proof {
        assert(all.skip(0) =~= all);
        assert(row_views(out@) =~= seq![]);
        lemma_prepend_nothing(weight_rows(all));
    }
    while i < parts.len()
        invariant
            i <= parts@.len(),
            parts@.len() >= 1,
            out@.len() == i,
            all == text::texts(parts@),
            all == text::split_on(resolved@, '/'),
            forall|j: int|
                0 <= j < out@.len() ==> proper_weights((#[trigger] out@[j])@) && out@[j]@.len()
                    >= 1,
            weight_rows(all) == prepend(row_views(out@), weight_rows(all.skip(i as int))),
        decreases parts@.len() - i,
    {
        proof {
            assert(all.skip(i as int)[0] == parts@[i as int]@);
            assert(all.skip(i as int).skip(1) =~= all.skip(i + 1));
        }
        match parse_row(parts[i].as_str()) {
            Err(e) => return Err(e),
            Ok(ws) => {
                let ghost before = row_views(out@);
                let ghost w = ws@;
                out.push(ws);
                proof {
                    assert(row_views(out@) =~= before.push(w));
                    lemma_prepend_push(before, w, weight_rows(all.skip(i + 1)));
                }
            },
        }
        i += 1;
    }
    proof {
        assert(all.skip(i as int) =~= seq![]);
        assert(row_views(out@) + seq![] =~= row_views(out@));
    }
    Ok(out)
}

fn count_panes(rows: &Vec<Vec<u32>>) -> (n: u128)
    ensures
        n == pane_total(row_views(rows@)),
{
    let ghost all = row_views(rows@);
    let mut n: u128 = 0;
    let mut i: usize = 0;
    assert(all.skip(0) =~= all);
    while i < rows.len()
        invariant
            i <= rows@.len(),
            all == row_views(rows@),
            n <= i * 0xffff_ffff_ffff_ffff,
            pane_total(all) == n + pane_total(all.skip(i as int)),
        decreases rows@.len() - i,
    {
        proof {
            assert(all.skip(i as int)[0] == rows@[i as int]@);
            assert(all.skip(i as int).skip(1) =~= all.skip(i + 1));
            assert(i * 0xffff_ffff_ffff_ffff <= 0xffff_ffff_ffff_ffff * 0xffff_ffff_ffff_ffff)
                by (nonlinear_arith)
                requires
                    0 <= i <= 0xffff_ffff_ffff_ffff,
            ;
        }
        n = n + rows[i].len() as u128;
        i += 1;
    }
    n
}

proof fn lemma_row_le_total(rows: Seq<Seq<u32>>, i: int)
    requires
        0 <= i < rows.len(),
    ensures
        rows[i].len() <= pane_total(rows),
    decreases rows.len(),
{
    if i > 0 {
        lemma_row_le_total(rows.skip(1), i - 1);
        assert(rows.skip(1)[i - 1] == rows[i]);
    }
}

proof fn lemma_rows_le_total(rows: Seq<Seq<u32>>)
    requires
        forall|i: int| 0 <= i < rows.len() ==> (#[trigger] rows[i]).len() >= 1,
    ensures
        rows.len() <= pane_total(rows),
    decreases rows.len(),
{
    if rows.len() > 0 {
        assert(rows[0].len() >= 1);
        assert forall|i: int| 0 <= i < rows.skip(1).len() implies (
        #[trigger] rows.skip(1)[i]).len() >= 1 by {
            assert(rows.skip(1)[i] == rows[i + 1]);
        }
        lemma_rows_le_total(rows.skip(1));
    }
}

proof fn lemma_weighted_rows_push(rows: Seq<Seq<u32>>, i: int, id: nat)
    requires
        0 <= i < rows.len(),
    ensures
        weighted_rows(rows.take(i + 1), id) == weighted_rows(rows.take(i), id).push(
            weighted_row(rows[i], id + pane_total(rows.take(i))),
        ),
        pane_total(rows.take(i + 1)) == pane_total(rows.take(i)) + rows[i].len(),
    decreases rows.len(),
{
    if i == 0 {
        assert(rows.take(1).skip(1) =~= seq![]);
        assert(rows.take(0) =~= seq![]);
        assert(weighted_rows(seq![], id + rows[0].len()) =~= seq![]);
        assert(pane_total(seq![]) == 0);
        assert(weighted_rows(rows.take(1), id) =~= seq![weighted_row(rows[0], id)]);
        assert(weighted_rows(rows.take(0), id).push(weighted_row(rows[0], id)) =~= seq![
            weighted_row(rows[0], id),
        ]);
    } else {
        let r = rows.skip(1);
        let d = id + rows[0].len();
        lemma_weighted_rows_push(r, i - 1, d);
        assert(rows.take(i + 1).skip(1) =~= r.take(i));
        assert(rows.take(i).skip(1) =~= r.take(i - 1));
        assert(rows.take(i + 1)[0] == rows[0]);
        assert(rows.take(i)[0] == rows[0]);
        let w = weighted_row(rows[i], d + pane_total(r.take(i - 1)));
        assert(seq![weighted_row(rows[0], id)] + weighted_rows(r.take(i - 1), d).push(w) =~= (seq![
            weighted_row(rows[0], id),
        ] + weighted_rows(r.take(i - 1), d)).push(w));
    }
}

/// The rows of a spec as nodes, numbered row by row.
fn build_rows(rows: &Vec<Vec<u32>>) -> (r: Vec<LayoutNode>)
    requires
        pane_total(row_views(rows@)) <= 100,
        forall|i: int|
            0 <= i < rows@.len() ==> proper_weights((#[trigger] rows@[i])@) && rows@[i]@.len() >= 1,
    ensures
        r@ == weighted_rows(row_views(rows@), 0),
        r@.len() == rows@.len(),
        forall|i: int| 0 <= i < r@.len() ==> ratios_wf(#[trigger] r@[i]),
{
    let ghost all = row_views(rows@);
    let mut out: Vec<LayoutNode> = Vec::new();
    let mut next_id: usize = 0;
    let mut i: usize = 0;
    proof {
        assert(all.take(0) =~= seq![]);
        assert(weighted_rows(seq![], 0) =~= seq![]);
    }
    while i < rows.len()
        invariant
            i <= rows@.len(),
            all == row_views(rows@),
            pane_total(all) <= 100,
            forall|i: int|
                0 <= i < rows@.len() ==> proper_weights((#[trigger] rows@[i])@) && rows@[i]@.len()
                    >= 1,
            out@ == weighted_rows(all.take(i as int), 0),
            out@.len() == i,
            next_id == pane_total(all.take(i as int)),
            next_id <= 100 * i,
            i <= 100,
            forall|i: int| 0 <= i < out@.len() ==> ratios_wf(#[trigger] out@[i]),
        decreases rows@.len() - i,
    {
        proof {
            lemma_weighted_rows_push(all, i as int, 0);
            lemma_row_le_total(all, i as int);
            assert(all[i as int] == rows@[i as int]@);
            assert forall|j: int| 0 <= j < all.len() implies (#[trigger] all[j]).len() >= 1 by {
                assert(rows@[j]@.len() >= 1);
            }
            lemma_rows_le_total(all);
        }
        let ws = &rows[i];
        let sum: u32 = sum_weights(ws);
        assert(ws@.skip(0) =~= ws@);
        let node = build_weighted_row(ws, 0, sum, &mut next_id);
        out.push(node);
        i += 1;
    }
    assert(all.take(all.len() as int) =~= all);
    out
}

fn sum_weights(ws: &Vec<u32>) -> (n: u32)
    requires
        ws@.len() <= 100,
        proper_weights(ws@),
    ensures
        n == total(ws@),
{
    let mut n: u32 = 0;
    let mut i: usize = 0;
    assert(ws@.skip(0) =~= ws@);
    while i < ws.len()
        invariant
            i <= ws@.len() <= 100,
            proper_weights(ws@),
            n <= 9 * i,
            total(ws@) == n + total(ws@.skip(i as int)),
        decreases ws@.len() - i,
    {
        assert(ws@.skip(i as int).skip(1) =~= ws@.skip(i + 1));
        assert(1 <= ws@[i as int] <= 9);
        n = n + ws[i];
        i += 1;
    }
    n
}

proof fn lemma_weighted_row_ids(ws: Seq<u32>, id: nat)
    requires
        ws.len() >= 1,
    ensures
        ids(weighted_row(ws, id)) == run(id, ws.len()),
    decreases ws.len(),
{
    reveal_with_fuel(ids, 2);
    if ws.len() > 1 {
        lemma_weighted_row_ids(ws.skip(1), id + 1);
        assert(seq![id as usize] + run(id + 1, (ws.len() - 1) as nat) =~= run(id, ws.len()));
    } else {
        assert(seq![id as usize] =~= run(id, 1));
    }
}

/// A layout spec numbers its panes from zero on, row by row.
pub proof fn spec_rows_ids(rows: Seq<Seq<u32>>, id: nat)
    requires
        rows.len() >= 1,
        forall|i: int| 0 <= i < rows.len() ==> (#[trigger] rows[i]).len() >= 1,
    ensures
        ids(column(weighted_rows(rows, id))) == run(id, pane_total(rows)),
    decreases rows.len(),
{
    let nodes = weighted_rows(rows, id);
    let rest = rows.skip(1);
    let d = id + rows[0].len();
    assert(rows[0].len() >= 1);
    lemma_weighted_row_ids(rows[0], id);
    lemma_weighted_rows_len(rest, d);
    assert(nodes[0] == weighted_row(rows[0], id));
    assert(nodes.skip(1) =~= weighted_rows(rest, d));
    if rows.len() == 1 {
        assert(rest =~= seq![]);
        assert(pane_total(seq![]) == 0);
    } else {
        assert forall|i: int| 0 <= i < rest.len() implies (#[trigger] rest[i]).len() >= 1 by {
            assert(rest[i] == rows[i + 1]);
        }
        spec_rows_ids(rest, d);
        assert(run(id, rows[0].len()) + run(d, pane_total(rest)) =~= run(id, pane_total(rows)));
    }
}

pub proof fn lemma_weighted_rows_len(rows: Seq<Seq<u32>>, id: nat)
    ensures
        weighted_rows(rows, id).len() == rows.len(),
    decreases rows.len(),
{
    if rows.len() > 0 {
        lemma_weighted_rows_len(rows.skip(1), id + rows[0].len());
    }
}

/// The nearest of the panes `..k` of a list that can be reached in a direction,
/// of several equally near ones the first.
pub open spec fn nearest(
    all: Seq<usize>,
    rects: Map<usize, Rect>,
    from: usize,
    nav: NavDir,
    k: nat,
) -> Option<usize>
    decreases k,
{
    if k == 0 {
        None
    } else {
        let best = nearest(all, rects, from, nav, (k - 1) as nat);
        let id = all[k - 1];
        if !reachable(rects, from, id, nav) {
            best
        } else {
            match best {
                None => Some(id),
                Some(n) => if distance(rects[from], rects[id], nav) < distance(
                    rects[from],
                    rects[n],
                    nav,
                ) {
                    Some(id)
                } else {
                    Some(n)
                },
            }
        }
    }
}

/// The pane that navigation from `from` leads to.
pub open spec fn nearest_pane(node: LayoutNode, from: usize, nav: NavDir, inner: Rect) -> Option<
    usize,
> {
    nearest(ids(node), rect_map(node, inner), from, nav, ids(node).len())
}

proof fn lemma_none_nearest(
    all: Seq<usize>,
    rects: Map<usize, Rect>,
    from: usize,
    nav: NavDir,
    k: nat,
)
    requires
        !rects.contains_key(from),
    ensures
        nearest(all, rects, from, nav, k) is None,
    decreases k,
{
    if k > 0 {
        lemma_none_nearest(all, rects, from, nav, (k - 1) as nat);
    }
}

// ─── Layout ────────────────────────────────────────────────

impl Layout {
    /// A grid of `rows` by `cols` panes of equal size.
    pub fn from_grid(rows: usize, cols: usize) -> (r: Self)
        requires
            1 <= rows,
            1 <= cols,
            rows * cols <= usize::MAX,
        ensures
            r.root == grid_tree(rows as nat, cols as nat, 0),
            r.next_id == rows * cols,
            r.wf(),
            r.fresh(),
            ids(r.root) == run(0, (rows * cols) as nat),
            forall|area: Rect|
                #![trigger rect_map(r.root, area)]
                area.fits() && geometry::all_shown(r.root, area) ==> geometry::in_rows(
                    rect_map(r.root, area),
                    Seq::new(rows as nat, |i: int| cols as nat),
                    0,
                    area,
                ),
    {
        proof {
            assert(rows <= rows * cols && cols <= rows * cols) by (nonlinear_arith)
                requires
                    rows >= 1,
                    cols >= 1,
            ;
            grid_ids(rows as nat, cols as nat, 0);
        }
        let mut next_id: usize = 0;
        let root = build_grid(rows, cols, &mut next_id);
        proof {
            assert forall|area: Rect|
                #![trigger rect_map(root, area)]
                area.fits() && geometry::all_shown(root, area) implies geometry::in_rows(
                rect_map(root, area),
                Seq::new(rows as nat, |i: int| cols as nat),
                0,
                area,
            ) by {
                geometry::a_grid_stands_in_rows(rows as nat, cols as nat, area);
            }
        }
        Layout { root, next_id }
    }

    /// Reads a layout spec such as `7:3/1:1`, or the name of a preset.
    pub fn from_spec(spec: &str) -> (r: Result<Self, String>)
        ensures
            match r {
                Ok(l) => spec_layout(spec@) == Ok::<Layout, Seq<char>>(l) && l.wf() && l.fresh()
                    && forall|area: Rect|
                    #![trigger rect_map(l.root, area)]
                    area.fits() && geometry::all_shown(l.root, area) ==> geometry::in_rows(
                        rect_map(l.root, area),
                        geometry::row_counts(spec@),
                        0,
                        area,
                    ),
                Err(e) => spec_layout(spec@) == Err::<Layout, Seq<char>>(e@),
            },
    {
        let t = text::trim_text(spec);
        if text::same_text(t, "quad") {
            assert(2 * 2 == 4nat) by (nonlinear_arith);
            let quad = Self::from_grid(2, 2);
            proof {
                assert forall|area: Rect|
                    #![trigger rect_map(quad.root, area)]
                    area.fits() && geometry::all_shown(quad.root, area) implies geometry::in_rows(
                    rect_map(quad.root, area),
                    geometry::row_counts(spec@),
                    0,
                    area,
                ) by {
                    geometry::a_spec_stands_in_rows(spec@, area);
                }
            }
            return Ok(quad);
        }
        let resolved = if text::same_text(t, "ide") {
            "7:3/1:1"
        } else if text::same_text(t, "dev") {
            "7:3"
        } else if text::same_text(t, "monitor") {
            "1:1:1"
        } else if text::same_text(t, "stack") {
            "1/1/1"
        } else if text::same_text(t, "main") {
            "6:4/1"
        } else if text::same_text(t, "trio") {
            "1/1:1"
        } else {
            t
        };
        let rows = match parse_rows(resolved) {
            Err(e) => return Err(e),
            Ok(rows) => rows,
        };
        let n: u128 = count_panes(&rows);
        if n > 100 {
            let mut out = String::new();
            out.append("too many panes: ");
            out.append(text::decimal_text(n).as_str());
            assert(out@ =~= "too many panes: "@ + text::decimal(n as nat));
            return Err(out);
        }
        let ghost views = row_views(rows@);
        proof {
            assert forall|i: int| 0 <= i < views.len() implies (#[trigger] views[i]).len() >= 1 by {
                assert(rows@[i]@.len() >= 1);
            }
            lemma_rows_le_total(views);
            spec_rows_ids(views, 0);
        }
        let nodes = build_rows(&rows);
        let root = build_weighted_column(nodes);
        proof {
            assert forall|area: Rect|
                #![trigger rect_map(root, area)]
                area.fits() && geometry::all_shown(root, area) implies geometry::in_rows(
                rect_map(root, area),
                geometry::row_counts(spec@),
                0,
                area,
            ) by {
                geometry::a_spec_stands_in_rows(spec@, area);
            }
        }
        Ok(Layout { root, next_id: n as usize })
    }

    /// The pane ids, in tree order.
    pub fn pane_ids(&self) -> (r: Vec<usize>)
        ensures
            r@ == ids(self.root),
            r@.len() >= 1,
    {
        let mut out: Vec<usize> = Vec::new();
        collect_ids(&self.root, &mut out);
        proof {
            lemma_some_leaf(self.root);
            assert(Seq::<usize>::empty() + ids(self.root) =~= ids(self.root));
        }
        out
    }

    /// The number of panes.
    pub fn pane_count(&self) -> (r: usize)
        requires
            self.wf(),
        ensures
            r == ids(self.root).len(),
            r >= 1,
    {
        count_leaves(&self.root)
    }

    /// Content rects for all panes (area inside borders).
    pub fn pane_rects(&self, inner: &Rect) -> (r: HashMap<usize, Rect>)
        requires
            self.wf(),
            inner.fits(),
        ensures
            r@ == rect_map(self.root, *inner),
    {
        let mut rects: HashMap<usize, Rect> = HashMap::new();
        collect_rects(&self.root, inner, &mut rects);
        assert(Map::<usize, Rect>::empty().union_prefer_right(rect_map(self.root, *inner))
            =~= rect_map(self.root, *inner));
        rects
    }

    /// Separator lines (for border rendering).
    pub fn separators(&self, inner: &Rect, outer: &Rect) -> (r: Vec<SepLine>)
        requires
            self.wf(),
            inner.fits(),
            outer.fits(),
            lines_fit(*inner, *outer),
        ensures
            r@ == seps(self.root, *inner, *outer),
    {
        let mut out: Vec<SepLine> = Vec::new();
        collect_seps(&self.root, inner, outer, &mut out);
        assert(Seq::<SepLine>::empty() + seps(self.root, *inner, *outer) =~= seps(
            self.root,
            *inner,
            *outer,
        ));
        out
    }

    /// Find pane at a screen position (checks content rects).
    pub fn find_at(&self, x: u16, y: u16, inner: &Rect) -> (r: Option<usize>)
        requires
            self.wf(),
            inner.fits(),
        ensures
            r == pane_at(self.root, x, y, *inner),
    {
        find_at_node(&self.root, x, y, inner)
    }

    /// Splits a pane and equalizes all sizes. Returns the new pane id.
    pub fn split(&mut self, target_id: usize, dir: Direction) -> (r: usize)
        requires
            old(self).wf(),
            old(self).next_id < usize::MAX,
            old(self).has_room(target_id),
        ensures
            r == old(self).next_id,
            final(self).next_id == old(self).next_id + 1,
            final(self).root == equalized(
                with_split(old(self).root, target_id, old(self).next_id, dir),
            ),
            final(self).wf(),
            ids(final(self).root) == with_after(
                ids(old(self).root),
                target_id,
                old(self).next_id,
            ),
            old(self).fresh() ==> final(self).fresh(),
            old(self).fresh() && ids(old(self).root).contains(target_id) ==> forall|area: Rect|
                #![trigger rect_map(final(self).root, area)]
                area.fits() && geometry::shown(rect_map(final(self).root, area)[r])
                    ==> geometry::placed_next(
                    rect_map(final(self).root, area)[target_id],
                    rect_map(final(self).root, area)[r],
                    dir,
                ),
    {
        let new_id: usize = self.next_id;
        let mut taken = LayoutNode::Leaf { id: 0 };
        std::mem::swap(&mut taken, &mut self.root);
        let ghost was = taken;
        self.next_id = new_id + 1;
        self.root = split_node(taken, target_id, new_id, dir);
        proof {
            split_inserts_after(was, target_id, new_id, dir);
            equalize_keeps_panes(self.root);
            if old(self).fresh() {
                lemma_split_ids_fresh(ids(was), target_id, new_id);
                lemma_distinct_len(ids(was), new_id as nat);
            }
        }
        self.equalize();
        proof {
            let was = *old(self);
            if was.fresh() && ids(was.root).contains(target_id) {
                assert forall|area: Rect|
                    #![trigger rect_map(self.root, area)]
                    area.fits() && geometry::shown(
                        rect_map(self.root, area)[new_id],
                    ) implies geometry::placed_next(
                    rect_map(self.root, area)[target_id],
                    rect_map(self.root, area)[new_id],
                    dir,
                ) by {
                    geometry::a_split_puts_the_new_pane_next(was, target_id, dir, area);
                }
            }
        }
        new_id
    }

    /// Sets each split ratio so that every pane gets an equal share.
    pub fn equalize(&mut self)
        requires
            ids(old(self).root).len() <= usize::MAX,
        ensures
            final(self).root == equalized(old(self).root),
            final(self).next_id == old(self).next_id,
            final(self).wf(),
            ids(final(self).root) == ids(old(self).root),
    {
        proof {
            equalize_keeps_panes(self.root);
        }
        equalize_node(&mut self.root);
    }

    /// Removes a pane; its sibling takes the place of their split. Returns
    /// false, and changes nothing, where there is only one pane.
    pub fn remove(&mut self, target_id: usize) -> (r: bool)
        requires
            old(self).wf(),
        ensures
            r == (ids(old(self).root).len() > 1),
            !r ==> *final(self) == *old(self),
            r ==> without(old(self).root, target_id) == Some(final(self).root) && ids(
                final(self).root,
            ) == without_first(ids(old(self).root), target_id),
            final(self).next_id == old(self).next_id,
            final(self).wf(),
    {
        if self.pane_count() <= 1 {
            return false;
        }
        let mut taken = LayoutNode::Leaf { id: 0 };
        std::mem::swap(&mut taken, &mut self.root);
        proof {
            remove_takes_one(taken, target_id);
            ids(taken).index_of_first_ensures(target_id);
        }
        if let Some(new_root) = remove_node(taken, target_id) {
            self.root = new_root;
        }
        true
    }

    /// Find which separator is at screen position (for drag-to-resize).
    pub fn find_separator_at(&self, x: u16, y: u16, inner: &Rect) -> (r: Option<SepHit>)
        requires
            self.wf(),
            inner.fits(),
        ensures
            match r {
                Some(hit) => sep_at(self.root, x, y, *inner, seq![]) == Some(hit.parts()),
                None => sep_at(self.root, x, y, *inner, seq![]) is None,
            },
    {
        let mut path: Vec<bool> = Vec::new();
        assert(path@ =~= seq![]);
        find_sep_at(&self.root, x, y, inner, &mut path)
    }

    /// Update the ratio of the split identified by a tree path.
    pub fn set_ratio_at_path(&mut self, path: &[bool], ratio: Ratio)
        requires
            old(self).wf(),
            ratio.wf(),
        ensures
            final(self).root == with_ratio(old(self).root, path@, ratio),
            final(self).next_id == old(self).next_id,
            final(self).wf(),
            ids(final(self).root) == ids(old(self).root),
    {
        assert(path@.skip(0) =~= path@);
        set_ratio_at(&mut self.root, path, 0, ratio);
    }

    /// Navigate to the nearest pane in a direction, of several equally near
    /// ones to the first in tree order.
    pub fn navigate(&self, from_id: usize, nav: NavDir, inner: &Rect) -> (r: Option<usize>)
        requires
            self.wf(),
            inner.fits(),
        ensures
            r == nearest_pane(self.root, from_id, nav, *inner),
            ({
                let rects = rect_map(self.root, *inner);
                match r {
                    Some(n) => reachable(rects, from_id, n, nav) && forall|m: usize| #[trigger]
                        reachable(rects, from_id, m, nav) ==> distance(
                            rects[from_id],
                            rects[n],
                            nav,
                        ) <= distance(rects[from_id], rects[m], nav),
                    None => forall|m: usize| !#[trigger] reachable(rects, from_id, m, nav),
                }
            }),
    {
        let rects = self.pane_rects(inner);
        let all = self.pane_ids();
        proof {
            rects_inside(self.root, *inner);
        }
        let from = match rects.get(&from_id) {
            Some(f) => *f,
            None => {
                proof {
                    lemma_none_nearest(all@, rects@, from_id, nav, all@.len());
                }
                return None;
            },
        };
        let mut best: Option<(usize, u16)> = None;
        let mut i: usize = 0;
        assert(rects@.contains_key(from_id));
        assert(from.fits());
        while i < all.len()
            invariant
                i <= all@.len(),
                all@ == ids(self.root),
                rects@ == rect_map(self.root, *inner),
                rects@.dom() =~= all@.to_set(),
                forall|id: usize| #[trigger] rects@.contains_key(id) ==> rects@[id].inside(*inner),
                inner.fits(),
                rects@.contains_key(from_id),
                from == rects@[from_id],
                from.fits(),
                match best {
                    Some((n, _)) => nearest(all@, rects@, from_id, nav, i as nat) == Some(n),
                    None => nearest(all@, rects@, from_id, nav, i as nat) is None,
                },
                match best {
                    Some((n, d)) => reachable(rects@, from_id, n, nav) && d == distance(
                        from,
                        rects@[n],
                        nav,
                    ) && forall|j: int|
                        0 <= j < i ==> (#[trigger] reachable(rects@, from_id, all@[j], nav) ==> d
                            <= distance(from, rects@[all@[j]], nav)),
                    None => forall|j: int|
                        0 <= j < i ==> !#[trigger] reachable(rects@, from_id, all@[j], nav),
                },
            decreases all@.len() - i,
        {
            let id: usize = all[i];
            assert(all@.to_set().contains(id)) by {
                assert(all@[i as int] == id);
            }
            assert(rects@.contains_key(id));
            if id != from_id {
                if let Some(to) = rects.get(&id) {
                    assert(to.fits());
                    if is_adjacent(&from, to, nav) {
                        let d: u16 = nav_distance(&from, to, nav);
                        match best {
                            None => {
                                best = Some((id, d));
                            },
                            Some((_, least)) => {
                                if d < least {
                                    best = Some((id, d));
                                }
                            },
                        }
                    }
                }
            }
            i += 1;
        }
        proof {
            assert forall|m: usize| #[trigger] reachable(rects@, from_id, m, nav) implies exists|
                j: int,
            | 0 <= j < all@.len() && all@[j] == m by {
                assert(all@.to_set().contains(m));
                let j = all@.index_of(m);
                assert(all@[j] == m);
            }
        }
        match best {
            Some((n, _)) => Some(n),
            None => None,
        }
    }

    /// Next pane id in tree order (for cycling).
    pub fn next_pane(&self, current: usize) -> (r: usize)
        ensures
            r == cycle_next(ids(self.root), current),
    {
        let all = self.pane_ids();
        let pos: usize = position_of(&all, current);
        if all.len() - pos == 1 {
            assert((pos + 1) % (all@.len() as int) == 0) by (nonlinear_arith)
                requires
                    pos + 1 == all@.len(),
                    all@.len() > 0,
            ;
            all[0]
        } else {
            assert((pos + 1) % (all@.len() as int) == pos + 1) by (nonlinear_arith)
                requires
                    0 <= pos + 1 < all@.len(),
            ;
            all[pos + 1]
        }
    }

    /// Previous pane id in tree order (for cycling).
    pub fn prev_pane(&self, current: usize) -> (r: usize)
        ensures
            r == cycle_prev(ids(self.root), current),
    {
        let all = self.pane_ids();
        let pos: usize = position_of(&all, current);
        if pos == 0 {
            all[all.len() - 1]
        } else {
            all[pos - 1]
        }
    }

    /// Swap two pane ids in the tree (swap their positions).
    pub fn swap_panes(&mut self, a: usize, b: usize)
        ensures
            final(self).root == swapped(old(self).root, a, b),
            final(self).next_id == old(self).next_id,
            old(self).wf() ==> final(self).wf(),
    {
        swap_leaf_ids(&mut self.root, a, b);
    }

    /// Resizes a pane by moving the nearest separator on its side `dir`.
    /// Returns false, and changes nothing, where there is none.
    pub fn resize_pane(&mut self, pane_id: usize, dir: NavDir, delta: Ratio) -> (r: bool)
        requires
            old(self).wf(),
            delta.wf(),
        ensures
            r == (resize_path(old(self).root, pane_id, dir) is Some),
            !r ==> *final(self) == *old(self),
            r ==> final(self).root == with_nudge(
                old(self).root,
                resize_path(old(self).root, pane_id, dir)->0,
                delta,
                !nav_back(dir),
            ),
            final(self).next_id == old(self).next_id,
            final(self).wf(),
            ids(final(self).root) == ids(old(self).root),
    {
        let mut found: Vec<Crumb> = Vec::new();
        let mut path: Vec<bool> = Vec::new();
        assert(path@ =~= seq![]);
        assert(crumb_parts(found@) =~= seq![]);
        let hit = collect_path_to_pane(&self.root, pane_id, &mut path, &mut found);
        if !hit {
            return false;
        }
        let axis = match dir {
            NavDir::Left | NavDir::Right => Direction::Horizontal,
            NavDir::Up | NavDir::Down => Direction::Vertical,
        };
        let back = match dir {
            NavDir::Left | NavDir::Up => true,
            NavDir::Right | NavDir::Down => false,
        };
        let ghost c = crumbs(self.root, pane_id, seq![])->0;
        assert(crumb_parts(found@) =~= c);
        let mut i: usize = 0;
        while i < found.len()
            invariant
                i <= found@.len(),
                *self == *old(self),
                self.wf(),
                delta.wf(),
                axis == nav_axis(dir),
                back == nav_back(dir),
                crumbs(self.root, pane_id, seq![]) == Some(c),
                crumb_parts(found@) == c,
                nearest_crumb(c, 0, axis, back) == nearest_crumb(c, i as int, axis, back),
            decreases found@.len() - i,
        {
            assert(c[i as int] == (
                found@[i as int].path@,
                found@[i as int].direction,
                found@[i as int].in_second,
            ));
            if found[i].direction == axis && found[i].in_second == back {
                assert(found@[i as int].path@.skip(0) =~= found@[i as int].path@);
                adjust_ratio_at(&mut self.root, &found[i].path, 0, &delta, !back);
                return true;
            }
            i += 1;
        }
        false
    }
}

proof fn lemma_distinct_len(s: Seq<usize>, bound: nat)
    requires
        s.no_duplicates(),
        forall|i: int| 0 <= i < s.len() ==> #[trigger] s[i] < bound,
    ensures
        s.len() <= bound,
    decreases bound,
{
    if bound == 0 {
        if s.len() > 0 {
            assert(s[0] < bound);
        }
    } else {
        let top = (bound - 1) as usize;
        if s.len() > 0 && bound - 1 <= usize::MAX && s.contains(top) {
            let k = s.index_of(top);
            let t = s.remove(k);
            assert forall|i: int| 0 <= i < t.len() implies #[trigger] t[i] < bound - 1 by {
                assert(t[i] == s[if i < k {
                    i
                } else {
                    i + 1
                }]);
            }
            assert(t.no_duplicates());
            lemma_distinct_len(t, (bound - 1) as nat);
        } else {
            assert forall|i: int| 0 <= i < s.len() implies #[trigger] s[i] < bound - 1 by {
                assert(s.contains(s[i]));
            }
            lemma_distinct_len(s, (bound - 1) as nat);
        }
    }
}

proof fn lemma_split_ids_fresh(s: Seq<usize>, target: usize, new_id: usize)
    requires
        s.no_duplicates(),
        forall|i: int| 0 <= i < s.len() ==> #[trigger] s[i] < new_id,
    ensures
        ({
            let t = with_after(s, target, new_id);
            &&& t.no_duplicates()
            &&& t.len() <= s.len() + 1
            &&& forall|i: int| 0 <= i < t.len() ==> #[trigger] t[i] <= new_id
            &&& forall|x: usize| #[trigger]
                t.contains(x) <==> s.contains(x) || (x == new_id && s.contains(target))
            &&& s.contains(target) ==> t.len() == s.len() + 1
        }),
{
    assert(!s.contains(new_id)) by {
        if s.contains(new_id) {
            let i = s.index_of(new_id);
            assert(s[i] < new_id);
        }
    }
    lemma_with_after_distinct(s, target, new_id);
    let t = with_after(s, target, new_id);
    assert forall|i: int| 0 <= i < t.len() implies #[trigger] t[i] <= new_id by {
        assert(t.contains(t[i]));
        if s.contains(t[i]) {
            let k = s.index_of(t[i]);
            assert(s[k] < new_id);
        }
    }
}

/// A layout whose ids are fresh stays so when a pane is split, and gains
/// exactly the new pane.
pub proof fn split_keeps_fresh(before: Layout, after: Layout, target: usize, dir: Direction)
    requires
        before.fresh(),
        before.next_id < usize::MAX,
        ids(before.root).contains(target),
        after.next_id == before.next_id + 1,
        after.root == equalized(with_split(before.root, target, before.next_id, dir)),
    ensures
        after.fresh(),
        ids(after.root).len() == ids(before.root).len() + 1,
        forall|x: usize| #[trigger]
            ids(after.root).contains(x) <==> ids(before.root).contains(x) || x == before.next_id,
{
    split_inserts_after(before.root, target, before.next_id, dir);
    equalize_keeps_panes(with_split(before.root, target, before.next_id, dir));
    lemma_split_ids_fresh(ids(before.root), target, before.next_id);
}

/// A layout whose ids are fresh stays so when a pane is removed, and loses
/// exactly that pane.
pub proof fn remove_keeps_fresh(before: Layout, after: Layout, target: usize)
    requires
        before.fresh(),
        ids(before.root).contains(target),
        without(before.root, target) == Some(after.root),
        after.next_id == before.next_id,
    ensures
        after.fresh(),
        ids(after.root).len() == ids(before.root).len() - 1,
        forall|x: usize| #[trigger]
            ids(after.root).contains(x) <==> ids(before.root).contains(x) && x != target,
{
    let s = ids(before.root);
    remove_takes_one(before.root, target);
    s.index_of_first_ensures(target);
    let k = s.index_of_first(target)->0;
    let t = ids(after.root);
    assert(t == s.remove(k));
    assert forall|i: int, j: int| 0 <= i < t.len() && 0 <= j < t.len() && i != j implies t[i]
        != t[j] by {
        let a = if i < k {
            i
        } else {
            i + 1
        };
        let b = if j < k {
            j
        } else {
            j + 1
        };
        assert(t[i] == s[a] && t[j] == s[b]);
    }
    assert forall|i: int| 0 <= i < t.len() implies #[trigger] t[i] < after.next_id by {
        let a = if i < k {
            i
        } else {
            i + 1
        };
        assert(t[i] == s[a]);
    }
    assert forall|x: usize| #[trigger] t.contains(x) <==> s.contains(x) && x != target by {
        if t.contains(x) {
            let i = t.index_of(x);
            let a = if i < k {
                i
            } else {
                i + 1
            };
            assert(s[a] == x);
        }
        if s.contains(x) && x != target {
            let i = s.index_of(x);
            let a = if i < k {
                i
            } else {
                i - 1
            };
            assert(t[a] == x);
        }
    }
}

} // verus!
