//! The tree of panes and the rectangles it gives them.

use ezpn::layout::{
    can_split, split_area, Direction, Layout, NavDir, Rect, MIN_PANE_H, MIN_PANE_W,
};
use ezpn::ratio::Ratio;

fn ratio(x: f32) -> Ratio {
    Ratio::from_bits(x.to_bits()).unwrap()
}

fn inner_80x24() -> Rect {
    Rect {
        x: 1,
        y: 1,
        w: 78,
        h: 22,
    }
}

#[test]
fn grid_1x1() {
    let layout = Layout::from_grid(1, 1);
    assert_eq!(layout.pane_count(), 1);
    assert_eq!(layout.pane_ids(), vec![0]);
}

#[test]
fn grid_2x3() {
    let layout = Layout::from_grid(2, 3);
    assert_eq!(layout.pane_count(), 6);
    assert_eq!(layout.pane_ids(), vec![0, 1, 2, 3, 4, 5]);
}

#[test]
fn pane_rects_cover_inner() {
    let layout = Layout::from_grid(2, 2);
    let inner = inner_80x24();
    let rects = layout.pane_rects(&inner);
    assert_eq!(rects.len(), 4);
    for rect in rects.values() {
        assert!(rect.w > 0, "pane width should be > 0");
        assert!(rect.h > 0, "pane height should be > 0");
        assert!(rect.x >= inner.x);
        assert!(rect.y >= inner.y);
        assert!(rect.x + rect.w <= inner.x + inner.w);
        assert!(rect.y + rect.h <= inner.y + inner.h);
    }
}

#[test]
fn split_increases_count() {
    let mut layout = Layout::from_grid(1, 1);
    assert_eq!(layout.pane_count(), 1);
    layout.split(0, Direction::Horizontal);
    assert_eq!(layout.pane_count(), 2);
    layout.split(0, Direction::Vertical);
    assert_eq!(layout.pane_count(), 3);
}

#[test]
fn split_area_respects_min_pane_w() {
    // Roomy split — both halves should be ≥ MIN_PANE_W
    let area = Rect {
        x: 0,
        y: 0,
        w: 80,
        h: 24,
    };
    let (a, b) = split_area(&area, Direction::Horizontal, ratio(0.5));
    assert!(a.w >= MIN_PANE_W);
    assert!(b.w >= MIN_PANE_W);

    // Extreme ratio (0.01) used to collapse one side to 1 cell
    let (a, b) = split_area(&area, Direction::Horizontal, ratio(0.01));
    assert!(a.w >= MIN_PANE_W);
    assert!(b.w >= MIN_PANE_W);
}

#[test]
fn can_split_rejects_undersized_area() {
    // 5 cols can't fit two 3-col panes plus a separator → reject
    let tiny = Rect {
        x: 0,
        y: 0,
        w: 5,
        h: 24,
    };
    assert!(!can_split(&tiny, Direction::Horizontal));

    // 7 cols (3 + 1 + 3) is the minimum that satisfies horizontal split
    let just_enough = Rect { w: 7, ..tiny };
    assert!(can_split(&just_enough, Direction::Horizontal));
}

#[test]
fn remove_decreases_count() {
    let mut layout = Layout::from_grid(1, 2);
    assert_eq!(layout.pane_count(), 2);
    assert!(layout.remove(1));
    assert_eq!(layout.pane_count(), 1);
}

#[test]
fn cannot_remove_last_pane() {
    let mut layout = Layout::from_grid(1, 1);
    assert!(!layout.remove(0));
    assert_eq!(layout.pane_count(), 1);
}

#[test]
fn equalize_makes_equal_rects() {
    let mut layout = Layout::from_grid(1, 3);
    let inner = inner_80x24();
    layout.equalize();
    let rects = layout.pane_rects(&inner);
    let widths: Vec<u16> = layout
        .pane_ids()
        .iter()
        .filter_map(|id| rects.get(id).map(|r| r.w))
        .collect();
    let max_diff = widths.iter().max().unwrap() - widths.iter().min().unwrap();
    assert!(
        max_diff <= 1,
        "widths should differ by at most 1, got {:?}",
        widths
    );
}

#[test]
fn find_at_returns_correct_pane() {
    let layout = Layout::from_grid(1, 2);
    let inner = inner_80x24();
    let rects = layout.pane_rects(&inner);
    for (&pid, rect) in &rects {
        let found = layout.find_at(rect.x + rect.w / 2, rect.y + rect.h / 2, &inner);
        assert_eq!(
            found,
            Some(pid),
            "clicking center of pane {} should find it",
            pid
        );
    }
}

#[test]
fn navigate_horizontal() {
    let layout = Layout::from_grid(1, 3);
    let inner = inner_80x24();
    assert_eq!(layout.navigate(0, NavDir::Right, &inner), Some(1));
    assert_eq!(layout.navigate(1, NavDir::Right, &inner), Some(2));
    assert_eq!(layout.navigate(2, NavDir::Left, &inner), Some(1));
    assert_eq!(layout.navigate(0, NavDir::Left, &inner), None);
}

#[test]
fn navigate_vertical() {
    let layout = Layout::from_grid(2, 1);
    let inner = inner_80x24();
    assert_eq!(layout.navigate(0, NavDir::Down, &inner), Some(1));
    assert_eq!(layout.navigate(1, NavDir::Up, &inner), Some(0));
}

#[test]
fn next_pane_cycles() {
    let layout = Layout::from_grid(1, 3);
    assert_eq!(layout.next_pane(0), 1);
    assert_eq!(layout.next_pane(1), 2);
    assert_eq!(layout.next_pane(2), 0); // wraps
}

#[test]
fn separators_count() {
    let layout = Layout::from_grid(2, 3);
    let inner = inner_80x24();
    let outer = Rect {
        x: 0,
        y: 0,
        w: 80,
        h: 24,
    };
    let seps = layout.separators(&inner, &outer);
    // 2x3 grid: 2 horizontal separators (between 3 cols) + 1 vertical (between 2 rows)
    // Actually with binary tree: each Split creates 1 separator
    // Grid 2x3 tree: V(Row3, Row3) → 1 vertical sep + 2 H-seps per row = 5
    assert_eq!(seps.len(), 5);
}

#[test]
fn set_ratio_and_verify() {
    let mut layout = Layout::from_grid(1, 2);
    let inner = inner_80x24();
    layout.set_ratio_at_path(&[], ratio(0.3));
    let rects = layout.pane_rects(&inner);
    let r0 = &rects[&0];
    let r1 = &rects[&1];
    assert!(r0.w < r1.w, "pane 0 should be narrower after 0.3 ratio");
}

#[test]
fn spec_simple_ratio() {
    let layout = Layout::from_spec("7:3").unwrap();
    assert_eq!(layout.pane_count(), 2);
    let inner = inner_80x24();
    let rects = layout.pane_rects(&inner);
    let ids = layout.pane_ids();
    let w0 = rects[&ids[0]].w;
    let w1 = rects[&ids[1]].w;
    assert!(
        w0 > w1,
        "7:3 ratio — left should be wider: {} vs {}",
        w0,
        w1
    );
}

#[test]
fn spec_three_equal() {
    let layout = Layout::from_spec("1:1:1").unwrap();
    assert_eq!(layout.pane_count(), 3);
}

#[test]
fn spec_two_rows() {
    let layout = Layout::from_spec("7:3/5:5").unwrap();
    assert_eq!(layout.pane_count(), 4);
}

#[test]
fn spec_mixed() {
    let layout = Layout::from_spec("1/1:1").unwrap();
    assert_eq!(layout.pane_count(), 3);
}

#[test]
fn spec_single() {
    let layout = Layout::from_spec("1").unwrap();
    assert_eq!(layout.pane_count(), 1);
}

#[test]
fn spec_invalid() {
    assert!(Layout::from_spec("").is_err());
    assert!(Layout::from_spec("abc").is_err());
    assert!(Layout::from_spec("0:0").is_err());
    assert!(Layout::from_spec("10").is_err());
}

#[test]
fn spec_presets() {
    let ide = Layout::from_spec("ide").unwrap();
    assert_eq!(ide.pane_count(), 4); // 7:3/1:1 = 2+2

    let dev = Layout::from_spec("dev").unwrap();
    assert_eq!(dev.pane_count(), 2); // 7:3

    let monitor = Layout::from_spec("monitor").unwrap();
    assert_eq!(monitor.pane_count(), 3); // 1:1:1

    let quad = Layout::from_spec("quad").unwrap();
    assert_eq!(quad.pane_count(), 4); // 2x2

    let stack = Layout::from_spec("stack").unwrap();
    assert_eq!(stack.pane_count(), 3); // 1/1/1

    let main = Layout::from_spec("main").unwrap();
    assert_eq!(main.pane_count(), 3); // 6:4/1

    let trio = Layout::from_spec("trio").unwrap();
    assert_eq!(trio.pane_count(), 3); // 1/1:1
}

fn apart(p: &Rect, q: &Rect) -> bool {
    p.x + p.w <= q.x || q.x + q.w <= p.x || p.y + p.h <= q.y || q.y + q.h <= p.y
}

#[test]
fn no_two_panes_overlap() {
    let mut layout = Layout::from_grid(2, 3);
    layout.split(4, Direction::Vertical);
    let rects = layout.pane_rects(&inner_80x24());
    assert_eq!(rects.len(), 7);
    for (p, a) in &rects {
        for (q, b) in &rects {
            assert!(p == q || apart(a, b), "{p} and {q} overlap");
        }
    }
}

#[test]
fn halves_leave_a_column_between_them() {
    let area = Rect { x: 0, y: 0, w: 80, h: 24 };
    let (a, b) = split_area(&area, Direction::Horizontal, ratio(0.5));
    assert_eq!(a, Rect { x: 0, y: 0, w: 40, h: 24 });
    assert_eq!(b, Rect { x: 41, y: 0, w: 39, h: 24 });
    let (a, b) = split_area(&area, Direction::Vertical, ratio(0.25));
    assert_eq!(a, Rect { x: 0, y: 0, w: 80, h: 6 });
    assert_eq!(b, Rect { x: 0, y: 7, w: 80, h: 17 });
    assert!(a.h >= MIN_PANE_H && b.h >= MIN_PANE_H);
}

#[test]
fn a_split_puts_the_new_pane_behind_its_target() {
    let mut layout = Layout::from_grid(1, 3);
    assert_eq!(layout.split(1, Direction::Horizontal), 3);
    assert_eq!(layout.pane_ids(), vec![0, 1, 3, 2]);
    assert_eq!(layout.split(0, Direction::Vertical), 4);
    assert_eq!(layout.pane_ids(), vec![0, 4, 1, 3, 2]);
}

#[test]
fn removing_takes_out_one_pane_and_keeps_the_order() {
    let mut layout = Layout::from_grid(2, 2);
    assert!(layout.remove(2));
    assert_eq!(layout.pane_ids(), vec![0, 1, 3]);
    // An unknown pane leaves the tree as it was, and the answer is the same.
    assert!(layout.remove(9));
    assert_eq!(layout.pane_ids(), vec![0, 1, 3]);
}

#[test]
fn equalizing_twice_is_equalizing_once() {
    let mut layout = Layout::from_grid(1, 4);
    layout.set_ratio_at_path(&[], ratio(0.8));
    layout.equalize();
    let once = layout.pane_rects(&inner_80x24());
    layout.equalize();
    assert_eq!(layout.pane_rects(&inner_80x24()), once);
    assert_eq!(layout.pane_ids(), vec![0, 1, 2, 3]);
}

#[test]
fn swapping_twice_gives_the_first_order_back() {
    let mut layout = Layout::from_grid(2, 2);
    layout.swap_panes(0, 3);
    assert_eq!(layout.pane_ids(), vec![3, 1, 2, 0]);
    layout.swap_panes(0, 3);
    assert_eq!(layout.pane_ids(), vec![0, 1, 2, 3]);
}

#[test]
fn the_cycle_leads_there_and_back() {
    let layout = Layout::from_grid(2, 2);
    for id in layout.pane_ids() {
        assert_eq!(layout.prev_pane(layout.next_pane(id)), id);
        assert_eq!(layout.next_pane(layout.prev_pane(id)), id);
    }
    assert_eq!(layout.prev_pane(0), 3);
}

#[test]
fn a_click_on_a_separator_is_in_no_pane() {
    let layout = Layout::from_grid(1, 2);
    let inner = inner_80x24();
    let rects = layout.pane_rects(&inner);
    let column = rects[&0].x + rects[&0].w;
    assert_eq!(layout.find_at(column, 5, &inner), None);
    let hit = layout.find_separator_at(column, 5, &inner).unwrap();
    assert_eq!(hit.direction, Direction::Horizontal);
    assert_eq!(hit.path, Vec::<bool>::new());
    assert!(layout.find_separator_at(column + 5, 5, &inner).is_none());
}

#[test]
fn resizing_moves_the_innermost_separator() {
    // Pane 1 sits between two separators that both run down the screen.
    let mut layout = Layout::from_grid(1, 3);
    let inner = inner_80x24();
    let before = layout.pane_rects(&inner);
    assert!(layout.resize_pane(1, NavDir::Right, ratio(0.1)));
    let after = layout.pane_rects(&inner);
    assert_eq!(after[&0], before[&0]);
    assert!(after[&1].w > before[&1].w);
    assert!(after[&2].w < before[&2].w);
    // There is no separator above a single row of panes.
    assert!(!layout.resize_pane(1, NavDir::Up, ratio(0.1)));
    assert_eq!(layout.pane_rects(&inner), after);
}

#[test]
fn unreadable_specs_are_refused() {
    assert!(Layout::from_spec("1:x").is_err());
    assert!(Layout::from_spec("1//1").is_err());
}

#[test]
fn a_ratio_is_its_bit_pattern() {
    for x in [0.1f32, 0.25, 0.3, 0.5, 0.7, 0.9, 1.0] {
        assert_eq!(ratio(x).to_bits(), x.to_bits());
    }
    assert_eq!(ezpn::ratio::low(), ratio(0.1));
    assert_eq!(ezpn::ratio::high(), ratio(0.9));
    assert_eq!(ezpn::ratio::half(), ratio(0.5));
    assert_eq!(ezpn::ratio::step(), ratio(0.05));
    assert!(Ratio::from_bits((-0.5f32).to_bits()).is_none());
    assert!(Ratio::from_bits(0.0f32.to_bits()).is_none());
}

#[test]
fn ratios_count_cells_as_single_precision_does() {
    for x in [0.1f32, 0.3, 1.0 / 3.0, 0.5, 2.0 / 3.0, 0.9] {
        for usable in [0u16, 1, 7, 79, 80, 211, 65_535] {
            assert_eq!(ratio(x).cells_of(usable), (usable as f32 * x).round() as u16, "{x} of {usable}");
        }
    }
    assert_eq!(Ratio::of(1, 3), ratio(1.0 / 3.0));
    assert_eq!(Ratio::of(7, 10), ratio(7.0 / 10.0));
    assert_eq!(ratio(0.95).clamped(), ratio(0.9));
    assert_eq!(ratio(0.01).clamped(), ratio(0.1));
    assert_eq!(ratio(0.4).clamped(), ratio(0.4));
    assert_eq!(ratio(0.5).nudge(&ratio(0.05), true), ratio(0.5f32 + 0.05));
    assert_eq!(ratio(0.5).nudge(&ratio(0.05), false), ratio(0.5f32 - 0.05));
    assert_eq!(Ratio::resize_step(3), ratio(0.05f32 * 3.0));
    assert_eq!(Ratio::resize_step(0), ratio(0.05));
}

#[test]
fn shares_of_large_counts_are_those_of_single_precision() {
    for (a, b) in [
        (1u64, 3u64),
        (16_777_217, 16_777_219),
        (16_777_219, 50_000_001),
        (1, u64::MAX),
        (u64::MAX / 3, u64::MAX),
        (u64::MAX, u64::MAX),
    ] {
        assert_eq!(Ratio::of(a, b).to_bits(), (a as f32 / b as f32).to_bits());
    }
}

#[test]
fn an_area_is_split_whatever_its_other_axis() {
    let area = Rect { x: 0, y: 65_000, w: 9, h: 1_000 };
    let (a, b) = split_area(&area, Direction::Horizontal, ratio(0.5));
    assert_eq!((a.w, b.x, b.w), (4, 5, 4));
}
