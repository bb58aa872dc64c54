//! Differences between two frames.

use ezpn::render_diff::{
    apply, diff, exceeds_cap, Attrs, Cell, CellGrid, Color, Diff, GridError, MAX_GRID_BYTES,
};

fn cell(ch: char) -> Cell {
    Cell {
        ch,
        ..Cell::default()
    }
}

fn grid_filled(rows: u16, cols: u16, ch: char) -> CellGrid {
    let cells = vec![cell(ch); rows as usize * cols as usize];
    CellGrid::from_cells(rows, cols, cells).unwrap()
}

#[test]
fn first_frame_is_full_redraw() {
    let next = grid_filled(2, 2, 'a');
    assert_eq!(diff(None, &next), Diff::FullRedraw);
}

#[test]
fn dimension_change_forces_full_redraw() {
    let prev = grid_filled(2, 2, 'a');
    let next = grid_filled(3, 3, 'a');
    assert_eq!(diff(Some(&prev), &next), Diff::FullRedraw);
}

#[test]
fn identical_grids_yield_empty_diff() {
    let prev = grid_filled(4, 4, 'x');
    let next = grid_filled(4, 4, 'x');
    let d = diff(Some(&prev), &next);
    assert!(d.is_noop());
    assert_eq!(d.changed_cells(), 0);
}

#[test]
fn single_cell_change_emits_single_delta() {
    let prev = grid_filled(3, 5, ' ');
    let mut next = prev.clone();
    next.set(1, 2, cell('X')).unwrap();

    let d = diff(Some(&prev), &next);
    match d {
        Diff::Cells(c) => {
            assert_eq!(c.len(), 1);
            assert_eq!(c[0].row, 1);
            assert_eq!(c[0].col, 2);
            assert_eq!(c[0].cell.ch, 'X');
        }
        _ => panic!("expected Cells diff"),
    }
}

#[test]
fn full_row_change_emits_one_delta_per_col() {
    let prev = grid_filled(2, 4, ' ');
    let mut next = prev.clone();
    for c in 0..4 {
        next.set(1, c, cell('=')).unwrap();
    }
    assert_eq!(diff(Some(&prev), &next).changed_cells(), 4);
}

#[test]
fn apply_roundtrip_yields_identical_grid() {
    let prev = grid_filled(8, 8, ' ');
    let mut next = prev.clone();
    next.set(0, 0, cell('A')).unwrap();
    next.set(7, 7, cell('Z')).unwrap();
    next.set(3, 4, cell('M')).unwrap();

    let d = diff(Some(&prev), &next);
    let mut applied = prev.clone();
    apply(&mut applied, &d, None).unwrap();
    assert_eq!(applied, next);
}

#[test]
fn full_redraw_apply_requires_full_grid() {
    let prev = grid_filled(2, 2, ' ');
    let next = grid_filled(3, 3, ' ');
    let d = diff(Some(&prev), &next);
    assert_eq!(d, Diff::FullRedraw);

    let mut applied = prev.clone();
    let err = apply(&mut applied, &d, None).unwrap_err();
    assert!(matches!(err, GridError::DimensionMismatch { .. }));

    apply(&mut applied, &d, Some(&next)).unwrap();
    assert_eq!(applied, next);
}

#[test]
fn out_of_bounds_set_is_rejected() {
    let mut g = grid_filled(2, 2, ' ');
    let err = g.set(5, 5, cell('q')).unwrap_err();
    assert!(matches!(err, GridError::OutOfBounds { .. }));
}

#[test]
fn size_mismatch_is_rejected() {
    let err = CellGrid::from_cells(2, 2, vec![cell(' '); 3]).unwrap_err();
    assert!(matches!(err, GridError::SizeMismatch { .. }));
}

#[test]
fn cap_check_is_threshold_inclusive() {
    // Below cap.
    let small = CellGrid::new(10, 10);
    assert!(!exceeds_cap(&small));
}

#[test]
fn attrs_bitwise_helpers() {
    let a = Attrs::new(Attrs::BOLD | Attrs::ITALIC);
    assert!(a.contains(Attrs::BOLD));
    assert!(a.contains(Attrs::ITALIC));
    assert!(!a.contains(Attrs::UNDERLINE));
    assert_eq!(a.bits(), Attrs::BOLD | Attrs::ITALIC);
}

#[test]
fn color_default_distinct_from_zero_idx() {
    // Sanity: indexed black (0) is NOT the same as Default.
    assert_ne!(Color::Default, Color::Idx(0));
}

#[test]
fn applying_a_difference_gives_the_next_frame() {
    let prev = grid_filled(3, 4, '.');
    let mut next = prev.clone();
    next.set(2, 3, Cell { fg: Color::Rgb(1, 2, 3), ..cell('!') }).unwrap();
    let d = diff(Some(&prev), &next);
    assert_eq!(d.changed_cells(), 1);
    let mut applied = grid_filled(3, 4, '.');
    apply(&mut applied, &d, None).unwrap();
    assert_eq!(applied, next);
    assert_eq!(applied.get(2, 3).unwrap().ch, '!');
    assert!(applied.get(3, 0).is_none());
}

#[test]
fn a_grid_over_the_cap_is_told() {
    let size = CellGrid::new(1, 1).byte_size();
    let cols = 1024;
    let rows = MAX_GRID_BYTES / size / cols;
    assert!(!exceeds_cap(&CellGrid::new(rows as u16, cols as u16)));
    assert!(exceeds_cap(&CellGrid::new(rows as u16 + 1, cols as u16)));
}

#[test]
fn deltas_are_the_differing_cells_in_order() {
    let mut prev = CellGrid::new(2, 3);
    let mut next = prev.clone();
    let x = Cell { ch: 'x', ..Cell::default() };
    next.set(1, 2, x).unwrap();
    next.set(0, 1, x).unwrap();
    next.set(1, 0, x).unwrap();
    let d = diff(Some(&prev), &next);
    assert_eq!(d.changed_cells(), 3);
    match &d {
        Diff::Cells(ds) => {
            let places: Vec<(u16, u16)> = ds.iter().map(|d| (d.row, d.col)).collect();
            assert_eq!(places, vec![(0, 1), (1, 0), (1, 2)]);
        }
        Diff::FullRedraw => panic!("expected cells"),
    }
    assert!(!d.is_noop());
    apply(&mut prev, &d, None).unwrap();
    assert!(diff(Some(&prev), &next).is_noop());
}
