use bumpalo::Bump;
use keru::{apply_reversal, from_occ, grid_assign_cells, to_occ_spans, Axis, Direction, GridElement, GridFlow, GridOccupancy};

fn el(column_span: u16, row_span: u16) -> GridElement {
    GridElement { row_span, column_span }
}

fn flow(main_axis: Axis, backfill: bool) -> GridFlow {
    GridFlow { main_axis, x_fill_direction: Direction::LeftToRight, y_fill_direction: Direction::LeftToRight, backfill }
}

#[test]
fn rows_first_fills_lines_in_order() {
    let elems = vec![GridElement::one_by_one(); 5];
    let (cells, n_cols, n_rows) = grid_assign_cells(&elems, 3, GridFlow::default_flow());
    assert_eq!(cells, vec![(0, 0), (1, 0), (2, 0), (0, 1), (1, 1)]);
    assert_eq!((n_cols, n_rows), (3, 2));
}

#[test]
fn wide_elements_skip_to_the_next_line() {
    let elems = vec![el(2, 1), el(1, 1), el(2, 1), el(1, 1)];
    let (cells, n_cols, n_rows) = grid_assign_cells(&elems, 3, flow(Axis::X, false));
    assert_eq!(cells, vec![(0, 0), (2, 0), (0, 1), (2, 1)]);
    assert_eq!((n_cols, n_rows), (3, 2));
}

#[test]
fn backfill_fills_earlier_gaps() {
    let elems = vec![el(2, 1), el(2, 1), el(1, 1)];
    let (cells, _, _) = grid_assign_cells(&elems, 3, flow(Axis::X, false));
    assert_eq!(cells, vec![(0, 0), (0, 1), (2, 1)]);
    let (cells, _, n_rows) = grid_assign_cells(&elems, 3, flow(Axis::X, true));
    assert_eq!(cells, vec![(0, 0), (0, 1), (2, 0)]);
    assert_eq!(n_rows, 2);
}

#[test]
fn columns_first_fills_columns() {
    let elems = vec![GridElement::one_by_one(); 3];
    let (cells, n_cols, n_rows) = grid_assign_cells(&elems, 2, flow(Axis::Y, false));
    assert_eq!(cells, vec![(0, 0), (0, 1), (1, 0)]);
    assert_eq!((n_cols, n_rows), (2, 2));
}

#[test]
fn tall_elements_take_several_lines() {
    let elems = vec![el(1, 2), el(1, 1), el(1, 1), el(1, 1)];
    let (cells, n_cols, n_rows) = grid_assign_cells(&elems, 2, flow(Axis::X, false));
    assert_eq!(cells, vec![(0, 0), (1, 0), (1, 1), (0, 2)]);
    assert_eq!((n_cols, n_rows), (2, 3));
}

#[test]
fn right_to_left_mirrors_cells() {
    let elems = vec![GridElement::one_by_one(); 2];
    let mut f = flow(Axis::X, false);
    f.x_fill_direction = Direction::RightToLeft;
    let (cells, n_cols, n_rows) = grid_assign_cells(&elems, 3, f);
    assert_eq!(cells, vec![(2, 0), (1, 0)]);
    assert_eq!((n_cols, n_rows), (3, 1));

    let elems = vec![GridElement::one_by_one(); 4];
    let mut f = flow(Axis::X, false);
    f.y_fill_direction = Direction::RightToLeft;
    let (cells, _, n_rows) = grid_assign_cells(&elems, 3, f);
    assert_eq!(n_rows, 2);
    assert_eq!(cells, vec![(0, 1), (1, 1), (2, 1), (0, 0)]);
}

#[test]
fn oversized_and_zero_spans_are_clamped() {
    let elems = vec![el(5, 1), el(0, 0)];
    let (cells, n_cols, n_rows) = grid_assign_cells(&elems, 2, flow(Axis::X, false));
    assert_eq!(cells, vec![(0, 0), (0, 1)]);
    assert_eq!((n_cols, n_rows), (2, 2));
}

#[test]
fn empty_grid_has_no_lines() {
    let (cells, n_cols, n_rows) = grid_assign_cells(&Vec::new(), 4, flow(Axis::Y, false));
    assert!(cells.is_empty());
    assert_eq!((n_cols, n_rows), (0, 4));
}

fn covered(cell: (usize, usize), e: GridElement, n_main: usize, main: Axis) -> Vec<(usize, usize)> {
    let span = |s: u16| (s as usize).max(1);
    let (cs, rs) = match main {
        Axis::X => (span(e.column_span).min(n_main), span(e.row_span)),
        Axis::Y => (span(e.column_span), span(e.row_span).min(n_main)),
    };
    let mut out = Vec::new();
    for c in cell.0..cell.0 + cs {
        for r in cell.1..cell.1 + rs {
            out.push((c, r));
        }
    }
    out
}

#[test]
fn placed_elements_never_overlap_and_stay_inside() {
    let elems = vec![el(2, 2), el(1, 3), el(3, 1), el(1, 1), el(2, 1), el(1, 2), el(4, 1)];
    for main in [Axis::X, Axis::Y] {
        for backfill in [false, true] {
            let (cells, n_cols, n_rows) = grid_assign_cells(&elems, 3, flow(main, backfill));
            let mut seen = std::collections::HashSet::new();
            for (k, cell) in cells.iter().enumerate() {
                for c in covered(*cell, elems[k], 3, main) {
                    assert!(seen.insert(c), "cell {:?} covered twice", c);
                    assert!(c.0 < n_cols && c.1 < n_rows);
                }
            }
        }
    }
}

#[test]
fn occupancy_places_and_marks_cells() {
    let arena = Bump::new();
    let mut occ = GridOccupancy::new(3, &arena);
    assert_eq!(occ.n_lines(), 0);
    assert!(occ.is_free(0, 0, 1, 3));
    assert_eq!(occ.place_next(1, 2, false), (0, 0));
    assert_eq!(occ.n_lines(), 1);
    assert!(!occ.is_free(0, 1, 1, 1));
    assert!(occ.is_free(0, 2, 1, 1));
    assert!(occ.is_free(5, 0, 2, 3));
    assert_eq!(occ.place_next(2, 1, false), (0, 2));
    assert_eq!(occ.n_lines(), 2);
    assert_eq!(occ.place_next(1, 3, false), (2, 0));
    assert_eq!(occ.n_lines(), 3);
    occ.occupy(4, 0, 1, 1);
    assert_eq!(occ.n_lines(), 5);
    assert_eq!(occ.place_next(1, 1, true), (1, 0));
}

#[test]
fn coordinate_conversions() {
    assert_eq!(to_occ_spans(2, 3, flow(Axis::X, false)), (3, 2));
    assert_eq!(to_occ_spans(2, 3, flow(Axis::Y, false)), (2, 3));
    assert_eq!(from_occ(1, 2, flow(Axis::X, false)), (2, 1));
    assert_eq!(from_occ(1, 2, flow(Axis::Y, false)), (1, 2));
    let mut f = flow(Axis::X, false);
    f.x_fill_direction = Direction::RightToLeft;
    assert_eq!(apply_reversal(0, 0, 1, 1, 3, 2, f), (2, 0));
    assert_eq!(apply_reversal(1, 1, 2, 1, 3, 2, f), (0, 1));
    f.y_fill_direction = Direction::RightToLeft;
    assert_eq!(apply_reversal(1, 0, 2, 1, 3, 2, f), (0, 1));
}

#[test]
fn mirrored_grids_never_overlap_and_stay_inside() {
    let elems = vec![el(2, 2), el(1, 3), el(3, 1), el(1, 1), el(2, 1), el(1, 2)];
    for main in [Axis::X, Axis::Y] {
        for (xd, yd) in [(Direction::RightToLeft, Direction::LeftToRight), (Direction::LeftToRight, Direction::RightToLeft), (Direction::RightToLeft, Direction::RightToLeft)] {
            let f = GridFlow { main_axis: main, x_fill_direction: xd, y_fill_direction: yd, backfill: false };
            let (cells, n_cols, n_rows) = grid_assign_cells(&elems, 3, f);
            let mut seen = std::collections::HashSet::new();
            for (k, cell) in cells.iter().enumerate() {
                for c in covered(*cell, elems[k], 3, main) {
                    assert!(seen.insert(c), "cell {:?} covered twice", c);
                    assert!(c.0 < n_cols && c.1 < n_rows);
                }
            }
        }
    }
}
