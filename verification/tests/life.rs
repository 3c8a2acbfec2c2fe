use life_rs::codec::parse_grid;
use life_rs::codec::serialize_grid;
use life_rs::engine::step;
use life_rs::geometry::cell_at;
use life_rs::geometry::cell_rect;
use life_rs::geometry::grid_lines;
use life_rs::geometry::live_cell_rects;
use life_rs::geometry::window_extent;
use life_rs::geometry::CellLayout;
use life_rs::geometry::PixelPoint;
use life_rs::grid::CellGrid;
use life_rs::grid::CellIndex;
use life_rs::grid::GridDimensions;

fn grid_of(rows: &[&[bool]]) -> (GridDimensions, CellGrid) {
    let dims = GridDimensions { rows: rows.len(), cols: rows[0].len() };
    let buffer: Vec<Vec<bool>> = rows.iter().map(|r| r.to_vec()).collect();
    (dims, CellGrid::from_rows(buffer))
}

fn cells_of(dims: GridDimensions, grid: &CellGrid) -> Vec<Vec<bool>> {
    (0..dims.rows)
        .map(|r| (0..dims.cols).map(|c| grid.get(CellIndex { row: r, col: c })).collect())
        .collect()
}

#[test]
fn step_preserves_dimensions() {
    let (dims, grid) = grid_of(&[
        &[true, false, true, false],
        &[false, true, true, false],
        &[true, true, false, true],
    ]);
    let next = step(dims, &grid);
    let cells = cells_of(dims, &next);
    assert_eq!(cells.len(), 3);
    for row in &cells {
        assert_eq!(row.len(), 4);
    }
}

#[test]
fn dead_grid_stays_dead() {
    let dims = GridDimensions { rows: 3, cols: 3 };
    let grid = CellGrid::new_dead(dims);
    let next = step(dims, &grid);
    for r in 0..3 {
        for c in 0..3 {
            assert!(!next.get(CellIndex { row: r, col: c }));
        }
    }
}

#[test]
fn block_is_still_life() {
    let (dims, grid) = grid_of(&[
        &[false, false, false, false],
        &[false, true, true, false],
        &[false, true, true, false],
        &[false, false, false, false],
    ]);
    let expected = cells_of(dims, &grid);
    let once = step(dims, &grid);
    let twice = step(dims, &once);
    assert_eq!(cells_of(dims, &once), expected);
    assert_eq!(cells_of(dims, &twice), expected);
}

#[test]
fn blinker_oscillates() {
    let (dims, horizontal) = grid_of(&[
        &[false, false, false, false, false],
        &[false, false, false, false, false],
        &[false, true, true, true, false],
        &[false, false, false, false, false],
        &[false, false, false, false, false],
    ]);
    let (_, vertical) = grid_of(&[
        &[false, false, false, false, false],
        &[false, false, true, false, false],
        &[false, false, true, false, false],
        &[false, false, true, false, false],
        &[false, false, false, false, false],
    ]);
    let once = step(dims, &horizontal);
    assert_eq!(cells_of(dims, &once), cells_of(dims, &vertical));
    let twice = step(dims, &once);
    assert_eq!(cells_of(dims, &twice), cells_of(dims, &horizontal));
}

#[test]
fn toggle_twice_is_identity() {
    let (dims, mut grid) = grid_of(&[
        &[true, false, true],
        &[false, true, false],
        &[true, false, false],
    ]);
    let original = cells_of(dims, &grid);
    grid.toggle(CellIndex { row: 1, col: 2 });
    let toggled = cells_of(dims, &grid);
    for r in 0..3 {
        for c in 0..3 {
            if (r, c) == (1, 2) {
                assert_eq!(toggled[r][c], !original[r][c]);
            } else {
                assert_eq!(toggled[r][c], original[r][c]);
            }
        }
    }
    grid.toggle(CellIndex { row: 1, col: 2 });
    assert_eq!(cells_of(dims, &grid), original);
}

#[test]
fn cell_at_outside_is_none() {
    let dims = GridDimensions { rows: 15, cols: 20 };
    let layout = CellLayout { cell_width: 20, cell_height: 20, line_width: 2 };
    let (width, height) = window_extent(dims, layout);
    assert_eq!((width, height), (400, 300));
    assert_eq!(cell_at(dims, layout, PixelPoint { x: -1, y: 10 }), None);
    assert_eq!(cell_at(dims, layout, PixelPoint { x: 10, y: -1 }), None);
    assert_eq!(cell_at(dims, layout, PixelPoint { x: 400, y: 10 }), None);
    assert_eq!(cell_at(dims, layout, PixelPoint { x: 10, y: 300 }), None);
    assert_eq!(cell_at(dims, layout, PixelPoint { x: 1000, y: 1000 }), None);
}

#[test]
fn cell_at_inside_hits_the_cell() {
    let dims = GridDimensions { rows: 15, cols: 20 };
    let layout = CellLayout { cell_width: 20, cell_height: 20, line_width: 2 };
    assert_eq!(cell_at(dims, layout, PixelPoint { x: 0, y: 0 }), Some(CellIndex { row: 0, col: 0 }));
    assert_eq!(
        cell_at(dims, layout, PixelPoint { x: 39, y: 20 }),
        Some(CellIndex { row: 1, col: 1 })
    );
    assert_eq!(
        cell_at(dims, layout, PixelPoint { x: 399, y: 299 }),
        Some(CellIndex { row: 14, col: 19 })
    );
}

#[test]
fn grid_lines_counts_and_extent() {
    let dims = GridDimensions { rows: 2, cols: 3 };
    let layout = CellLayout { cell_width: 10, cell_height: 5, line_width: 1 };
    let lines = grid_lines(dims, layout);
    assert_eq!(lines.len(), (3 + 1) + (2 + 1));
    let vertical = lines.iter().filter(|s| s.x0 == s.x1).count();
    let horizontal = lines.iter().filter(|s| s.y0 == s.y1).count();
    assert_eq!(vertical, 4);
    assert_eq!(horizontal, 3);
    // The verticals come first, span the full height, and sit at multiples
    // of the cell width; the horizontals follow, spanning the full width.
    assert_eq!((lines[0].x0, lines[0].y0, lines[0].x1, lines[0].y1), (0, 0, 0, 10));
    assert_eq!((lines[3].x0, lines[3].y0, lines[3].x1, lines[3].y1), (30, 0, 30, 10));
    assert_eq!((lines[4].x0, lines[4].y0, lines[4].x1, lines[4].y1), (0, 0, 30, 0));
    assert_eq!((lines[6].x0, lines[6].y0, lines[6].x1, lines[6].y1), (0, 10, 30, 10));
}

#[test]
fn cell_rect_is_inset_by_half_the_line_width() {
    let dims = GridDimensions { rows: 15, cols: 20 };
    let layout = CellLayout { cell_width: 20, cell_height: 20, line_width: 2 };
    // Half-pixel units: pixel position (1, 1), pixel size 18 by 18.
    let rect = cell_rect(dims, layout, CellIndex { row: 0, col: 0 });
    assert_eq!((rect.x, rect.y, rect.width, rect.height), (2, 2, 36, 36));
    let rect = cell_rect(dims, layout, CellIndex { row: 1, col: 2 });
    assert_eq!((rect.x, rect.y, rect.width, rect.height), (82, 42, 36, 36));
}

#[test]
fn live_cell_rects_empty_exactly_when_all_dead() {
    let dims = GridDimensions { rows: 3, cols: 3 };
    let layout = CellLayout { cell_width: 20, cell_height: 20, line_width: 2 };
    let dead = CellGrid::new_dead(dims);
    assert!(live_cell_rects(dims, layout, &dead).is_empty());
    let (_, grid) = grid_of(&[
        &[false, false, false],
        &[false, false, true],
        &[false, false, false],
    ]);
    let rects = live_cell_rects(dims, layout, &grid);
    assert_eq!(rects.len(), 1);
    assert_eq!((rects[0].x, rects[0].y, rects[0].width, rects[0].height), (82, 42, 36, 36));
}

#[test]
fn serialize_produces_the_exact_text() {
    let (_, grid) = grid_of(&[&[true, false], &[false, true]]);
    let bytes = serialize_grid(&grid);
    assert_eq!(bytes, b"[[true,false],[false,true]]".to_vec());
}

#[test]
fn round_trip_restores_the_grid() {
    let (dims, grid) = grid_of(&[
        &[true, false, true],
        &[false, true, false],
        &[true, false, true],
    ]);
    let bytes = serialize_grid(&grid);
    let (parsed_dims, parsed) = parse_grid(&bytes).expect("round trip must parse");
    assert_eq!(parsed_dims, dims);
    assert_eq!(cells_of(parsed_dims, &parsed), cells_of(dims, &grid));
    assert_eq!(serialize_grid(&parsed), bytes);
}

#[test]
fn parse_accepts_a_single_row() {
    let bytes = b"[[true,false]]".to_vec();
    let (dims, grid) = parse_grid(&bytes).expect("well-formed text must parse");
    assert_eq!(dims, GridDimensions { rows: 1, cols: 2 });
    assert!(grid.get(CellIndex { row: 0, col: 0 }));
    assert!(!grid.get(CellIndex { row: 0, col: 1 }));
}

#[test]
fn parse_rejects_malformed_text() {
    for text in [
        "" as &str,
        "x",
        "[",
        "[]",
        "[[]]",
        "[[true]",
        "[[true]]x",
        "[[tru]]",
        "[[true],[false,true]]",
        "[ [true] ]",
        "[[true,]]",
        "[[true],]",
    ] {
        let bytes = text.as_bytes().to_vec();
        assert!(parse_grid(&bytes).is_none(), "{:?} must be rejected", text);
    }
}

#[test]
fn end_to_end_blinker_scenario() {
    let dims = GridDimensions { rows: 5, cols: 5 };
    let mut grid = CellGrid::new_dead(dims);
    grid.toggle(CellIndex { row: 2, col: 1 });
    grid.toggle(CellIndex { row: 2, col: 2 });
    grid.toggle(CellIndex { row: 2, col: 3 });
    let once = step(dims, &grid);
    for r in 0..5 {
        for c in 0..5 {
            let expected = c == 2 && (1..=3).contains(&r);
            assert_eq!(once.get(CellIndex { row: r, col: c }), expected, "at ({}, {})", r, c);
        }
    }
    let twice = step(dims, &once);
    for r in 0..5 {
        for c in 0..5 {
            let expected = r == 2 && (1..=3).contains(&c);
            assert_eq!(twice.get(CellIndex { row: r, col: c }), expected, "at ({}, {})", r, c);
        }
    }
}

#[test]
fn new_dead_grid_is_all_dead() {
    let dims = GridDimensions { rows: 2, cols: 4 };
    let grid = CellGrid::new_dead(dims);
    for r in 0..2 {
        for c in 0..4 {
            assert!(!grid.get(CellIndex { row: r, col: c }));
        }
    }
}
