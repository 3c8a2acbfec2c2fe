//! The automaton core: one deterministic transition of Conway's Game of Life
//! on a finite, non-wrapping grid.

use vstd::prelude::*;

use crate::grid::CellGrid;
use crate::grid::CellIndex;
use crate::grid::GridDimensions;
use crate::grid::grid_fits;

verus! {

/// Contributes 1 when the cell at `(r, c)` lies inside the grid and is alive,
/// 0 otherwise; positions outside the grid never contribute (no wraparound).
pub open spec fn live_at(g: Seq<Seq<bool>>, dims: GridDimensions, r: int, c: int) -> int {
    if 0 <= r < dims.rows && 0 <= c < dims.cols && g[r][c] {
        1
    } else {
        0
    }
}

/// The number of living cells among the 8 neighbors of `(r, c)` that lie
/// within grid bounds.
pub open spec fn neighbor_count(g: Seq<Seq<bool>>, dims: GridDimensions, r: int, c: int) -> int {
    live_at(g, dims, r - 1, c - 1) + live_at(g, dims, r - 1, c) + live_at(g, dims, r - 1, c + 1)
        + live_at(g, dims, r, c - 1) + live_at(g, dims, r, c + 1) + live_at(g, dims, r + 1, c - 1)
        + live_at(g, dims, r + 1, c) + live_at(g, dims, r + 1, c + 1)
}

/// The rule of the game: a live cell survives with 2 or 3 live neighbors,
/// a dead cell is born with exactly 3, and every other cell is dead.
pub open spec fn next_cell(alive: bool, neighbors: int) -> bool {
    if alive {
        2 <= neighbors <= 3
    } else {
        neighbors == 3
    }
}

/// The successor of the whole grid under a simultaneous update: every cell is
/// rewritten from its old state and the neighbor counts of the old grid.
pub open spec fn step_spec(dims: GridDimensions, g: Seq<Seq<bool>>) -> Seq<Seq<bool>> {
    Seq::new(
        dims.rows as nat,
        |r: int| Seq::new(dims.cols as nat, |c: int| next_cell(g[r][c], neighbor_count(g, dims, r, c))),
    )
}

/// Counts the living in-bounds neighbors of the cell at `(r, c)`.
fn count_live_neighbors(dims: GridDimensions, grid: &CellGrid, r: usize, c: usize) -> (n: u8)
    requires
        grid_fits(grid@, dims),
        r < dims.rows,
        c < dims.cols,
    ensures
        n as int == neighbor_count(grid@, dims, r as int, c as int),
{
    let mut n: u8 = 0;
    if r > 0 && c > 0 && grid.get(CellIndex { row: r - 1, col: c - 1 }) {
        n = n + 1;
    }
    if r > 0 && grid.get(CellIndex { row: r - 1, col: c }) {
        n = n + 1;
    }
    if r > 0 && c + 1 < dims.cols && grid.get(CellIndex { row: r - 1, col: c + 1 }) {
        n = n + 1;
    }
    if c > 0 && grid.get(CellIndex { row: r, col: c - 1 }) {
        n = n + 1;
    }
    if c + 1 < dims.cols && grid.get(CellIndex { row: r, col: c + 1 }) {
        n = n + 1;
    }
    if r + 1 < dims.rows && c > 0 && grid.get(CellIndex { row: r + 1, col: c - 1 }) {
        n = n + 1;
    }
    if r + 1 < dims.rows && grid.get(CellIndex { row: r + 1, col: c }) {
        n = n + 1;
    }
    if r + 1 < dims.rows && c + 1 < dims.cols && grid.get(CellIndex { row: r + 1, col: c + 1 }) {
        n = n + 1;
    }
    n
}

/// One tick of the automaton. The input grid is only read; the result is a
/// fresh grid of the same dimensions holding the successor state, so calling
/// `step` twice on one snapshot never double-applies the rule.
pub fn step(dims: GridDimensions, grid: &CellGrid) -> (next: CellGrid)
    requires
        grid_fits(grid@, dims),
    ensures
        next@ == step_spec(dims, grid@),
        grid_fits(next@, dims),
{
    let mut rows: Vec<Vec<bool>> = Vec::new();
    let mut r: usize = 0;
    while r < dims.rows
        invariant
            grid_fits(grid@, dims),
            r <= dims.rows,
            rows@.len() == r,
            forall|i: int| 0 <= i < r ==> (#[trigger] rows@[i])@.len() == dims.cols,
            forall|i: int, j: int|
                0 <= i < r && 0 <= j < dims.cols
                    ==> (#[trigger] rows@[i]@[j]) == next_cell(
                        grid@[i][j],
                        neighbor_count(grid@, dims, i, j),
                    ),
        decreases dims.rows - r,
    {
        let mut row: Vec<bool> = Vec::new();
        let mut c: usize = 0;
        while c < dims.cols
            invariant
                grid_fits(grid@, dims),
                r < dims.rows,
                c <= dims.cols,
                row@.len() == c,
                forall|j: int|
                    0 <= j < c
                        ==> (#[trigger] row@[j]) == next_cell(
                            grid@[r as int][j],
                            neighbor_count(grid@, dims, r as int, j),
                        ),
            decreases dims.cols - c,
        {
            let neighbors = count_live_neighbors(dims, grid, r, c);
            let alive = grid.get(CellIndex { row: r, col: c });
            let next = if alive {
                neighbors == 2 || neighbors == 3
            } else {
                neighbors == 3
            };
            row.push(next);
            c = c + 1;
        }
        rows.push(row);
        r = r + 1;
    }
    let next = CellGrid::from_rows(rows);
    proof {
        assert(next@ =~~= step_spec(dims, grid@));
    }
    next
}

/// One step always yields a grid of the same dimensions as its input: the
/// successor of a well-shaped grid is well-shaped for the same `dims`.
pub proof fn lemma_step_preserves_shape(dims: GridDimensions, g: Seq<Seq<bool>>)
    requires
        grid_fits(g, dims),
    ensures
        grid_fits(step_spec(dims, g), dims),
{
}

/// A dead cell with zero living neighbors is still dead after one step, so a
/// fully dead region of the grid stays dead.
pub proof fn lemma_dead_cell_stays_dead(dims: GridDimensions, g: Seq<Seq<bool>>, r: int, c: int)
    requires
        grid_fits(g, dims),
        0 <= r < dims.rows,
        0 <= c < dims.cols,
        !g[r][c],
        neighbor_count(g, dims, r, c) == 0,
    ensures
        !step_spec(dims, g)[r][c],
{
}

/// The grid holds exactly one 2-by-2 block of living cells whose upper-left
/// corner is `(row, col)`, with room for a dead border around it, and every
/// other cell is dead.
pub open spec fn is_block(g: Seq<Seq<bool>>, dims: GridDimensions, row: int, col: int) -> bool {
    &&& grid_fits(g, dims)
    &&& 0 <= row
    &&& row + 1 < dims.rows
    &&& 0 <= col
    &&& col + 1 < dims.cols
    &&& forall|r: int, c: int|
        0 <= r < dims.rows && 0 <= c < dims.cols
            ==> ((#[trigger] g[r][c]) <==> (row <= r <= row + 1 && col <= c <= col + 1))
}

/// The classic block still life is a fixed point of `step`: each of its four
/// cells has exactly three living neighbors and survives, and no dead cell
/// sees more than two, so nothing is born.
pub proof fn lemma_block_is_fixed_point(
    dims: GridDimensions,
    g: Seq<Seq<bool>>,
    row: int,
    col: int,
)
    requires
        is_block(g, dims, row, col),
    ensures
        step_spec(dims, g) == g,
{
    let next = step_spec(dims, g);
    assert forall|r: int, c: int| 0 <= r < dims.rows && 0 <= c < dims.cols implies next[r][c]
        == g[r][c] by {
        assert(next[r][c] == next_cell(g[r][c], neighbor_count(g, dims, r, c)));
    }
    assert(step_spec(dims, g) =~~= g);
}

/// The grid holds exactly one horizontal blinker: three living cells in row
/// `row` at columns `col - 1 through col + 1`, everything else dead, with one free
/// row above and below so the oscillation has room.
pub open spec fn is_horizontal_blinker(
    g: Seq<Seq<bool>>,
    dims: GridDimensions,
    row: int,
    col: int,
) -> bool {
    &&& grid_fits(g, dims)
    &&& 1 <= row
    &&& row + 1 < dims.rows
    &&& 1 <= col
    &&& col + 1 < dims.cols
    &&& forall|r: int, c: int|
        0 <= r < dims.rows && 0 <= c < dims.cols
            ==> ((#[trigger] g[r][c]) <==> (r == row && col - 1 <= c <= col + 1))
}

/// The grid holds exactly one vertical blinker: three living cells in column
/// `col` at rows `row - 1 through row + 1`, everything else dead, with one free
/// column to each side.
pub open spec fn is_vertical_blinker(
    g: Seq<Seq<bool>>,
    dims: GridDimensions,
    row: int,
    col: int,
) -> bool {
    &&& grid_fits(g, dims)
    &&& 1 <= row
    &&& row + 1 < dims.rows
    &&& 1 <= col
    &&& col + 1 < dims.cols
    &&& forall|r: int, c: int|
        0 <= r < dims.rows && 0 <= c < dims.cols
            ==> ((#[trigger] g[r][c]) <==> (c == col && row - 1 <= r <= row + 1))
}

/// One step turns a horizontal blinker into the vertical blinker at the same
/// center.
pub proof fn lemma_blinker_horizontal_step(
    dims: GridDimensions,
    g: Seq<Seq<bool>>,
    row: int,
    col: int,
)
    requires
        is_horizontal_blinker(g, dims, row, col),
    ensures
        is_vertical_blinker(step_spec(dims, g), dims, row, col),
{
    let next = step_spec(dims, g);
    assert forall|r: int, c: int| 0 <= r < dims.rows && 0 <= c < dims.cols implies (next[r][c]
        <==> (c == col && row - 1 <= r <= row + 1)) by {
        assert(next[r][c] == next_cell(g[r][c], neighbor_count(g, dims, r, c)));
    }
}

/// One step turns a vertical blinker into the horizontal blinker at the same
/// center.
pub proof fn lemma_blinker_vertical_step(
    dims: GridDimensions,
    g: Seq<Seq<bool>>,
    row: int,
    col: int,
)
    requires
        is_vertical_blinker(g, dims, row, col),
    ensures
        is_horizontal_blinker(step_spec(dims, g), dims, row, col),
{
    let next = step_spec(dims, g);
    assert forall|r: int, c: int| 0 <= r < dims.rows && 0 <= c < dims.cols implies (next[r][c]
        <==> (r == row && col - 1 <= c <= col + 1)) by {
        assert(next[r][c] == next_cell(g[r][c], neighbor_count(g, dims, r, c)));
    }
}

/// A blinker is an oscillator of period two: one step flips it to the
/// orthogonal orientation, and a second step restores the original grid.
pub proof fn lemma_blinker_period_two(dims: GridDimensions, g: Seq<Seq<bool>>, row: int, col: int)
    requires
        is_horizontal_blinker(g, dims, row, col) || is_vertical_blinker(g, dims, row, col),
    ensures
        step_spec(dims, step_spec(dims, g)) == g,
{
    let once = step_spec(dims, g);
    let twice = step_spec(dims, once);
    if is_horizontal_blinker(g, dims, row, col) {
        lemma_blinker_horizontal_step(dims, g, row, col);
        lemma_blinker_vertical_step(dims, once, row, col);
    } else {
        lemma_blinker_vertical_step(dims, g, row, col);
        lemma_blinker_horizontal_step(dims, once, row, col);
    }
    assert(twice =~~= g);
}

} // verus!
