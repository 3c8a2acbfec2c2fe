//! The grid data model: dimensions, cell positions, and the cell buffer.

use vstd::prelude::*;

verus! {

/// The number of rows and columns of a grid.
#[derive(Clone, Copy, PartialEq, Eq, Structural, Debug)]
pub struct GridDimensions {
    pub rows: usize,
    pub cols: usize,
}

impl GridDimensions {
    /// Both extents must be positive for the grid to hold any cell.
    pub open spec fn valid(self) -> bool {
        self.rows >= 1 && self.cols >= 1
    }
}

/// The position of one cell, zero-based, row first.
#[derive(Clone, Copy, PartialEq, Eq, Structural, Debug)]
pub struct CellIndex {
    pub row: usize,
    pub col: usize,
}

/// The abstraction of a row buffer: one sequence of cell states per row.
pub open spec fn rows_view(rows: Seq<Vec<bool>>) -> Seq<Seq<bool>> {
    Seq::new(rows.len(), |r: int| rows[r]@)
}

/// A grid abstraction `g` has exactly the shape that `dims` announces:
/// `dims.rows` rows, each of length `dims.cols`.
pub open spec fn grid_fits(g: Seq<Seq<bool>>, dims: GridDimensions) -> bool {
    &&& dims.valid()
    &&& g.len() == dims.rows
    &&& forall|r: int| 0 <= r < g.len() ==> (#[trigger] g[r]).len() == dims.cols
}

/// What toggling one cell does to the abstract grid: that cell flips,
/// every other cell keeps its state.
pub open spec fn toggle_spec(g: Seq<Seq<bool>>, row: int, col: int) -> Seq<Seq<bool>> {
    g.update(row, g[row].update(col, !g[row][col]))
}

/// A rectangular grid of boolean cell states, row-major: the outer vector
/// holds `rows` inner vectors of length `cols` each.
pub struct CellGrid {
    cells: Vec<Vec<bool>>,
}

impl View for CellGrid {
    type V = Seq<Seq<bool>>;

    closed spec fn view(&self) -> Seq<Seq<bool>> {
        rows_view(self.cells@)
    }
}

impl CellGrid {
    /// An all-dead grid of the given dimensions.
    pub fn new_dead(dims: GridDimensions) -> (grid: CellGrid)
        requires
            dims.valid(),
        ensures
            grid_fits(grid@, dims),
            forall|r: int, c: int|
                0 <= r < dims.rows && 0 <= c < dims.cols ==> !(#[trigger] grid@[r][c]),
    {
        let mut rows: Vec<Vec<bool>> = Vec::new();
        let mut r: usize = 0;
        while r < dims.rows
            invariant
                r <= dims.rows,
                rows@.len() == r,
                forall|i: int| 0 <= i < r ==> (#[trigger] rows@[i])@.len() == dims.cols,
                forall|i: int, j: int|
                    0 <= i < r && 0 <= j < dims.cols ==> !(#[trigger] rows@[i]@[j]),
            decreases dims.rows - r,
        {
            let row: Vec<bool> = vec![false; dims.cols];
            rows.push(row);
            r = r + 1;
        }
        CellGrid { cells: rows }
    }

    /// Wraps a row buffer as a grid, with no shape requirement: callers that
    /// need a rectangular grid state `grid_fits` about the result themselves.
    pub fn from_rows(rows: Vec<Vec<bool>>) -> (grid: CellGrid)
        ensures
            grid@ == rows_view(rows@),
    {
        CellGrid { cells: rows }
    }

    /// Borrows the row buffer for read-only traversal.
    pub fn rows_ref(&self) -> (rows: &Vec<Vec<bool>>)
        ensures
            rows_view(rows@) == self@,
    {
        &self.cells
    }

    /// The state of one cell.
    pub fn get(&self, index: CellIndex) -> (alive: bool)
        requires
            index.row < self@.len(),
            index.col < self@[index.row as int].len(),
        ensures
            alive == self@[index.row as int][index.col as int],
    {
        self.cells[index.row][index.col]
    }

    /// Flips the cell at `index` in place; used while the automaton is paused.
    pub fn toggle(&mut self, index: CellIndex)
        requires
            index.row < old(self)@.len(),
            index.col < old(self)@[index.row as int].len(),
        ensures
            final(self)@ == toggle_spec(old(self)@, index.row as int, index.col as int),
    {
        let mut row: Vec<bool> = self.cells.remove(index.row);
        let alive: bool = row[index.col];
        row[index.col] = !alive;
        self.cells.insert(index.row, row);
        proof {
            assert(self@ =~~= toggle_spec(old(self)@, index.row as int, index.col as int));
        }
    }
}

/// Toggling a cell twice restores the grid exactly, and a single toggle
/// changes no cell other than the one named.
pub proof fn lemma_toggle_twice_identity(g: Seq<Seq<bool>>, row: int, col: int)
    requires
        0 <= row < g.len(),
        0 <= col < g[row].len(),
    ensures
        toggle_spec(toggle_spec(g, row, col), row, col) == g,
        toggle_spec(g, row, col)[row][col] == !g[row][col],
        forall|i: int, j: int|
            0 <= i < g.len() && 0 <= j < g[i].len() && !(i == row && j == col)
                ==> toggle_spec(g, row, col)[i][j] == g[i][j],
{
    assert(toggle_spec(toggle_spec(g, row, col), row, col) =~~= g);
}

} // verus!
