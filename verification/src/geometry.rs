//! Pure mapping between the logical grid and pixel-space geometry: the window
//! extent, the grid outline, per-cell fill rectangles, and mouse hit-testing.
//!
//! All coordinates are integers. Cell sizes and the grid-line width are whole
//! pixels; a fill rectangle is inset by half the line width on each side, so
//! its corners are expressed in half-pixel units to stay exact.

use vstd::prelude::*;

use vstd::arithmetic::div_mod::lemma_div_is_ordered;
use vstd::arithmetic::div_mod::lemma_div_multiples_vanish;
use vstd::arithmetic::mul::lemma_mul_inequality;

use crate::grid::CellGrid;
use crate::grid::CellIndex;
use crate::grid::GridDimensions;
use crate::grid::grid_fits;

verus! {

/// The pixel-space shape of one cell: its width and height, and the width of
/// the grid lines drawn between cells, all in whole pixels.
#[derive(Clone, Copy, PartialEq, Eq, Structural, Debug)]
pub struct CellLayout {
    pub cell_width: usize,
    pub cell_height: usize,
    pub line_width: usize,
}

impl CellLayout {
    /// Cells have positive extent and are at least as wide and tall as the
    /// grid lines between them, so the inset fill rectangle never collapses
    /// below zero size.
    pub open spec fn valid(self) -> bool {
        &&& self.cell_width >= 1
        &&& self.cell_height >= 1
        &&& self.line_width <= self.cell_width
        &&& self.line_width <= self.cell_height
    }
}

/// A screen-space point in whole pixels, as delivered by the input layer.
/// Either coordinate may be negative: the pointer can sit outside the window.
#[derive(Clone, Copy, PartialEq, Eq, Structural, Debug)]
pub struct PixelPoint {
    pub x: i64,
    pub y: i64,
}

/// An axis-aligned rectangle in half-pixel units: dividing every field by two
/// gives the position and size in pixels.
#[derive(Clone, Copy, PartialEq, Eq, Structural, Debug)]
pub struct Rect {
    pub x: u64,
    pub y: u64,
    pub width: u64,
    pub height: u64,
}

/// A line segment in whole pixels, from `(x0, y0)` to `(x1, y1)`.
#[derive(Clone, Copy, PartialEq, Eq, Structural, Debug)]
pub struct Segment {
    pub x0: u64,
    pub y0: u64,
    pub x1: u64,
    pub y1: u64,
}

/// The total pixel width of the grid.
pub open spec fn extent_w(dims: GridDimensions, layout: CellLayout) -> int {
    dims.cols * layout.cell_width
}

/// The total pixel height of the grid.
pub open spec fn extent_h(dims: GridDimensions, layout: CellLayout) -> int {
    dims.rows * layout.cell_height
}

/// The whole grid fits a 64-bit pixel coordinate space with room for the
/// one-past-the-end grid line.
pub open spec fn extent_fits(dims: GridDimensions, layout: CellLayout) -> bool {
    extent_w(dims, layout) < u64::MAX && extent_h(dims, layout) < u64::MAX
}

/// The whole grid also fits the half-pixel coordinate space of `Rect`.
pub open spec fn rects_fit(dims: GridDimensions, layout: CellLayout) -> bool {
    2 * extent_w(dims, layout) <= u64::MAX && 2 * extent_h(dims, layout) <= u64::MAX
}

/// The total pixel size of the display surface, `(width, height)`, used to
/// size the window whenever the dimensions change.
pub fn window_extent(dims: GridDimensions, layout: CellLayout) -> (size: (u64, u64))
    requires
        dims.valid(),
        layout.valid(),
        extent_fits(dims, layout),
    ensures
        size.0 == extent_w(dims, layout),
        size.1 == extent_h(dims, layout),
{
    ((dims.cols as u64) * (layout.cell_width as u64), (dims.rows as u64) * (layout.cell_height
        as u64))
}

/// The cell under a pixel point: its row is `y` divided by the cell height,
/// its column `x` divided by the cell width, when both land inside the grid.
/// Points left of, above, or past the grid give `None`.
pub open spec fn cell_at_spec(dims: GridDimensions, layout: CellLayout, x: int, y: int) -> Option<
    CellIndex,
> {
    if 0 <= x && 0 <= y && x / (layout.cell_width as int) < dims.cols && y / (layout.cell_height
        as int) < dims.rows {
        Some(
            CellIndex {
                row: (y / (layout.cell_height as int)) as usize,
                col: (x / (layout.cell_width as int)) as usize,
            },
        )
    } else {
        None
    }
}

/// Hit-tests a pixel point against the grid. Returning `None` is a normal
/// outcome for clicks outside the grid, not an error.
pub fn cell_at(dims: GridDimensions, layout: CellLayout, point: PixelPoint) -> (hit: Option<
    CellIndex,
>)
    requires
        dims.valid(),
        layout.valid(),
    ensures
        hit == cell_at_spec(dims, layout, point.x as int, point.y as int),
{
    if point.x < 0 || point.y < 0 {
        return None;
    }
    let col = (point.x as u64) / (layout.cell_width as u64);
    let row = (point.y as u64) / (layout.cell_height as u64);
    if col < dims.cols as u64 && row < dims.rows as u64 {
        Some(CellIndex { row: row as usize, col: col as usize })
    } else {
        None
    }
}

/// Any point left of or above the grid, or at or past its pixel extent,
/// hits no cell: hit-testing never wraps or clamps.
pub proof fn lemma_cell_at_outside(dims: GridDimensions, layout: CellLayout, x: int, y: int)
    requires
        dims.valid(),
        layout.valid(),
        x < 0 || y < 0 || x >= extent_w(dims, layout) || y >= extent_h(dims, layout),
    ensures
        cell_at_spec(dims, layout, x, y) is None,
{
    let cw = layout.cell_width as int;
    let ch = layout.cell_height as int;
    if 0 <= x && 0 <= y {
        if x >= extent_w(dims, layout) {
            lemma_div_is_ordered(dims.cols * cw, x, cw);
            lemma_div_multiples_vanish(dims.cols as int, cw);
            assert(cw * dims.cols == dims.cols * cw) by (nonlinear_arith);
            assert(x / cw >= dims.cols);
        } else {
            lemma_div_is_ordered(dims.rows * ch, y, ch);
            lemma_div_multiples_vanish(dims.rows as int, ch);
            assert(ch * dims.rows == dims.rows * ch) by (nonlinear_arith);
            assert(y / ch >= dims.rows);
        }
    }
}

/// The fill rectangle of the cell at `(row, col)`, in half-pixel units: the
/// cell's pixel box inset by half the line width on each side, so adjacent
/// fills never overlap the grid lines.
pub open spec fn cell_rect_spec(dims: GridDimensions, layout: CellLayout, row: int, col: int) -> Rect {
    Rect {
        x: (2 * col * layout.cell_width + layout.line_width) as u64,
        y: (2 * row * layout.cell_height + layout.line_width) as u64,
        width: (2 * (layout.cell_width - layout.line_width)) as u64,
        height: (2 * (layout.cell_height - layout.line_width)) as u64,
    }
}

/// The fill rectangle for the cell at `index`, which must lie inside the
/// grid: an out-of-range index is a caller programming error, so it is ruled
/// out here rather than clamped.
pub fn cell_rect(dims: GridDimensions, layout: CellLayout, index: CellIndex) -> (rect: Rect)
    requires
        dims.valid(),
        layout.valid(),
        rects_fit(dims, layout),
        index.row < dims.rows,
        index.col < dims.cols,
    ensures
        rect == cell_rect_spec(dims, layout, index.row as int, index.col as int),
        rect.x == 2 * index.col * layout.cell_width + layout.line_width,
        rect.y == 2 * index.row * layout.cell_height + layout.line_width,
        rect.width == 2 * (layout.cell_width - layout.line_width),
        rect.height == 2 * (layout.cell_height - layout.line_width),
{
    proof {
        lemma_mul_inequality(index.col as int + 1, dims.cols as int, layout.cell_width as int);
        lemma_mul_inequality(index.row as int + 1, dims.rows as int, layout.cell_height as int);
        assert((index.col as int + 1) * layout.cell_width == index.col * layout.cell_width
            + layout.cell_width) by (nonlinear_arith);
        assert((index.row as int + 1) * layout.cell_height == index.row * layout.cell_height
            + layout.cell_height) by (nonlinear_arith);
        assert(2 * (index.col * (layout.cell_width as int)) == 2 * index.col
            * layout.cell_width) by (nonlinear_arith);
        assert(2 * (index.row * (layout.cell_height as int)) == 2 * index.row
            * layout.cell_height) by (nonlinear_arith);
    }
    let cw = layout.cell_width as u64;
    let ch = layout.cell_height as u64;
    let lw = layout.line_width as u64;
    Rect {
        x: 2 * ((index.col as u64) * cw) + lw,
        y: 2 * ((index.row as u64) * ch) + lw,
        width: 2 * (cw - lw),
        height: 2 * (ch - lw),
    }
}

/// The vertical grid line after column `i`, spanning the full grid height.
pub open spec fn v_seg(dims: GridDimensions, layout: CellLayout, i: int) -> Segment {
    Segment {
        x0: (i * layout.cell_width) as u64,
        y0: 0,
        x1: (i * layout.cell_width) as u64,
        y1: extent_h(dims, layout) as u64,
    }
}

/// The horizontal grid line after row `j`, spanning the full grid width.
pub open spec fn h_seg(dims: GridDimensions, layout: CellLayout, j: int) -> Segment {
    Segment {
        x0: 0,
        y0: (j * layout.cell_height) as u64,
        x1: extent_w(dims, layout) as u64,
        y1: (j * layout.cell_height) as u64,
    }
}

/// The full grid outline: `cols + 1` vertical segments followed by
/// `rows + 1` horizontal segments.
pub open spec fn grid_lines_spec(dims: GridDimensions, layout: CellLayout) -> Seq<Segment> {
    Seq::new((dims.cols + 1) as nat, |i: int| v_seg(dims, layout, i)) + Seq::new(
        (dims.rows + 1) as nat,
        |j: int| h_seg(dims, layout, j),
    )
}

/// The ordered segments of the grid outline. The output depends only on
/// `dims` and `layout`, so callers may cache it until either changes.
pub fn grid_lines(dims: GridDimensions, layout: CellLayout) -> (lines: Vec<Segment>)
    requires
        dims.valid(),
        layout.valid(),
        extent_fits(dims, layout),
    ensures
        lines@ == grid_lines_spec(dims, layout),
{
    let (width, height) = window_extent(dims, layout);
    let cols = dims.cols as u64;
    let rows = dims.rows as u64;
    let cw = layout.cell_width as u64;
    let ch = layout.cell_height as u64;
    proof {
        lemma_mul_inequality(1, layout.cell_width as int, dims.cols as int);
        lemma_mul_inequality(1, layout.cell_height as int, dims.rows as int);
        assert(dims.cols * (layout.cell_width as int) == (layout.cell_width as int) * dims.cols)
            by (nonlinear_arith);
        assert(dims.rows * (layout.cell_height as int) == (layout.cell_height as int) * dims.rows)
            by (nonlinear_arith);
    }
    let mut lines: Vec<Segment> = Vec::new();
    let mut i: u64 = 0;
    while i <= cols
        invariant
            cols == dims.cols,
            cw == layout.cell_width,
            height == extent_h(dims, layout),
            dims.valid(),
            layout.valid(),
            extent_fits(dims, layout),
            i <= cols + 1,
            cols < u64::MAX,
            lines@.len() == i,
            forall|k: int| 0 <= k < i ==> lines@[k] == v_seg(dims, layout, k),
        decreases cols + 1 - i,
    {
        proof {
            lemma_mul_inequality(i as int, dims.cols as int, layout.cell_width as int);
        }
        let x = i * cw;
        lines.push(Segment { x0: x, y0: 0, x1: x, y1: height });
        i = i + 1;
    }
    let mut j: u64 = 0;
    while j <= rows
        invariant
            rows == dims.rows,
            cols == dims.cols,
            ch == layout.cell_height,
            width == extent_w(dims, layout),
            dims.valid(),
            layout.valid(),
            extent_fits(dims, layout),
            j <= rows + 1,
            rows < u64::MAX,
            lines@.len() == dims.cols + 1 + j,
            forall|k: int| 0 <= k < dims.cols + 1 ==> lines@[k] == v_seg(dims, layout, k),
            forall|k: int| 0 <= k < j ==> lines@[dims.cols + 1 + k] == h_seg(dims, layout, k),
        decreases rows + 1 - j,
    {
        proof {
            lemma_mul_inequality(j as int, dims.rows as int, layout.cell_height as int);
        }
        let y = j * ch;
        lines.push(Segment { x0: 0, y0: y, x1: width, y1: y });
        j = j + 1;
    }
    proof {
        assert(lines@ =~= grid_lines_spec(dims, layout));
    }
    lines
}

/// The fill rectangles of the living cells of row `r` among columns
/// `0 .. k`, in column order.
pub open spec fn row_rects(
    dims: GridDimensions,
    layout: CellLayout,
    g: Seq<Seq<bool>>,
    r: int,
    k: int,
) -> Seq<Rect>
    decreases k,
{
    if k <= 0 {
        Seq::empty()
    } else {
        row_rects(dims, layout, g, r, k - 1) + if g[r][k - 1] {
            seq![cell_rect_spec(dims, layout, r, k - 1)]
        } else {
            Seq::empty()
        }
    }
}

/// The fill rectangles of all living cells among rows `0 .. k`, row-major.
pub open spec fn grid_rects(
    dims: GridDimensions,
    layout: CellLayout,
    g: Seq<Seq<bool>>,
    k: int,
) -> Seq<Rect>
    decreases k,
{
    if k <= 0 {
        Seq::empty()
    } else {
        grid_rects(dims, layout, g, k - 1) + row_rects(dims, layout, g, k - 1, dims.cols as int)
    }
}

/// A row contributes no rectangle exactly when all its cells are dead.
proof fn lemma_row_rects_empty(
    dims: GridDimensions,
    layout: CellLayout,
    g: Seq<Seq<bool>>,
    r: int,
    k: int,
)
    ensures
        (row_rects(dims, layout, g, r, k).len() == 0) <==> (forall|c: int|
            0 <= c < k ==> !(#[trigger] g[r][c])),
    decreases k,
{
    if k > 0 {
        lemma_row_rects_empty(dims, layout, g, r, k - 1);
    }
}

/// The whole grid contributes no rectangle exactly when every cell is dead.
proof fn lemma_grid_rects_empty(dims: GridDimensions, layout: CellLayout, g: Seq<Seq<bool>>, k: int)
    ensures
        (grid_rects(dims, layout, g, k).len() == 0) <==> (forall|r: int, c: int|
            0 <= r < k && 0 <= c < dims.cols ==> !(#[trigger] g[r][c])),
    decreases k,
{
    if k > 0 {
        lemma_grid_rects_empty(dims, layout, g, k - 1);
        lemma_row_rects_empty(dims, layout, g, k - 1, dims.cols as int);
    }
}

/// The fill rectangles of all living cells, row-major. The result is empty
/// exactly when every cell is dead; the renderer must check for emptiness and
/// skip drawing then, since a zero-primitive drawable is an error in the
/// rendering layer underneath.
pub fn live_cell_rects(dims: GridDimensions, layout: CellLayout, grid: &CellGrid) -> (rects: Vec<
    Rect,
>)
    requires
        grid_fits(grid@, dims),
        layout.valid(),
        rects_fit(dims, layout),
    ensures
        rects@ == grid_rects(dims, layout, grid@, dims.rows as int),
        (rects@.len() == 0) <==> (forall|r: int, c: int|
            0 <= r < dims.rows && 0 <= c < dims.cols ==> !(#[trigger] grid@[r][c])),
{
    let mut rects: Vec<Rect> = Vec::new();
    let mut r: usize = 0;
    while r < dims.rows
        invariant
            grid_fits(grid@, dims),
            layout.valid(),
            rects_fit(dims, layout),
            r <= dims.rows,
            rects@ == grid_rects(dims, layout, grid@, r as int),
        decreases dims.rows - r,
    {
        let mut c: usize = 0;
        while c < dims.cols
            invariant
                grid_fits(grid@, dims),
                layout.valid(),
                rects_fit(dims, layout),
                r < dims.rows,
                c <= dims.cols,
                rects@ == grid_rects(dims, layout, grid@, r as int) + row_rects(
                    dims,
                    layout,
                    grid@,
                    r as int,
                    c as int,
                ),
            decreases dims.cols - c,
        {
            if grid.get(CellIndex { row: r, col: c }) {
                let rect = cell_rect(dims, layout, CellIndex { row: r, col: c });
                rects.push(rect);
            }
            c = c + 1;
        }
        r = r + 1;
    }
    proof {
        lemma_grid_rects_empty(dims, layout, grid@, dims.rows as int);
    }
    rects
}

/// A segment standing upright: both endpoints share their x coordinate.
pub open spec fn is_vertical(s: Segment) -> bool {
    s.x0 == s.x1
}

/// A segment lying flat: both endpoints share their y coordinate.
pub open spec fn is_horizontal(s: Segment) -> bool {
    s.y0 == s.y1
}

/// Filtering keeps a sequence whole when the predicate holds of every element.
proof fn lemma_filter_keeps_all<A>(s: Seq<A>, pred: spec_fn(A) -> bool)
    requires
        forall|i: int| 0 <= i < s.len() ==> pred(#[trigger] s[i]),
    ensures
        s.filter(pred) == s,
    decreases s.len(),
{
    reveal(Seq::filter);
    if s.len() == 0 {
        assert(s.filter(pred) =~= s);
    } else {
        assert forall|i: int| 0 <= i < s.drop_last().len() implies pred(#[trigger] s.drop_last()[i]) by {
            assert(s.drop_last()[i] == s[i]);
        }
        lemma_filter_keeps_all(s.drop_last(), pred);
        assert(pred(s.last()));
        assert(s.filter(pred) =~= s);
    }
}

/// The grid outline holds exactly `cols + 1` vertical and `rows + 1`
/// horizontal segments, in that order.
pub proof fn lemma_grid_lines_counts(dims: GridDimensions, layout: CellLayout)
    requires
        dims.valid(),
        layout.valid(),
        extent_fits(dims, layout),
    ensures
        grid_lines_spec(dims, layout).len() == dims.cols + 1 + dims.rows + 1,
        (grid_lines_spec(dims, layout).filter(|s: Segment| is_vertical(s)).len() == dims.cols + 1),
        (grid_lines_spec(dims, layout).filter(|s: Segment| is_horizontal(s)).len() == dims.rows
            + 1),
{
    let verticals = Seq::new((dims.cols + 1) as nat, |i: int| v_seg(dims, layout, i));
    let horizontals = Seq::new((dims.rows + 1) as nat, |j: int| h_seg(dims, layout, j));
    assert(extent_w(dims, layout) >= 1 && extent_h(dims, layout) >= 1) by (nonlinear_arith)
        requires
            dims.rows >= 1 && dims.cols >= 1 && layout.cell_width >= 1 && layout.cell_height >= 1,
    ;
    let vert = |s: Segment| is_vertical(s);
    let horiz = |s: Segment| is_horizontal(s);
    assert forall|i: int| 0 <= i < verticals.len() implies vert(#[trigger] verticals[i])
        && !horiz(verticals[i]) by {
        assert(extent_h(dims, layout) as u64 != 0);
    }
    assert forall|j: int| 0 <= j < horizontals.len() implies horiz(#[trigger] horizontals[j])
        && !vert(horizontals[j]) by {
        assert(extent_w(dims, layout) as u64 != 0);
    }
    Seq::filter_distributes_over_add(verticals, horizontals, vert);
    Seq::filter_distributes_over_add(verticals, horizontals, horiz);
    lemma_filter_keeps_all(verticals, vert);
    lemma_filter_keeps_all(horizontals, horiz);
    verticals.lemma_all_neg_filter_empty(horiz);
    horizontals.lemma_all_neg_filter_empty(vert);
}

} // verus!
