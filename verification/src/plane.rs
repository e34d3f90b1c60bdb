//! Two-dimensional planes of samples, stored in `grid::Grid<u32>`.
//!
//! The grid type belongs to the `grid` crate and is opaque to the verifier.
//! What a grid holds is named by [`grid_cells`] (its rows, top to bottom, each
//! a sequence of cells from left to right) and [`grid_cols`] (its column
//! count); the functions below give the crate's accessors their meaning over
//! these two names.  Their contracts are assumed, not proved.

use grid::Grid;
use vstd::prelude::*;

verus! {

#[verifier::external_type_specification]
#[verifier::external_body]
#[verifier::reject_recursive_types(T)]
pub struct ExGrid<T>(Grid<T>);

/// The cells of a grid, as a sequence of rows.
pub uninterp spec fn grid_cells(g: Grid<u32>) -> Seq<Seq<u32>>;

/// The number of columns of a grid.
pub uninterp spec fn grid_cols(g: Grid<u32>) -> nat;

/// Every row of `cells` has exactly `cols` cells.
pub open spec fn rectangular(cells: Seq<Seq<u32>>, cols: nat) -> bool {
    forall|r: int| 0 <= r < cells.len() ==> (#[trigger] cells[r]).len() == cols
}

/// A plane of `rows` by `cols` cells that all hold `v`.
pub open spec fn uniform_plane(rows: nat, cols: nat, v: u32) -> Seq<Seq<u32>> {
    Seq::new(rows, |r: int| Seq::new(cols, |c: int| v))
}

/// The shape `Grid::new` gives a grid asked to be `rows` by `cols`: a grid
/// with no rows or no columns has neither.
pub open spec fn grid_shape(rows: nat, cols: nat) -> (nat, nat) {
    if rows == 0 || cols == 0 {
        (0, 0)
    } else {
        (rows, cols)
    }
}

/// A grid of `rows` by `cols` samples takes no more memory than one
/// allocation may have.
pub open spec fn fits_in_memory(rows: nat, cols: nat) -> bool {
    rows * cols * 4 <= isize::MAX
}

/// Tests whether a grid of `rows` by `cols` samples can be allocated.
pub fn cells_fit(rows: usize, cols: usize) -> (fit: bool)
    ensures
        fit == fits_in_memory(rows as nat, cols as nat),
{
    match rows.checked_mul(cols) {
        None => false,
        Some(n) => n <= (isize::MAX as usize) / 4,
    }
}

/// `Grid::new(rows, cols)`: a grid of default cells, which for `u32` is zero.
/// When either dimension is zero the grid comes out with zero rows and zero
/// columns.  The call panics when `rows * cols` overflows, and the vector
/// behind it when the cells take more than `isize::MAX` bytes; both are
/// excluded here.
#[verifier::external_body]
pub(crate) fn grid_new(rows: usize, cols: usize) -> (g: Grid<u32>)
    requires
        fits_in_memory(rows as nat, cols as nat),
    ensures
        grid_cells(g) == uniform_plane(grid_shape(rows as nat, cols as nat).0, grid_shape(rows as nat, cols as nat).1, 0),
        grid_cols(g) == grid_shape(rows as nat, cols as nat).1,
{
    Grid::new(rows, cols)
}

/// `Grid::rows`: the number of rows.
#[verifier::external_body]
pub(crate) fn grid_row_count(g: &Grid<u32>) -> (n: usize)
    ensures
        n == grid_cells(*g).len(),
{
    g.rows()
}

/// `Grid::cols`: the number of columns, which is the length of every row.
#[verifier::external_body]
pub(crate) fn grid_col_count(g: &Grid<u32>) -> (n: usize)
    ensures
        n == grid_cols(*g),
        rectangular(grid_cells(*g), n as nat),
{
    g.cols()
}

/// `Index<(usize, usize)>` of `Grid`: the cell at `(row, col)`.  The call
/// panics outside the grid, which is excluded here.
#[verifier::external_body]
pub(crate) fn grid_get(g: &Grid<u32>, row: usize, col: usize) -> (v: u32)
    requires
        row < grid_cells(*g).len(),
        col < grid_cols(*g),
    ensures
        v == grid_cells(*g)[row as int][col as int],
{
    g[(row, col)]
}

/// `IndexMut<(usize, usize)>` of `Grid`: stores `v` at `(row, col)` and leaves
/// every other cell and the shape as they were.  The call panics outside the
/// grid, which is excluded here.
#[verifier::external_body]
pub(crate) fn grid_set(g: &mut Grid<u32>, row: usize, col: usize, v: u32)
    requires
        row < grid_cells(*old(g)).len(),
        col < grid_cols(*old(g)),
    ensures
        grid_cols(*final(g)) == grid_cols(*old(g)),
        grid_cells(*final(g)) == grid_cells(*old(g)).update(
            row as int,
            grid_cells(*old(g))[row as int].update(col as int, v),
        ),
{
    g[(row, col)] = v;
}

} // verus!
