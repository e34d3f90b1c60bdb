//! The pair of difference grids: how it is built from a raster, binarised,
//! and read as line segments.

use crate::color::{perceptual_distance, Rgb};
use crate::line::{
    closed_runs, column_lines, column_of, horizontal_line, horizontal_lines,
    lemma_no_runs_without_change, open_run_start, row_lines, vertical_line, vertical_lines,
    Direction, Line,
};
use crate::plane::{
    fits_in_memory, grid_cells, grid_col_count, grid_cols, grid_get, grid_new, grid_row_count,
    grid_set, grid_shape, rectangular,
};
use crate::raster::{is_raster, Raster};
use crate::sample::{
    is_on, lemma_threshold_idempotent, threshold_sample, thresholded, NORMALIZER,
};
use grid::Grid;
use vstd::prelude::*;

verus! {

/// The two difference grids of a raster.  Field 0 holds, for each pixel, the
/// difference to its right neighbour; field 1 holds the difference to the
/// neighbour below.
pub struct GridPair(pub Grid<u32>, pub Grid<u32>);

/// What a grid pair holds: the cells of grid 0 (`across`) and of grid 1
/// (`down`), each as a sequence of rows, and their column counts.
pub ghost struct PairView {
    pub across: Seq<Seq<u32>>,
    pub across_cols: nat,
    pub down: Seq<Seq<u32>>,
    pub down_cols: nat,
}

impl View for GridPair {
    type V = PairView;

    open spec fn view(&self) -> PairView {
        PairView {
            across: grid_cells(self.0),
            across_cols: grid_cols(self.0),
            down: grid_cells(self.1),
            down_cols: grid_cols(self.1),
        }
    }
}

/// `after` is `before` with every cell replaced by a value that `f` may
/// return for it.
pub open spec fn mapped_by<F: Fn(u32) -> u32>(
    f: F,
    before: Seq<Seq<u32>>,
    after: Seq<Seq<u32>>,
) -> bool {
    &&& after.len() == before.len()
    &&& forall|r: int| 0 <= r < before.len() ==> (#[trigger] after[r]).len() == before[r].len()
    &&& forall|r: int, c: int|
        0 <= r < before.len() && 0 <= c < before[r].len() ==> call_ensures(
            f,
            (before[r][c],),
            #[trigger] after[r][c],
        )
}

impl PairView {
    /// Every row of either grid has as many cells as the grid has columns.
    pub open spec fn wf(self) -> bool {
        &&& rectangular(self.across, self.across_cols)
        &&& rectangular(self.down, self.down_cols)
    }

    /// The grids have the shape that belongs to a raster of `width` by
    /// `height` pixels: `height` rows of `width - 1` cells across, and
    /// `height - 1` rows of `width` cells down.  A grid that would have no
    /// cells has no rows and no columns.
    pub open spec fn shaped_for(self, width: nat, height: nat) -> bool {
        &&& self.wf()
        &&& (self.across.len(), self.across_cols) == grid_shape(height, (width - 1) as nat)
        &&& (self.down.len(), self.down_cols) == grid_shape((height - 1) as nat, width)
    }

    /// The grids hold, for every pair of neighbouring pixels of `raster`, a
    /// value that `measure` may return for the pair.
    pub open spec fn built_from<F: Fn(Rgb, Rgb) -> u32>(
        self,
        measure: F,
        raster: Seq<Seq<Rgb>>,
    ) -> bool {
        &&& self.shaped_for(raster[0].len(), raster.len())
        &&& forall|r: int, c: int|
            0 <= r < self.across.len() && 0 <= c < self.across_cols ==> call_ensures(
                measure,
                (raster[r][c], raster[r][c + 1]),
                #[trigger] self.across[r][c],
            )
        &&& forall|r: int, c: int|
            0 <= r < self.down.len() && 0 <= c < self.down_cols ==> call_ensures(
                measure,
                (raster[r][c], raster[r + 1][c]),
                #[trigger] self.down[r][c],
            )
    }

    /// Both grids with every cell replaced by a value that `f` may return
    /// for it.
    pub open spec fn mapped_from<F: Fn(u32) -> u32>(self, before: PairView, f: F) -> bool {
        &&& self.across_cols == before.across_cols
        &&& self.down_cols == before.down_cols
        &&& mapped_by(f, before.across, self.across)
        &&& mapped_by(f, before.down, self.down)
    }

    /// Both grids binarised against `cutoff`.
    pub open spec fn thresholded(self, cutoff: u32) -> PairView {
        PairView {
            across: thresholded(self.across, cutoff),
            across_cols: self.across_cols,
            down: thresholded(self.down, cutoff),
            down_cols: self.down_cols,
        }
    }

    /// The segments of both grids: the vertical segments read down the
    /// columns of `across`, column by column, followed by the horizontal
    /// segments read along the rows of `down`, row by row.
    pub open spec fn lines(self) -> Seq<Line> {
        vertical_lines(self.across, self.across_cols as int) + horizontal_lines(
            self.down,
            self.down.len() as int,
        )
    }

    /// The segment has at least one cell and lies inside the grid that its
    /// direction is read from.
    pub open spec fn holds(self, l: Line) -> bool {
        match l.dir {
            Direction::Vertical => l.within(self.across_cols as int, self.across.len() as int),
            Direction::Horizontal => l.within(self.down_cols as int, self.down.len() as int),
        }
    }
}

proof fn lemma_mapped_exact<F: Fn(u32) -> u32>(
    f: F,
    before: Seq<Seq<u32>>,
    after: Seq<Seq<u32>>,
    cutoff: u32,
)
    requires
        mapped_by(f, before, after),
        forall|v: u32, w: u32| call_ensures(f, (v,), w) ==> w == threshold_sample(v, cutoff),
    ensures
        after == thresholded(before, cutoff),
{
    let expected = thresholded(before, cutoff);
    assert forall|r: int| 0 <= r < before.len() implies #[trigger] after[r] == expected[r] by {
        assert forall|c: int| 0 <= c < before[r].len() implies #[trigger] after[r][c]
            == expected[r][c] by {}
        assert(after[r] =~= expected[r]);
    }
    assert(after =~= expected);
}

proof fn lemma_smaller_fits(rows: nat, cols: nat, more_rows: nat, more_cols: nat)
    requires
        rows <= more_rows,
        cols <= more_cols,
        fits_in_memory(more_rows, more_cols),
    ensures
        fits_in_memory(rows, cols),
{
    assert(rows * cols <= more_rows * more_cols) by (nonlinear_arith)
        requires
            rows <= more_rows,
            cols <= more_cols,
    ;
}

fn map_grid<F: Fn(u32) -> u32>(g: &mut Grid<u32>, f: &F)
    requires
        forall|v: u32| call_requires(*f, (v,)),
    ensures
        grid_cols(*final(g)) == grid_cols(*old(g)),
        mapped_by(*f, grid_cells(*old(g)), grid_cells(*final(g))),
{
    let rows = grid_row_count(g);
    let cols = grid_col_count(g);
    let mut r: usize = 0;
    while r < rows
        invariant
            r <= rows,
            rows == grid_cells(*old(g)).len(),
            cols == grid_cols(*old(g)),
            rectangular(grid_cells(*old(g)), cols as nat),
            forall|v: u32| call_requires(*f, (v,)),
            grid_cols(*g) == cols,
            grid_cells(*g).len() == rows,
            rectangular(grid_cells(*g), cols as nat),
            forall|i: int, c: int|
                0 <= i < r && 0 <= c < cols ==> call_ensures(
                    *f,
                    (grid_cells(*old(g))[i][c],),
                    #[trigger] grid_cells(*g)[i][c],
                ),
            forall|i: int| r <= i < rows ==> #[trigger] grid_cells(*g)[i] == grid_cells(*old(g))[i],
        decreases rows - r,
    {
        let mut c: usize = 0;
        while c < cols
            invariant
                r < rows,
                c <= cols,
                rows == grid_cells(*old(g)).len(),
                cols == grid_cols(*old(g)),
                rectangular(grid_cells(*old(g)), cols as nat),
                forall|v: u32| call_requires(*f, (v,)),
                grid_cols(*g) == cols,
                grid_cells(*g).len() == rows,
                rectangular(grid_cells(*g), cols as nat),
                forall|i: int, k: int|
                    0 <= i < r && 0 <= k < cols ==> call_ensures(
                        *f,
                        (grid_cells(*old(g))[i][k],),
                        #[trigger] grid_cells(*g)[i][k],
                    ),
                forall|k: int|
                    0 <= k < c ==> call_ensures(
                        *f,
                        (grid_cells(*old(g))[r as int][k],),
                        #[trigger] grid_cells(*g)[r as int][k],
                    ),
                forall|k: int|
                    c <= k < cols ==> #[trigger] grid_cells(*g)[r as int][k] == grid_cells(
                        *old(g),
                    )[r as int][k],
                forall|i: int|
                    r < i < rows ==> #[trigger] grid_cells(*g)[i] == grid_cells(*old(g))[i],
            decreases cols - c,
        {
            let v = grid_get(g, r, c);
            let w = f(v);
            grid_set(g, r, c, w);
            c += 1;
        }
        r += 1;
    }
}

/// Appends the segments of column `col` of `g` to `out`.
fn scan_column(g: &Grid<u32>, col: usize, rows: usize, out: &mut Vec<Line>)
    requires
        rows == grid_cells(*g).len(),
        col < grid_cols(*g),
        rectangular(grid_cells(*g), grid_cols(*g)),
    ensures
        final(out)@ == old(out)@ + column_lines(grid_cells(*g), col as int, rows as int),
        forall|i: int|
            old(out).len() <= i < final(out).len() ==> {
                &&& (#[trigger] final(out)[i]).dir == Direction::Vertical
                &&& final(out)[i].within(grid_cols(*g) as int, rows as int)
            },
{
    let ghost line = column_of(grid_cells(*g), col as int);
    let mut start: Option<usize> = None;
    let mut idx: usize = 0;
    while idx < rows
        invariant
            idx <= rows,
            rows == grid_cells(*g).len(),
            col < grid_cols(*g),
            rectangular(grid_cells(*g), grid_cols(*g)),
            line == column_of(grid_cells(*g), col as int),
            out@ == old(out)@ + column_lines(grid_cells(*g), col as int, idx as int),
            forall|i: int|
                old(out).len() <= i < out.len() ==> {
                    &&& (#[trigger] out[i]).dir == Direction::Vertical
                    &&& out[i].within(grid_cols(*g) as int, rows as int)
                },
            match start {
                Some(s) => s < idx && s == open_run_start(line, idx as int),
                None => open_run_start(line, idx as int) == idx,
            },
        decreases rows - idx,
    {
        let val = grid_get(g, idx, col);
        assert(val == line[idx as int]);
        let ghost before = closed_runs(line, idx as int);
        let ghost f = |run: (int, int)| vertical_line(col as int, run);
        match start {
            None => {
                if val >= NORMALIZER {
                    start = Some(idx);
                }
            },
            Some(start_idx) => {
                if val < NORMALIZER {
                    out.push(
                        Line {
                            dir: Direction::Vertical,
                            x: col,
                            y: start_idx,
                            len: idx - start_idx,
                        },
                    );
                    start = None;
                    assert(before.push((start_idx as int, idx - start_idx)).map_values(f)
                        =~= before.map_values(f).push(f((start_idx as int, idx - start_idx))));
                }
            },
        }
        idx += 1;
    }
}

/// Appends the segments of row `row` of `g` to `out`.
fn scan_row(g: &Grid<u32>, row: usize, cols: usize, out: &mut Vec<Line>)
    requires
        row < grid_cells(*g).len(),
        cols == grid_cols(*g),
        rectangular(grid_cells(*g), grid_cols(*g)),
    ensures
        final(out)@ == old(out)@ + row_lines(grid_cells(*g), row as int, cols as int),
        forall|i: int|
            old(out).len() <= i < final(out).len() ==> {
                &&& (#[trigger] final(out)[i]).dir == Direction::Horizontal
                &&& final(out)[i].within(cols as int, grid_cells(*g).len() as int)
            },
{
    let ghost line = grid_cells(*g)[row as int];
    let mut start: Option<usize> = None;
    let mut idx: usize = 0;
    while idx < cols
        invariant
            idx <= cols,
            row < grid_cells(*g).len(),
            cols == grid_cols(*g),
            rectangular(grid_cells(*g), grid_cols(*g)),
            line == grid_cells(*g)[row as int],
            out@ == old(out)@ + row_lines(grid_cells(*g), row as int, idx as int),
            forall|i: int|
                old(out).len() <= i < out.len() ==> {
                    &&& (#[trigger] out[i]).dir == Direction::Horizontal
                    &&& out[i].within(cols as int, grid_cells(*g).len() as int)
                },
            match start {
                Some(s) => s < idx && s == open_run_start(line, idx as int),
                None => open_run_start(line, idx as int) == idx,
            },
        decreases cols - idx,
    {
        let val = grid_get(g, row, idx);
        let ghost before = closed_runs(line, idx as int);
        let ghost f = |run: (int, int)| horizontal_line(row as int, run);
        match start {
            None => {
                if val >= NORMALIZER {
                    start = Some(idx);
                }
            },
            Some(start_idx) => {
                if val < NORMALIZER {
                    out.push(
                        Line {
                            dir: Direction::Horizontal,
                            x: start_idx,
                            y: row,
                            len: idx - start_idx,
                        },
                    );
                    start = None;
                    assert(before.push((start_idx as int, idx - start_idx)).map_values(f)
                        =~= before.map_values(f).push(f((start_idx as int, idx - start_idx))));
                }
            },
        }
        idx += 1;
    }
}

impl GridPair {
    /// Builds the difference grids of `raster` with `measure` as the
    /// difference between two pixels.  Each row is walked from left to right
    /// and each column from top to bottom; every pair of neighbours is
    /// measured once per grid, the earlier pixel first, and the value is
    /// stored at the position of the earlier pixel.
    pub fn from_raster_with<F: Fn(Rgb, Rgb) -> u32>(raster: &Raster, measure: F) -> (pair: GridPair)
        requires
            forall|a: Rgb, b: Rgb| call_requires(measure, (a, b)),
        ensures
            is_raster(raster@),
            pair@.built_from(measure, raster@),
    {
        let width = raster.width();
        let height = raster.height();
        proof {
            lemma_smaller_fits(height as nat, (width - 1) as nat, height as nat, width as nat);
            lemma_smaller_fits((height - 1) as nat, width as nat, height as nat, width as nat);
        }
        let mut across = grid_new(height, width - 1);
        let rows = grid_row_count(&across);
        let cols = grid_col_count(&across);
        let mut row: usize = 0;
        while row < rows
            invariant
                row <= rows,
                is_raster(raster@),
                height == raster@.len(),
                width == raster@[0].len(),
                (rows as nat, cols as nat) == grid_shape(height as nat, (width - 1) as nat),
                forall|a: Rgb, b: Rgb| call_requires(measure, (a, b)),
                grid_cells(across).len() == rows,
                grid_cols(across) == cols,
                rectangular(grid_cells(across), cols as nat),
                forall|r: int, c: int|
                    0 <= r < row && 0 <= c < cols ==> call_ensures(
                        measure,
                        (raster@[r][c], raster@[r][c + 1]),
                        #[trigger] grid_cells(across)[r][c],
                    ),
            decreases rows - row,
        {
            let mut prev = raster.pixel(0, row);
            let mut col: usize = 0;
            while col < cols
                invariant
                    row < rows,
                    col <= cols,
                    is_raster(raster@),
                    height == raster@.len(),
                    width == raster@[0].len(),
                    (rows as nat, cols as nat) == grid_shape(height as nat, (width - 1) as nat),
                    forall|a: Rgb, b: Rgb| call_requires(measure, (a, b)),
                    grid_cells(across).len() == rows,
                    grid_cols(across) == cols,
                    rectangular(grid_cells(across), cols as nat),
                    prev == raster@[row as int][col as int],
                    forall|r: int, c: int|
                        0 <= r < row && 0 <= c < cols ==> call_ensures(
                            measure,
                            (raster@[r][c], raster@[r][c + 1]),
                            #[trigger] grid_cells(across)[r][c],
                        ),
                    forall|c: int|
                        0 <= c < col ==> call_ensures(
                            measure,
                            (raster@[row as int][c], raster@[row as int][c + 1]),
                            #[trigger] grid_cells(across)[row as int][c],
                        ),
                decreases cols - col,
            {
                let curr = raster.pixel(col + 1, row);
                let diff = measure(prev, curr);
                grid_set(&mut across, row, col, diff);
                prev = curr;
                col += 1;
            }
            row += 1;
        }
        let mut down = grid_new(height - 1, width);
        let rows = grid_row_count(&down);
        let cols = grid_col_count(&down);
        let mut col: usize = 0;
        while col < cols
            invariant
                col <= cols,
                is_raster(raster@),
                height == raster@.len(),
                width == raster@[0].len(),
                (rows as nat, cols as nat) == grid_shape((height - 1) as nat, width as nat),
                forall|a: Rgb, b: Rgb| call_requires(measure, (a, b)),
                grid_cells(down).len() == rows,
                grid_cols(down) == cols,
                rectangular(grid_cells(down), cols as nat),
                forall|r: int, c: int|
                    0 <= r < rows && 0 <= c < col ==> call_ensures(
                        measure,
                        (raster@[r][c], raster@[r + 1][c]),
                        #[trigger] grid_cells(down)[r][c],
                    ),
            decreases cols - col,
        {
            let mut prev = raster.pixel(col, 0);
            let mut row: usize = 0;
            while row < rows
                invariant
                    col < cols,
                    row <= rows,
                    is_raster(raster@),
                    height == raster@.len(),
                    width == raster@[0].len(),
                    (rows as nat, cols as nat) == grid_shape((height - 1) as nat, width as nat),
                    forall|a: Rgb, b: Rgb| call_requires(measure, (a, b)),
                    grid_cells(down).len() == rows,
                    grid_cols(down) == cols,
                    rectangular(grid_cells(down), cols as nat),
                    prev == raster@[row as int][col as int],
                    forall|r: int, c: int|
                        0 <= r < rows && 0 <= c < col ==> call_ensures(
                            measure,
                            (raster@[r][c], raster@[r + 1][c]),
                            #[trigger] grid_cells(down)[r][c],
                        ),
                    forall|r: int|
                        0 <= r < row ==> call_ensures(
                            measure,
                            (raster@[r][col as int], raster@[r + 1][col as int]),
                            #[trigger] grid_cells(down)[r][col as int],
                        ),
                decreases rows - row,
            {
                let curr = raster.pixel(col, row + 1);
                let diff = measure(prev, curr);
                grid_set(&mut down, row, col, diff);
                prev = curr;
                row += 1;
            }
            col += 1;
        }
        GridPair(across, down)
    }

    /// Builds the difference grids of `raster` from the perceptual distance
    /// between neighbouring pixels: every cell holds a value that
    /// `perceptual_distance` may return for its pair of neighbours, the
    /// earlier pixel first.
    pub fn from_raster(raster: &Raster) -> (pair: GridPair)
        ensures
            is_raster(raster@),
            pair@.built_from(perceptual_distance, raster@),
    {
        GridPair::from_raster_with(raster, perceptual_distance)
    }

    /// Replaces every cell of both grids by what `f` returns for it.
    pub fn filter<F: Fn(u32) -> u32>(&mut self, f: F)
        requires
            forall|v: u32| call_requires(f, (v,)),
        ensures
            final(self)@.mapped_from(old(self)@, f),
    {
        map_grid(&mut self.0, &f);
        map_grid(&mut self.1, &f);
    }

    /// Binarises both grids against `cutoff`: a cell that reaches the cutoff
    /// becomes 1.0, every other cell 0.0.
    pub fn threshold(&mut self, cutoff: u32)
        ensures
            final(self)@ == old(self)@.thresholded(cutoff),
    {
        let binarise = |v: u32| -> (w: u32)
            ensures
                w == threshold_sample(v, cutoff),
            {
                if v >= cutoff {
                    NORMALIZER
                } else {
                    0
                }
            };
        self.filter(binarise);
        proof {
            lemma_mapped_exact(binarise, old(self)@.across, self@.across, cutoff);
            lemma_mapped_exact(binarise, old(self)@.down, self@.down, cutoff);
        }
    }

    /// Extracts the closed runs of "on" cells of both grids as segments.
    /// Grid 0 is scanned down its columns and yields vertical segments; grid 1
    /// is scanned along its rows and yields horizontal segments.  A run that
    /// is still open where its scan line ends yields nothing.
    pub fn lines(&self) -> (lines: Vec<Line>)
        ensures
            lines@ == self@.lines(),
            forall|i: int| 0 <= i < lines.len() ==> self@.holds(#[trigger] lines[i]),
    {
        let mut lines: Vec<Line> = Vec::new();
        let rows0 = grid_row_count(&self.0);
        let cols0 = grid_col_count(&self.0);
        let mut col: usize = 0;
        while col < cols0
            invariant
                col <= cols0,
                rows0 == grid_cells(self.0).len(),
                cols0 == grid_cols(self.0),
                rectangular(grid_cells(self.0), grid_cols(self.0)),
                lines@ == vertical_lines(grid_cells(self.0), col as int),
                forall|i: int| 0 <= i < lines.len() ==> self@.holds(#[trigger] lines[i]),
            decreases cols0 - col,
        {
            scan_column(&self.0, col, rows0, &mut lines);
            col += 1;
        }
        let rows1 = grid_row_count(&self.1);
        let cols1 = grid_col_count(&self.1);
        let mut row: usize = 0;
        while row < rows1
            invariant
                row <= rows1,
                rows1 == grid_cells(self.1).len(),
                cols1 == grid_cols(self.1),
                rectangular(grid_cells(self.1), grid_cols(self.1)),
                lines@ == vertical_lines(grid_cells(self.0), cols0 as int) + horizontal_lines(
                    grid_cells(self.1),
                    row as int,
                ),
                forall|i: int| 0 <= i < lines.len() ==> self@.holds(#[trigger] lines[i]),
            decreases rows1 - row,
        {
            scan_row(&self.1, row, cols1, &mut lines);
            row += 1;
        }
        lines
    }
}

/// For a raster of at least two columns and two rows, grid 0 has as many
/// rows as the raster and one column less, and grid 1 has one row less and
/// as many columns.
pub proof fn lemma_shape_of_difference_grids(pair: PairView, width: nat, height: nat)
    requires
        pair.shaped_for(width, height),
        width >= 2,
        height >= 2,
    ensures
        pair.across.len() == height,
        pair.across_cols == width - 1,
        forall|r: int| 0 <= r < height ==> (#[trigger] pair.across[r]).len() == width - 1,
        pair.down.len() == height - 1,
        pair.down_cols == width,
        forall|r: int| 0 <= r < height - 1 ==> (#[trigger] pair.down[r]).len() == width,
{
}

/// Binarising a grid pair twice gives what binarising it once gives, as
/// long as the cutoff does not exceed 1.0.
pub proof fn lemma_threshold_twice(pair: PairView, cutoff: u32)
    requires
        cutoff <= NORMALIZER,
    ensures
        pair.thresholded(cutoff).thresholded(cutoff) == pair.thresholded(cutoff),
{
    lemma_threshold_idempotent(pair.across, cutoff);
    lemma_threshold_idempotent(pair.down, cutoff);
}

/// A plane whose cells are all "on" or all "off" yields no segment in
/// either direction.
pub proof fn lemma_flat_plane_has_no_lines(plane: Seq<Seq<u32>>, cols: nat, on: bool, n: int)
    requires
        rectangular(plane, cols),
        forall|r: int, c: int|
            0 <= r < plane.len() && 0 <= c < cols ==> is_on(#[trigger] plane[r][c]) == on,
    ensures
        n <= cols ==> vertical_lines(plane, n) == Seq::<Line>::empty(),
        n <= plane.len() ==> horizontal_lines(plane, n) == Seq::<Line>::empty(),
    decreases n,
{
    if n > 0 {
        lemma_flat_plane_has_no_lines(plane, cols, on, n - 1);
        if n <= cols {
            let line = column_of(plane, n - 1);
            assert forall|i: int, j: int| 0 <= i < line.len() && 0 <= j < line.len() implies is_on(
                #[trigger] line[i],
            ) == is_on(#[trigger] line[j]) by {
                assert(is_on(plane[i][n - 1]) == on);
                assert(is_on(plane[j][n - 1]) == on);
            }
            lemma_no_runs_without_change(line, plane.len() as int);
            assert(vertical_lines(plane, n) =~= Seq::<Line>::empty());
        }
        if n <= plane.len() {
            let line = plane[n - 1];
            assert forall|i: int, j: int| 0 <= i < line.len() && 0 <= j < line.len() implies is_on(
                #[trigger] line[i],
            ) == is_on(#[trigger] line[j]) by {
                assert(is_on(plane[n - 1][i]) == on);
                assert(is_on(plane[n - 1][j]) == on);
            }
            lemma_no_runs_without_change(line, line.len() as int);
            assert(horizontal_lines(plane, n) =~= Seq::<Line>::empty());
        }
    }
}

/// A raster whose pixels are all the same colour has difference grids that
/// are zero everywhere, provided the measure finds no difference between a
/// colour and itself; whatever the cutoff, the binarised grids then yield no
/// segment, and with a cutoff above zero they are zero everywhere too.
pub proof fn lemma_uniform_raster_has_no_lines<F: Fn(Rgb, Rgb) -> u32>(
    pair: PairView,
    measure: F,
    raster: Seq<Seq<Rgb>>,
    colour: Rgb,
    cutoff: u32,
)
    requires
        is_raster(raster),
        forall|x: int, y: int|
            0 <= y < raster.len() && 0 <= x < raster[0].len() ==> #[trigger] raster[y][x]
                == colour,
        pair.built_from(measure, raster),
        forall|d: u32| call_ensures(measure, (colour, colour), d) ==> d == 0,
    ensures
        forall|r: int, c: int|
            0 <= r < pair.across.len() && 0 <= c < pair.across_cols ==> #[trigger] pair.across[r][c]
                == 0,
        forall|r: int, c: int|
            0 <= r < pair.down.len() && 0 <= c < pair.down_cols ==> #[trigger] pair.down[r][c]
                == 0,
        cutoff > 0 ==> pair.thresholded(cutoff) == pair,
        pair.thresholded(cutoff).lines() == Seq::<Line>::empty(),
{
    assert forall|r: int, c: int|
        0 <= r < pair.across.len() && 0 <= c < pair.across_cols implies #[trigger] pair.across[r][c]
        == 0 by {
        assert(raster[r][c] == colour);
        assert(raster[r][c + 1] == colour);
    }
    assert forall|r: int, c: int|
        0 <= r < pair.down.len() && 0 <= c < pair.down_cols implies #[trigger] pair.down[r][c]
        == 0 by {
        assert(raster[r][c] == colour);
        assert(raster[r + 1][c] == colour);
    }
    let after = pair.thresholded(cutoff);
    let on = is_on(threshold_sample(0, cutoff));
    lemma_flat_plane_has_no_lines(after.across, after.across_cols, on, after.across_cols as int);
    lemma_flat_plane_has_no_lines(after.down, after.down_cols, on, after.down.len() as int);
    if cutoff > 0 {
        assert forall|r: int| 0 <= r < pair.across.len() implies #[trigger] after.across[r]
            == pair.across[r] by {
            assert(after.across[r] =~= pair.across[r]);
        }
        assert(after.across =~= pair.across);
        assert forall|r: int| 0 <= r < pair.down.len() implies #[trigger] after.down[r]
            == pair.down[r] by {
            assert(after.down[r] =~= pair.down[r]);
        }
        assert(after.down =~= pair.down);
    }
}

} // verus!
