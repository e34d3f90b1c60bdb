//! Line segments and the runs of "on" cells they are read from.

use crate::sample::is_on;
use vstd::prelude::*;

verus! {

/// The axis along which a segment runs.
#[derive(Clone, Copy, Debug, PartialEq, Eq, Structural)]
pub enum Direction {
    Horizontal,
    Vertical,
}

/// A straight segment of `len` cells.  A horizontal segment starts at its
/// leftmost cell `(x, y)` and extends to the right along row `y`; a vertical
/// segment starts at its topmost cell `(x, y)` and extends down column `x`.
#[derive(Clone, Copy, Debug, PartialEq, Eq, Structural)]
pub struct Line {
    pub dir: Direction,
    pub x: usize,
    pub y: usize,
    pub len: usize,
}

impl Line {
    /// Tests whether every cell of the segment lies in an area of `width`
    /// columns and `height` rows.
    pub fn is_inside(&self, width: usize, height: usize) -> (inside: bool)
        ensures
            inside == self.fits(width as int, height as int),
    {
        if self.len == 0 {
            true
        } else {
            match self.dir {
                Direction::Horizontal => self.y < height && self.x <= width && self.len <= width
                    - self.x,
                Direction::Vertical => self.x < width && self.y <= height && self.len <= height
                    - self.y,
            }
        }
    }

    /// The segment covers the cell in column `x` of row `y`.
    pub open spec fn covers(self, x: int, y: int) -> bool {
        match self.dir {
            Direction::Horizontal => y == self.y && self.x <= x < self.x + self.len,
            Direction::Vertical => x == self.x && self.y <= y < self.y + self.len,
        }
    }

    /// Every cell that the segment covers lies in an area of `width` columns
    /// and `height` rows.  A segment of no cells covers none.
    pub open spec fn fits(self, width: int, height: int) -> bool {
        self.len == 0 || match self.dir {
            Direction::Horizontal => self.y < height && self.x + self.len <= width,
            Direction::Vertical => self.x < width && self.y + self.len <= height,
        }
    }

    /// The segment covers at least one cell, and every cell it covers lies in
    /// an area of `width` columns and `height` rows.
    pub open spec fn within(self, width: int, height: int) -> bool {
        &&& self.len >= 1
        &&& match self.dir {
            Direction::Horizontal => self.y < height && self.x + self.len <= width,
            Direction::Vertical => self.x < width && self.y + self.len <= height,
        }
    }
}

/// `(start, len)` is a closed run of `line`: a maximal stretch of "on" cells
/// that is followed by an "off" cell.  A stretch that reaches the end of the
/// line is not closed.
pub open spec fn is_closed_run(line: Seq<u32>, start: int, len: int) -> bool {
    &&& 0 <= start
    &&& 1 <= len
    &&& start + len < line.len()
    &&& forall|i: int| start <= i < start + len ==> is_on(#[trigger] line[i])
    &&& !is_on(line[start + len])
    &&& (start == 0 || !is_on(line[start - 1]))
}

/// Where the stretch of "on" cells that ends just before cell `n` begins; `n`
/// itself when cell `n - 1` is "off" or there is none.
pub open spec fn open_run_start(line: Seq<u32>, n: int) -> int
    decreases n,
{
    if n <= 0 {
        0
    } else if is_on(line[n - 1]) {
        open_run_start(line, n - 1)
    } else {
        n
    }
}

/// The closed runs of `line` that end before cell `n`, as `(start, len)` in
/// the order in which they end.
pub open spec fn closed_runs(line: Seq<u32>, n: int) -> Seq<(int, int)>
    decreases n,
{
    if n <= 0 {
        Seq::empty()
    } else {
        let start = open_run_start(line, n - 1);
        if !is_on(line[n - 1]) && start < n - 1 {
            closed_runs(line, n - 1).push((start, n - 1 - start))
        } else {
            closed_runs(line, n - 1)
        }
    }
}

/// Column `col` of `cells`, top to bottom.
pub open spec fn column_of(cells: Seq<Seq<u32>>, col: int) -> Seq<u32> {
    Seq::new(cells.len(), |r: int| cells[r][col])
}

/// The vertical segment that a run of column `col` stands for.
pub open spec fn vertical_line(col: int, run: (int, int)) -> Line {
    Line { dir: Direction::Vertical, x: col as usize, y: run.0 as usize, len: run.1 as usize }
}

/// The horizontal segment that a run of row `row` stands for.
pub open spec fn horizontal_line(row: int, run: (int, int)) -> Line {
    Line { dir: Direction::Horizontal, x: run.0 as usize, y: row as usize, len: run.1 as usize }
}

/// The segments of the first `n` cells of column `col`.
pub open spec fn column_lines(cells: Seq<Seq<u32>>, col: int, n: int) -> Seq<Line> {
    closed_runs(column_of(cells, col), n).map_values(|run: (int, int)| vertical_line(col, run))
}

/// The segments of the first `n` cells of row `row`.
pub open spec fn row_lines(cells: Seq<Seq<u32>>, row: int, n: int) -> Seq<Line> {
    closed_runs(cells[row], n).map_values(|run: (int, int)| horizontal_line(row, run))
}

/// The vertical segments of the first `cols` columns, column by column.
pub open spec fn vertical_lines(cells: Seq<Seq<u32>>, cols: int) -> Seq<Line>
    decreases cols,
{
    if cols <= 0 {
        Seq::empty()
    } else {
        vertical_lines(cells, cols - 1) + column_lines(cells, cols - 1, cells.len() as int)
    }
}

/// The horizontal segments of the first `rows` rows, row by row.
pub open spec fn horizontal_lines(cells: Seq<Seq<u32>>, rows: int) -> Seq<Line>
    decreases rows,
{
    if rows <= 0 {
        Seq::empty()
    } else {
        horizontal_lines(cells, rows - 1) + row_lines(cells, rows - 1, cells[rows - 1].len() as int)
    }
}

/// The stretch of "on" cells that ends just before cell `n` begins at
/// `open_run_start(line, n)` and cannot be extended to the left.
pub proof fn lemma_open_run_start(line: Seq<u32>, n: int)
    requires
        0 <= n <= line.len(),
    ensures
        0 <= open_run_start(line, n) <= n,
        forall|i: int| open_run_start(line, n) <= i < n ==> is_on(#[trigger] line[i]),
        open_run_start(line, n) == 0 || !is_on(line[open_run_start(line, n) - 1]),
    decreases n,
{
    if n > 0 && is_on(line[n - 1]) {
        lemma_open_run_start(line, n - 1);
    }
}

/// A stretch of "on" cells `[start, n)` that cannot be extended to the left
/// is the one that `open_run_start` finds.
pub proof fn lemma_open_run_start_unique(line: Seq<u32>, start: int, n: int)
    requires
        0 <= start <= n <= line.len(),
        forall|i: int| start <= i < n ==> is_on(#[trigger] line[i]),
        start == 0 || !is_on(line[start - 1]),
    ensures
        open_run_start(line, n) == start,
    decreases n,
{
    if n > start {
        lemma_open_run_start_unique(line, start, n - 1);
    }
}

/// `closed_runs(line, n)` holds exactly the closed runs of `line` that end
/// before cell `n`.
pub proof fn lemma_closed_runs_exact(line: Seq<u32>, n: int, start: int, len: int)
    requires
        0 <= n <= line.len(),
    ensures
        closed_runs(line, n).contains((start, len)) <==> is_closed_run(line, start, len) && start
            + len < n,
    decreases n,
{
    if n > 0 {
        let before = closed_runs(line, n - 1);
        let runs = closed_runs(line, n);
        let s0 = open_run_start(line, n - 1);
        lemma_closed_runs_exact(line, n - 1, start, len);
        lemma_open_run_start(line, n - 1);
        if is_closed_run(line, start, len) && start + len == n - 1 {
            lemma_open_run_start_unique(line, start, n - 1);
            assert(runs[before.len() as int] == (start, len));
        }
        if is_closed_run(line, start, len) && start + len < n - 1 {
            let i = choose|i: int| 0 <= i < before.len() && before[i] == (start, len);
            assert(runs[i] == (start, len));
        }
        if runs.contains((start, len)) {
            let i = choose|i: int| 0 <= i < runs.len() && runs[i] == (start, len);
            if i < before.len() {
                assert(before[i] == (start, len));
            }
        }
    }
}

/// The closed runs come in the order of their position: each one ends
/// before the next begins.
pub proof fn lemma_closed_runs_ordered(line: Seq<u32>, n: int)
    requires
        0 <= n <= line.len(),
    ensures
        forall|i: int, j: int|
            0 <= i < j < closed_runs(line, n).len() ==> (#[trigger] closed_runs(line, n)[i]).0
                + closed_runs(line, n)[i].1 < (#[trigger] closed_runs(line, n)[j]).0,
    decreases n,
{
    if n > 0 {
        let before = closed_runs(line, n - 1);
        let runs = closed_runs(line, n);
        lemma_closed_runs_ordered(line, n - 1);
        lemma_open_run_start(line, n - 1);
        assert forall|i: int, j: int| 0 <= i < j < runs.len() implies (#[trigger] runs[i]).0
            + runs[i].1 < (#[trigger] runs[j]).0 by {
            if j == before.len() {
                assert(before.contains(before[i]));
                lemma_closed_runs_exact(line, n - 1, before[i].0, before[i].1);
            }
        }
    }
}

/// A scan line whose cells are all "on" or all "off" has no closed run.
pub proof fn lemma_no_runs_without_change(line: Seq<u32>, n: int)
    requires
        0 <= n <= line.len(),
        forall|i: int, j: int|
            0 <= i < line.len() && 0 <= j < line.len() ==> is_on(#[trigger] line[i]) == is_on(
                #[trigger] line[j],
            ),
    ensures
        closed_runs(line, n) == Seq::<(int, int)>::empty(),
{
    let runs = closed_runs(line, n);
    if runs.len() > 0 {
        assert(runs.contains(runs[0]));
        lemma_closed_runs_exact(line, n, runs[0].0, runs[0].1);
        assert(is_on(line[runs[0].0]));
        assert(!is_on(line[runs[0].0 + runs[0].1]));
    }
    assert(runs =~= Seq::<(int, int)>::empty());
}

} // verus!
