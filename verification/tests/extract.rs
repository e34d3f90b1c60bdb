use dsplit::grid_pair::GridPair;
use dsplit::line::{Direction, Line};
use dsplit::lines::Lines;
use dsplit::sample::NORMALIZER;
use grid::Grid;

const ON: u32 = NORMALIZER;

fn empty() -> Grid<u32> {
    Grid::new(0, 0)
}

fn vertical(x: usize, y: usize, len: usize) -> Line {
    Line { dir: Direction::Vertical, x, y, len }
}

fn horizontal(x: usize, y: usize, len: usize) -> Line {
    Line { dir: Direction::Horizontal, x, y, len }
}

#[test]
fn closed_run_in_a_column_is_a_vertical_segment() {
    // one column of five cells: off, on, on, off, off
    let across = Grid::from_vec(vec![0, ON, ON, 0, 0], 1);
    let pair = GridPair(across, empty());
    assert_eq!(pair.lines(), vec![vertical(0, 1, 2)]);
}

#[test]
fn closed_run_in_a_row_is_a_horizontal_segment() {
    let down = Grid::from_vec(vec![ON, ON, ON, 0, 0, 0], 6);
    let pair = GridPair(empty(), down);
    assert_eq!(pair.lines(), vec![horizontal(0, 0, 3)]);
}

#[test]
fn run_open_at_the_end_of_its_line_is_dropped() {
    let across = Grid::from_vec(vec![0, ON, ON], 1);
    let down = Grid::from_vec(vec![0, 0, ON, ON], 4);
    let pair = GridPair(across, down);
    assert_eq!(pair.lines(), Vec::<Line>::new());
}

#[test]
fn line_of_on_cells_only_yields_nothing() {
    let down = Grid::from_vec(vec![ON, ON, ON, ON], 4);
    let pair = GridPair(empty(), down);
    assert!(pair.lines().is_empty());
}

#[test]
fn several_runs_in_one_line_come_in_order() {
    let down = Grid::from_vec(vec![ON, 0, ON, ON, 0, 0, ON, 0, ON], 9);
    let pair = GridPair(empty(), down);
    assert_eq!(
        pair.lines(),
        vec![horizontal(0, 0, 1), horizontal(2, 0, 2), horizontal(6, 0, 1)]
    );
}

#[test]
fn vertical_segments_come_before_horizontal_ones() {
    // across: 3 rows, 2 columns; column 1 holds a run of two
    let across = Grid::from_vec(vec![0, ON, 0, ON, 0, 0], 2);
    // down: 2 rows, 3 columns; row 1 holds a run of one
    let down = Grid::from_vec(vec![0, 0, 0, 0, ON, 0], 3);
    let pair = GridPair(across, down);
    assert_eq!(pair.lines(), vec![vertical(1, 0, 2), horizontal(1, 1, 1)]);
}

#[test]
fn columns_are_scanned_left_to_right_and_rows_top_to_bottom() {
    let across = Grid::from_vec(vec![ON, ON, 0, 0], 2);
    let down = Grid::from_vec(vec![ON, 0, ON, 0], 2);
    let pair = GridPair(across, down);
    assert_eq!(
        pair.lines(),
        vec![vertical(0, 0, 1), vertical(1, 0, 1), horizontal(0, 0, 1), horizontal(0, 1, 1)]
    );
}

#[test]
fn values_below_one_are_off_and_values_from_one_are_on() {
    let down = Grid::from_vec(vec![ON - 1, ON, ON + 1, u32::MAX, ON - 1], 5);
    let pair = GridPair(empty(), down);
    assert_eq!(pair.lines(), vec![horizontal(1, 0, 3)]);
}

#[test]
fn segments_lie_inside_their_grid() {
    let across = Grid::from_vec(vec![ON, 0, ON, ON, 0, ON, 0, 0, 0, ON, ON, 0], 3);
    let down = Grid::from_vec(vec![ON, ON, 0, ON, 0, ON, 0, 0, ON, ON, ON, 0], 4);
    let pair = GridPair(across, down);
    let lines = pair.lines();
    assert!(!lines.is_empty());
    for line in lines {
        assert!(line.len >= 1);
        match line.dir {
            Direction::Vertical => {
                assert!(line.x < 3);
                assert!(line.y + line.len <= 4);
            }
            Direction::Horizontal => {
                assert!(line.y < 3);
                assert!(line.x + line.len <= 4);
            }
        }
    }
}

#[test]
fn threshold_binarises_both_grids() {
    let across = Grid::from_vec(vec![0, 24, 25, 26, 9_999, 10_000, 20_000, u32::MAX], 4);
    let down = Grid::from_vec(vec![25, 24], 1);
    let mut pair = GridPair(across, down);
    pair.threshold(25);
    assert_eq!(pair.0, Grid::from_vec(vec![0, 0, ON, ON, ON, ON, ON, ON], 4));
    assert_eq!(pair.1, Grid::from_vec(vec![ON, 0], 1));
}

#[test]
fn threshold_twice_is_threshold_once() {
    let cells = vec![0, 1, 24, 25, 26, 5_000, 9_999, 10_000, 10_001, 70_000, u32::MAX, 3];
    for cutoff in [0u32, 1, 25, 9_999, 10_000] {
        let mut once = GridPair(Grid::from_vec(cells.clone(), 4), Grid::from_vec(cells.clone(), 3));
        once.threshold(cutoff);
        let mut twice =
            GridPair(Grid::from_vec(cells.clone(), 4), Grid::from_vec(cells.clone(), 3));
        twice.threshold(cutoff);
        twice.threshold(cutoff);
        assert_eq!(once.0, twice.0);
        assert_eq!(once.1, twice.1);
    }
}

#[test]
fn threshold_above_one_is_not_idempotent() {
    let mut pair = GridPair(Grid::from_vec(vec![30_000], 1), empty());
    pair.threshold(20_000);
    assert_eq!(pair.0, Grid::from_vec(vec![ON], 1));
    pair.threshold(20_000);
    assert_eq!(pair.0, Grid::from_vec(vec![0], 1));
}

#[test]
fn filter_applies_the_function_to_every_cell() {
    let mut pair =
        GridPair(Grid::from_vec(vec![1, 2, 3, 4, 5, 6], 3), Grid::from_vec(vec![7, 8], 2));
    pair.filter(|v| v * 10 + 1);
    assert_eq!(pair.0, Grid::from_vec(vec![11, 21, 31, 41, 51, 61], 3));
    assert_eq!(pair.1, Grid::from_vec(vec![71, 81], 2));
}

#[test]
fn discard_keeps_the_long_segments_in_order() {
    let mut lines = vec![
        horizontal(0, 0, 5),
        vertical(1, 1, 20),
        horizontal(2, 2, 19),
        vertical(3, 3, 21),
        horizontal(4, 4, 20),
    ];
    lines.discard_shorter_than(20);
    assert_eq!(lines, vec![vertical(1, 1, 20), vertical(3, 3, 21), horizontal(4, 4, 20)]);
}

#[test]
fn minimum_length_boundary() {
    let size = 20;
    let mut lines = vec![vertical(0, 0, size), vertical(1, 0, size - 1), vertical(2, 0, size + 1)];
    lines.discard_shorter_than(size);
    assert_eq!(lines, vec![vertical(0, 0, size), vertical(2, 0, size + 1)]);
}

#[test]
fn discard_with_zero_keeps_everything() {
    let all = vec![horizontal(0, 0, 0), vertical(1, 1, 1), horizontal(2, 2, 7)];
    let mut lines = all.clone();
    lines.discard_shorter_than(0);
    assert_eq!(lines, all);
}

#[test]
fn larger_minimum_keeps_a_part_of_what_the_smaller_keeps() {
    let all: Vec<Line> = (0..30).map(|i| horizontal(i, i, (i * 7) % 13)).collect();
    for small in 0..14 {
        for large in small..14 {
            let mut by_small = all.clone();
            by_small.discard_shorter_than(small);
            let mut by_large = all.clone();
            by_large.discard_shorter_than(large);
            assert!(by_large.iter().all(|l| by_small.contains(l)));
            let mut both = by_small.clone();
            both.discard_shorter_than(large);
            assert_eq!(both, by_large);
        }
    }
}
