//! The whole detection: difference grids, cutoff, segments, minimum length.

use crate::color::{perceptual_distance, Rgb};
use crate::grid_pair::{lemma_uniform_raster_has_no_lines, GridPair, PairView};
use crate::line::Line;
use crate::lines::{at_least, rendered, Lines};
use crate::raster::{is_raster, Raster};
use vstd::prelude::*;

verus! {

/// The cutoff that is used when none is chosen: 0.0025, in samples.
pub const DEFAULT_THRESHOLD: u32 = 25;

/// The minimum length that is used when none is chosen.
pub const DEFAULT_MIN_LENGTH: usize = 20;

/// The parameters of a detection.
#[derive(Clone, Copy, Debug, PartialEq, Eq, Structural)]
pub struct Config {
    /// The cutoff at which a difference counts as an edge, as a sample: the
    /// value `threshold / NORMALIZER`.
    pub threshold: u32,
    /// The number of cells that a segment must have to be kept.
    pub min_length: usize,
}

impl Default for Config {
    fn default() -> (config: Config)
        ensures
            config == (Config { threshold: DEFAULT_THRESHOLD, min_length: DEFAULT_MIN_LENGTH }),
    {
        Config { threshold: DEFAULT_THRESHOLD, min_length: DEFAULT_MIN_LENGTH }
    }
}

/// The segments that a detection with `config` reads from the grids `pair`:
/// those of the grids binarised against the cutoff, without the ones that
/// are shorter than the minimum length.
pub open spec fn detected(pair: PairView, config: Config) -> Seq<Line> {
    pair.thresholded(config.threshold).lines().filter(at_least(config.min_length))
}

/// Reads the segments of a pair of difference grids: binarises the grids
/// against the cutoff, extracts the closed runs and discards the segments
/// that are shorter than the minimum length.
pub fn extract_lines(pair: GridPair, config: &Config) -> (lines: Vec<Line>)
    ensures
        lines@ == detected(pair@, *config),
        forall|i: int|
            0 <= i < lines.len() ==> pair@.holds(#[trigger] lines[i]) && lines[i].len
                >= config.min_length,
{
    let mut pair = pair;
    let ghost given = pair@;
    pair.threshold(config.threshold);
    let mut lines = pair.lines();
    let ghost all = lines@;
    lines.discard_shorter_than(config.min_length);
    proof {
        assert forall|i: int| 0 <= i < lines.len() implies given.holds(#[trigger] lines[i])
            && lines[i].len >= config.min_length by {
            all.lemma_filter_pred(at_least(config.min_length), i);
            assert(lines@.contains(lines@[i]));
            all.lemma_filter_contains_rev(at_least(config.min_length), lines@[i]);
            let j = choose|j: int| 0 <= j < all.len() && all[j] == lines@[i];
            assert(pair@.holds(all[j]));
        }
    }
    lines
}

/// Detects the edge segments of `raster` with `measure` as the difference
/// between two pixels.
pub fn detect_lines_with<F: Fn(Rgb, Rgb) -> u32>(raster: &Raster, config: &Config, measure: F) -> (lines:
    Vec<Line>)
    requires
        forall|a: Rgb, b: Rgb| call_requires(measure, (a, b)),
    ensures
        exists|pair: PairView| #[trigger]
            pair.built_from(measure, raster@) && lines@ == detected(pair, *config),
        forall|i: int|
            0 <= i < lines.len() ==> (#[trigger] lines[i]).within(
                raster@[0].len() as int,
                raster@.len() as int,
            ) && lines[i].len >= config.min_length,
{
    let pair = GridPair::from_raster_with(raster, measure);
    let ghost built = pair@;
    let lines = extract_lines(pair, config);
    proof {
        assert(built.built_from(measure, raster@) && lines@ == detected(built, *config));
        assert forall|i: int| 0 <= i < lines.len() implies (#[trigger] lines[i]).within(
            raster@[0].len() as int,
            raster@.len() as int,
        ) by {
            assert(built.holds(lines[i]));
        }
    }
    lines
}

/// Detects the edge segments of `raster` from the perceptual distance
/// between neighbouring pixels: the segments are those of a pair of grids
/// in which every cell holds a value that `perceptual_distance` may return
/// for its pair of neighbours.
pub fn detect_lines(raster: &Raster, config: &Config) -> (lines: Vec<Line>)
    ensures
        exists|pair: PairView| #[trigger]
            pair.built_from(perceptual_distance, raster@) && lines@ == detected(pair, *config),
        forall|i: int|
            0 <= i < lines.len() ==> (#[trigger] lines[i]).within(
                raster@[0].len() as int,
                raster@.len() as int,
            ) && lines[i].len >= config.min_length,
{
    let pair = GridPair::from_raster(raster);
    let ghost built = pair@;
    let lines = extract_lines(pair, config);
    proof {
        assert(built.built_from(perceptual_distance, raster@) && lines@ == detected(
            built,
            *config,
        ));
        assert forall|i: int| 0 <= i < lines.len() implies (#[trigger] lines[i]).within(
            raster@[0].len() as int,
            raster@.len() as int,
        ) by {
            assert(built.holds(lines[i]));
        }
    }
    lines
}

/// A raster whose pixels are all the same colour yields no segment,
/// whatever the cutoff and the minimum length, provided the measure finds no
/// difference between a colour and itself.
pub proof fn lemma_uniform_raster_detects_nothing<F: Fn(Rgb, Rgb) -> u32>(
    pair: PairView,
    measure: F,
    raster: Seq<Seq<Rgb>>,
    colour: Rgb,
    config: Config,
)
    requires
        is_raster(raster),
        forall|x: int, y: int|
            0 <= y < raster.len() && 0 <= x < raster[0].len() ==> #[trigger] raster[y][x]
                == colour,
        pair.built_from(measure, raster),
        forall|d: u32| call_ensures(measure, (colour, colour), d) ==> d == 0,
    ensures
        detected(pair, config) == Seq::<Line>::empty(),
{
    lemma_uniform_raster_has_no_lines(pair, measure, raster, colour, config.threshold);
    reveal(Seq::filter);
}

/// With a measure that gives one value for each pair of colours, a raster
/// and a configuration determine the difference grids, the segments and
/// the painted canvas.
pub proof fn lemma_detection_is_deterministic<F: Fn(Rgb, Rgb) -> u32>(
    first: PairView,
    second: PairView,
    measure: F,
    raster: Seq<Seq<Rgb>>,
    config: Config,
    width: nat,
    height: nat,
)
    requires
        is_raster(raster),
        first.built_from(measure, raster),
        second.built_from(measure, raster),
        forall|a: Rgb, b: Rgb, d1: u32, d2: u32|
            #[trigger] call_ensures(measure, (a, b), d1) && #[trigger] call_ensures(
                measure,
                (a, b),
                d2,
            ) ==> d1 == d2,
    ensures
        first == second,
        detected(first, config) == detected(second, config),
        rendered(detected(first, config), width, height) == rendered(
            detected(second, config),
            width,
            height,
        ),
{
    assert forall|r: int| 0 <= r < first.across.len() implies #[trigger] first.across[r]
        == second.across[r] by {
        assert forall|c: int| 0 <= c < first.across_cols implies #[trigger] first.across[r][c]
            == second.across[r][c] by {
            assert(call_ensures(measure, (raster[r][c], raster[r][c + 1]), first.across[r][c]));
            assert(call_ensures(measure, (raster[r][c], raster[r][c + 1]), second.across[r][c]));
        }
        assert(first.across[r] =~= second.across[r]);
    }
    assert(first.across =~= second.across);
    assert forall|r: int| 0 <= r < first.down.len() implies #[trigger] first.down[r]
        == second.down[r] by {
        assert forall|c: int| 0 <= c < first.down_cols implies #[trigger] first.down[r][c]
            == second.down[r][c] by {
            assert(call_ensures(measure, (raster[r][c], raster[r + 1][c]), first.down[r][c]));
            assert(call_ensures(measure, (raster[r][c], raster[r + 1][c]), second.down[r][c]));
        }
        assert(first.down[r] =~= second.down[r]);
    }
    assert(first.down =~= second.down);
}

} // verus!
