//! Detection of straight, axis-aligned edge segments in a raster image.
//!
//! A raster is scanned once per axis; the perceptual distance between each
//! pixel and its neighbour is stored in a pair of difference grids, the grids
//! are binarised against a cutoff, maximal runs of "on" cells become line
//! segments, short segments are discarded and the survivors are painted onto
//! a black canvas.
//!
//! Difference values are fixed-point samples: an unsigned integer `v` stands
//! for the value `v / NORMALIZER`, so a squared colour distance `d` is stored
//! as the normalised difference `d / NORMALIZER` simply by storing its whole
//! part.

pub mod canvas;
pub mod color;
pub mod grid_pair;
pub mod line;
pub mod lines;
pub mod pipeline;
pub mod plane;
pub mod raster;
pub mod sample;
