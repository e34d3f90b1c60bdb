use dsplit::color::{perceptual_distance, whole_part, Rgb};
use dsplit::grid_pair::GridPair;
use dsplit::raster::{Raster, RasterError};
use grid::Grid;

const BLACK: [u8; 3] = [0, 0, 0];
const WHITE: [u8; 3] = [255, 255, 255];

fn raster_of(rows: &[Vec<[u8; 3]>]) -> Raster {
    let height = rows.len();
    let width = rows[0].len();
    let bytes: Vec<u8> = rows.iter().flatten().flatten().copied().collect();
    Raster::from_rgb_bytes(width, height, &bytes).unwrap()
}

fn error_of(result: Result<Raster, RasterError>) -> RasterError {
    match result {
        Ok(_) => panic!("the raster was made"),
        Err(e) => e,
    }
}

/// The sum of the channel differences, an exact measure for the tests.
fn channel_sum(a: Rgb, b: Rgb) -> u32 {
    let d = |p: u8, q: u8| (p as i32 - q as i32).unsigned_abs();
    d(a.r, b.r) + d(a.g, b.g) + d(a.b, b.b)
}

#[test]
fn raster_reads_pixels_row_by_row() {
    let bytes: Vec<u8> = (0..18).collect();
    let raster = Raster::from_rgb_bytes(3, 2, &bytes).unwrap();
    assert_eq!(raster.width(), 3);
    assert_eq!(raster.height(), 2);
    assert_eq!(raster.pixel(0, 0), Rgb { r: 0, g: 1, b: 2 });
    assert_eq!(raster.pixel(2, 0), Rgb { r: 6, g: 7, b: 8 });
    assert_eq!(raster.pixel(0, 1), Rgb { r: 9, g: 10, b: 11 });
    assert_eq!(raster.pixel(2, 1), Rgb { r: 15, g: 16, b: 17 });
}

#[test]
fn raster_without_pixels_is_an_error() {
    assert_eq!(error_of(Raster::from_rgb_bytes(0, 0, &vec![])), RasterError::Empty);
    assert_eq!(error_of(Raster::from_rgb_bytes(0, 5, &vec![])), RasterError::Empty);
    assert_eq!(error_of(Raster::from_rgb_bytes(5, 0, &vec![1, 2, 3])), RasterError::Empty);
}

#[test]
fn raster_with_the_wrong_number_of_bytes_is_an_error() {
    assert_eq!(error_of(Raster::from_rgb_bytes(2, 2, &vec![0; 11])), RasterError::LengthMismatch);
    assert_eq!(error_of(Raster::from_rgb_bytes(2, 2, &vec![0; 13])), RasterError::LengthMismatch);
    assert_eq!(error_of(Raster::from_rgb_bytes(1, 1, &vec![])), RasterError::LengthMismatch);
}

#[test]
fn raster_that_cannot_be_allocated_is_an_error() {
    assert_eq!(
        error_of(Raster::from_rgb_bytes(usize::MAX, usize::MAX, &vec![])),
        RasterError::TooLarge
    );
    assert_eq!(error_of(Raster::from_rgb_bytes(usize::MAX, 1, &vec![])), RasterError::TooLarge);
}

#[test]
fn colour_packs_to_a_number_and_back() {
    let p = Rgb { r: 0x12, g: 0x34, b: 0x56 };
    assert_eq!(p.packed(), 0x123456);
    assert_eq!(Rgb::unpacked(0x123456), p);
    assert_eq!(Rgb::unpacked(0xFF00_0001), Rgb { r: 0, g: 0, b: 1 });
    for v in [0u8, 1, 127, 128, 255] {
        let p = Rgb { r: v, g: 255 - v, b: v / 2 };
        assert_eq!(Rgb::unpacked(p.packed()), p);
    }
}

#[test]
fn difference_grids_have_one_cell_per_pair_of_neighbours() {
    let raster = raster_of(&vec![vec![BLACK; 5]; 3]);
    let pair = GridPair::from_raster(&raster);
    assert_eq!(pair.0.size(), (3, 4));
    assert_eq!(pair.1.size(), (2, 5));
    let raster = raster_of(&vec![vec![WHITE; 2]; 2]);
    let pair = GridPair::from_raster_with(&raster, channel_sum);
    assert_eq!(pair.0.size(), (2, 1));
    assert_eq!(pair.1.size(), (1, 2));
}

#[test]
fn raster_of_one_column_or_one_row_has_an_empty_grid() {
    let column = raster_of(&vec![vec![BLACK], vec![WHITE], vec![BLACK]]);
    let pair = GridPair::from_raster_with(&column, channel_sum);
    assert_eq!(pair.0.size(), (0, 0));
    assert_eq!(pair.1, Grid::from_vec(vec![765, 765], 1));
    let row = raster_of(&vec![vec![BLACK, WHITE, WHITE]]);
    let pair = GridPair::from_raster_with(&row, channel_sum);
    assert_eq!(pair.0, Grid::from_vec(vec![765, 0], 2));
    assert_eq!(pair.1.size(), (0, 0));
    let dot = raster_of(&vec![vec![WHITE]]);
    let pair = GridPair::from_raster(&dot);
    assert_eq!(pair.0.size(), (0, 0));
    assert_eq!(pair.1.size(), (0, 0));
    assert!(pair.lines().is_empty());
}

#[test]
fn difference_grids_hold_the_measure_of_each_pair() {
    let raster = raster_of(&vec![
        vec![[0, 0, 0], [1, 0, 0], [1, 2, 0]],
        vec![[0, 0, 4], [9, 9, 9], [1, 2, 3]],
    ]);
    let pair = GridPair::from_raster_with(&raster, channel_sum);
    assert_eq!(pair.0, Grid::from_vec(vec![1, 2, 23, 21], 2));
    assert_eq!(pair.1, Grid::from_vec(vec![4, 26, 3], 3));
}

#[test]
fn measure_gets_the_earlier_pixel_first() {
    let raster = raster_of(&vec![vec![[1, 0, 0], [2, 0, 0]], vec![[3, 0, 0], [4, 0, 0]]]);
    let pair = GridPair::from_raster_with(&raster, |a: Rgb, b: Rgb| a.r as u32 * 10 + b.r as u32);
    assert_eq!(pair.0, Grid::from_vec(vec![12, 34], 1));
    assert_eq!(pair.1, Grid::from_vec(vec![13, 24], 2));
}

#[test]
fn whole_part_rounds_down() {
    assert_eq!(whole_part(0f32.to_bits()), 0);
    assert_eq!(whole_part(0.999f32.to_bits()), 0);
    assert_eq!(whole_part(1f32.to_bits()), 1);
    assert_eq!(whole_part(1.5f32.to_bits()), 1);
    assert_eq!(whole_part(24.999998f32.to_bits()), 24);
    assert_eq!(whole_part(25f32.to_bits()), 25);
    assert_eq!(whole_part(254.23636f32.to_bits()), 254);
    assert_eq!(whole_part(10000f32.to_bits()), 10_000);
    assert_eq!(whole_part(141072.4f32.to_bits()), 141_072);
    assert_eq!(whole_part(8388607.5f32.to_bits()), 8_388_607);
    assert_eq!(whole_part(16777215f32.to_bits()), 16_777_215);
    assert_eq!(whole_part(16777216f32.to_bits()), 16_777_216);
    assert_eq!(whole_part(33554434f32.to_bits()), 33_554_432);
    assert_eq!(whole_part(4294967040f32.to_bits()), 4_294_967_040);
}

#[test]
fn whole_part_of_what_is_no_count_is_zero_or_the_maximum() {
    assert_eq!(whole_part(4294967296f32.to_bits()), u32::MAX);
    assert_eq!(whole_part(f32::MAX.to_bits()), u32::MAX);
    assert_eq!(whole_part(f32::INFINITY.to_bits()), u32::MAX);
    assert_eq!(whole_part(f32::NAN.to_bits()), 0);
    assert_eq!(whole_part((-f32::NAN).to_bits()), 0);
    assert_eq!(whole_part(f32::NEG_INFINITY.to_bits()), 0);
    assert_eq!(whole_part((-3.5f32).to_bits()), 0);
    assert_eq!(whole_part((-0f32).to_bits()), 0);
    assert_eq!(whole_part(f32::MIN_POSITIVE.to_bits()), 0);
    assert_eq!(whole_part(1u32), 0);
}

#[test]
fn whole_part_agrees_with_the_cast() {
    let mut bits: u32 = 0;
    loop {
        assert_eq!(whole_part(bits), f32::from_bits(bits) as u32, "bits {:#x}", bits);
        match bits.checked_add(0x0001_0F0F) {
            Some(next) => bits = next,
            None => break,
        }
    }
}

#[test]
fn perceptual_distance_of_a_colour_to_itself_is_zero() {
    for p in [
        Rgb { r: 0, g: 0, b: 0 },
        Rgb { r: 255, g: 255, b: 255 },
        Rgb { r: 253, g: 120, b: 138 },
        Rgb { r: 1, g: 200, b: 77 },
    ] {
        assert_eq!(perceptual_distance(p, p), 0);
    }
}

#[test]
fn perceptual_distance_of_black_and_white_is_about_one() {
    let black = Rgb { r: 0, g: 0, b: 0 };
    let white = Rgb { r: 255, g: 255, b: 255 };
    let d = perceptual_distance(black, white);
    assert!((9_990..=10_010).contains(&d), "distance {}", d);
    assert_eq!(perceptual_distance(white, black), d);
}

#[test]
fn perceptual_distance_is_the_squared_lab_distance() {
    let a = [253u8, 120, 138];
    let b = [255u8, 105, 180];
    let expected = lab::Lab::from_rgb(&a).squared_distance(&lab::Lab::from_rgb(&b));
    let d = perceptual_distance(
        Rgb { r: a[0], g: a[1], b: a[2] },
        Rgb { r: b[0], g: b[1], b: b[2] },
    );
    assert_eq!(d, expected as u32);
    assert!(d > 100);
}
