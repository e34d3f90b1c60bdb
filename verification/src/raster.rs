//! The input raster.

use crate::color::Rgb;
use crate::plane::{
    cells_fit, fits_in_memory, grid_cells, grid_col_count, grid_cols, grid_get, grid_new,
    grid_row_count, grid_set, rectangular,
};
use grid::Grid;
use vstd::prelude::*;

verus! {

/// Why a raster could not be made.
#[derive(Clone, Copy, Debug, PartialEq, Eq, Structural)]
pub enum RasterError {
    /// The width or the height is zero.
    Empty,
    /// The raster has more pixels than one allocation can hold.
    TooLarge,
    /// The byte buffer does not hold exactly three bytes per pixel.
    LengthMismatch,
}

/// A rectangle of RGB pixels with at least one row and one column.  Its view
/// is the sequence of its rows, top to bottom, each a sequence of pixels from
/// left to right.
pub struct Raster {
    pixels: Grid<u32>,
}

/// The pixel in column `x` of row `y` of a row-major buffer of RGB triples
/// that is `width` pixels wide.
pub open spec fn pixel_at(bytes: Seq<u8>, width: int, x: int, y: int) -> Rgb {
    let i = 3 * (y * width + x);
    Rgb { r: bytes[i], g: bytes[i + 1], b: bytes[i + 2] }
}

/// `pixels` is a rectangle with at least one row and one column.
pub open spec fn is_raster(pixels: Seq<Seq<Rgb>>) -> bool {
    &&& pixels.len() > 0
    &&& pixels[0].len() > 0
    &&& forall|y: int| 0 <= y < pixels.len() ==> (#[trigger] pixels[y]).len() == pixels[0].len()
}

proof fn lemma_cell_index(x: int, y: int, width: int, height: int)
    requires
        0 <= x < width,
        0 <= y < height,
    ensures
        0 <= y * width + x < height * width,
        y * width + width == (y + 1) * width,
{
    assert(y * width + width == (y + 1) * width) by (nonlinear_arith);
    assert((y + 1) * width <= height * width) by (nonlinear_arith)
        requires
            0 <= y + 1 <= height,
            0 < width,
    ;
    assert(0 <= y * width) by (nonlinear_arith)
        requires
            0 <= y,
            0 < width,
    ;
}

impl View for Raster {
    type V = Seq<Seq<Rgb>>;

    closed spec fn view(&self) -> Seq<Seq<Rgb>> {
        Seq::new(
            grid_cells(self.pixels).len(),
            |y: int|
                Seq::new(
                    grid_cols(self.pixels),
                    |x: int| Rgb::spec_unpacked(grid_cells(self.pixels)[y][x]),
                ),
        )
    }
}

impl Raster {
    #[verifier::type_invariant]
    spec fn inv(self) -> bool {
        &&& grid_cells(self.pixels).len() > 0
        &&& grid_cols(self.pixels) > 0
        &&& rectangular(grid_cells(self.pixels), grid_cols(self.pixels))
        &&& fits_in_memory(grid_cells(self.pixels).len(), grid_cols(self.pixels))
    }

    /// Makes a raster of `width` by `height` pixels from a row-major buffer
    /// that holds the red, green and blue byte of each pixel in turn.
    pub fn from_rgb_bytes(width: usize, height: usize, bytes: &Vec<u8>) -> (made: Result<
        Raster,
        RasterError,
    >)
        ensures
            match made {
                Ok(raster) => {
                    &&& width > 0 && height > 0
                    &&& fits_in_memory(height as nat, width as nat)
                    &&& bytes.len() == 3 * width * height
                    &&& is_raster(raster@)
                    &&& raster@.len() == height
                    &&& raster@[0].len() == width
                    &&& forall|x: int, y: int|
                        0 <= x < width && 0 <= y < height ==> #[trigger] raster@[y][x] == pixel_at(
                            bytes@,
                            width as int,
                            x,
                            y,
                        )
                },
                Err(RasterError::Empty) => width == 0 || height == 0,
                Err(RasterError::TooLarge) => {
                    &&& width > 0 && height > 0
                    &&& !fits_in_memory(height as nat, width as nat)
                },
                Err(RasterError::LengthMismatch) => {
                    &&& width > 0 && height > 0
                    &&& fits_in_memory(height as nat, width as nat)
                    &&& bytes.len() != 3 * width * height
                },
            },
    {
        if width == 0 || height == 0 {
            return Err(RasterError::Empty);
        }
        if !cells_fit(height, width) {
            return Err(RasterError::TooLarge);
        }
        assert(3 * width * height == 3 * (height * width) && height * width * 4 == 4 * (height
            * width)) by (nonlinear_arith);
        let count: usize = height * width;
        if bytes.len() != 3 * count {
            return Err(RasterError::LengthMismatch);
        }
        let mut pixels = grid_new(height, width);
        let mut y: usize = 0;
        while y < height
            invariant
                y <= height,
                0 < width,
                count == height * width,
                bytes.len() == 3 * count,
                grid_cells(pixels).len() == height,
                grid_cols(pixels) == width,
                rectangular(grid_cells(pixels), width as nat),
                forall|i: int, j: int|
                    0 <= i < y && 0 <= j < width ==> Rgb::spec_unpacked(
                        #[trigger] grid_cells(pixels)[i][j],
                    ) == pixel_at(bytes@, width as int, j, i),
            decreases height - y,
        {
            let mut x: usize = 0;
            while x < width
                invariant
                    y < height,
                    x <= width,
                    count == height * width,
                    bytes.len() == 3 * count,
                    grid_cells(pixels).len() == height,
                    grid_cols(pixels) == width,
                    rectangular(grid_cells(pixels), width as nat),
                    forall|i: int, j: int|
                        0 <= i < y && 0 <= j < width ==> Rgb::spec_unpacked(
                            #[trigger] grid_cells(pixels)[i][j],
                        ) == pixel_at(bytes@, width as int, j, i),
                    forall|j: int|
                        0 <= j < x ==> Rgb::spec_unpacked(
                            #[trigger] grid_cells(pixels)[y as int][j],
                        ) == pixel_at(bytes@, width as int, j, y as int),
                decreases width - x,
            {
                proof {
                    lemma_cell_index(x as int, y as int, width as int, height as int);
                }
                let i: usize = 3 * (y * width + x);
                let p = Rgb { r: bytes[i], g: bytes[i + 1], b: bytes[i + 2] };
                grid_set(&mut pixels, y, x, p.packed());
                x += 1;
            }
            y += 1;
        }
        let raster = Raster { pixels };
        assert forall|x: int, y: int| 0 <= x < width && 0 <= y < height implies #[trigger] raster@[y][x]
            == pixel_at(bytes@, width as int, x, y) by {}
        Ok(raster)
    }

    /// The number of pixels in a row.
    pub fn width(&self) -> (w: usize)
        ensures
            is_raster(self@),
            w == self@[0].len(),
            fits_in_memory(self@.len(), w as nat),
    {
        proof {
            use_type_invariant(self);
        }
        grid_col_count(&self.pixels)
    }

    /// The number of rows.
    pub fn height(&self) -> (h: usize)
        ensures
            is_raster(self@),
            h == self@.len(),
            fits_in_memory(h as nat, self@[0].len()),
    {
        proof {
            use_type_invariant(self);
        }
        grid_row_count(&self.pixels)
    }

    /// The pixel in column `x` of row `y`.
    pub fn pixel(&self, x: usize, y: usize) -> (p: Rgb)
        requires
            y < self@.len(),
            x < self@[y as int].len(),
        ensures
            p == self@[y as int][x as int],
    {
        proof {
            use_type_invariant(self);
        }
        Rgb::unpacked(grid_get(&self.pixels, y, x))
    }
}

} // verus!
