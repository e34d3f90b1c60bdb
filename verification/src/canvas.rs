//! The canvas that segments are painted on.

use crate::color::Rgb;
use crate::line::{Direction, Line};
use crate::plane::{
    cells_fit, fits_in_memory, grid_cells, grid_cols, grid_get, grid_new, grid_set, grid_shape,
    rectangular,
};
use grid::Grid;
use vstd::prelude::*;

verus! {

/// The channel value of a painted cell.
pub const FULL: u8 = 255;

/// A rectangle of RGB pixels that starts out black.  Its view is the
/// sequence of its rows, top to bottom, each a sequence of pixels from left
/// to right.
pub struct Canvas {
    width: usize,
    height: usize,
    pixels: Grid<u32>,
}

/// The colour of a cell after `line` was painted over colour `p`, for a
/// cell that the segment covers: a horizontal segment sets the red channel
/// to its maximum, a vertical segment the green channel, and either leaves
/// the other of the two as it was.
pub open spec fn painted_colour(p: Rgb, dir: Direction) -> Rgb {
    match dir {
        Direction::Horizontal => Rgb { r: FULL, g: p.g, b: 0 },
        Direction::Vertical => Rgb { r: p.r, g: FULL, b: 0 },
    }
}

/// `pixels` after `line` was painted over it.
pub open spec fn painted_over(pixels: Seq<Seq<Rgb>>, line: Line) -> Seq<Seq<Rgb>> {
    Seq::new(
        pixels.len(),
        |y: int|
            Seq::new(
                pixels[y].len(),
                |x: int|
                    if line.covers(x, y) {
                        painted_colour(pixels[y][x], line.dir)
                    } else {
                        pixels[y][x]
                    },
            ),
    )
}

/// A rectangle of `height` rows of `width` black pixels.
pub open spec fn blank(width: nat, height: nat) -> Seq<Seq<Rgb>> {
    Seq::new(height, |y: int| Seq::new(width, |x: int| Rgb { r: 0, g: 0, b: 0 }))
}

/// The three bytes of the pixel in column `x` of row `y` stand at their
/// place in a row-major buffer of RGB triples that is `width` pixels wide.
pub open spec fn holds_pixel(bytes: Seq<u8>, width: int, x: int, y: int, p: Rgb) -> bool {
    let i = 3 * (y * width + x);
    &&& 0 <= i
    &&& i + 2 < bytes.len()
    &&& bytes[i] == p.r
    &&& bytes[i + 1] == p.g
    &&& bytes[i + 2] == p.b
}

impl View for Canvas {
    type V = Seq<Seq<Rgb>>;

    closed spec fn view(&self) -> Seq<Seq<Rgb>> {
        Seq::new(
            self.height as nat,
            |y: int|
                Seq::new(
                    self.width as nat,
                    |x: int| Rgb::spec_unpacked(grid_cells(self.pixels)[y][x]),
                ),
        )
    }
}

impl Canvas {
    /// The canvas holds exactly the pixels of its width and height.
    pub closed spec fn wf(&self) -> bool {
        &&& (grid_cells(self.pixels).len(), grid_cols(self.pixels)) == grid_shape(
            self.height as nat,
            self.width as nat,
        )
        &&& rectangular(grid_cells(self.pixels), grid_cols(self.pixels))
        &&& fits_in_memory(self.height as nat, self.width as nat)
    }

    /// The number of pixels in a row.
    pub closed spec fn spec_width(&self) -> nat {
        self.width as nat
    }

    /// The number of rows.
    pub closed spec fn spec_height(&self) -> nat {
        self.height as nat
    }

    /// The view has `spec_height()` rows of `spec_width()` pixels.
    pub proof fn lemma_view_shape(&self)
        ensures
            self@.len() == self.spec_height(),
            forall|y: int| 0 <= y < self@.len() ==> (#[trigger] self@[y]).len() == self.spec_width(),
    {
    }

    /// A black canvas of `width` by `height` pixels, or nothing when it has
    /// more pixels than one allocation can hold.
    pub fn new(width: usize, height: usize) -> (made: Option<Canvas>)
        ensures
            made.is_some() <==> fits_in_memory(height as nat, width as nat),
            made matches Some(canvas) ==> {
                &&& canvas.wf()
                &&& canvas@ == blank(width as nat, height as nat)
                &&& canvas.spec_width() == width
                &&& canvas.spec_height() == height
            },
    {
        if !cells_fit(height, width) {
            return None;
        }
        let canvas = Canvas { width, height, pixels: grid_new(height, width) };
        assert(canvas@ =~~= blank(width as nat, height as nat));
        Some(canvas)
    }

    /// The number of pixels in a row.
    pub fn width(&self) -> (w: usize)
        ensures
            w == self.spec_width(),
    {
        self.width
    }

    /// The number of rows.
    pub fn height(&self) -> (h: usize)
        ensures
            h == self.spec_height(),
    {
        self.height
    }

    /// The pixel in column `x` of row `y`.
    pub fn pixel(&self, x: usize, y: usize) -> (p: Rgb)
        requires
            self.wf(),
            x < self.spec_width(),
            y < self.spec_height(),
        ensures
            p == self@[y as int][x as int],
    {
        Rgb::unpacked(grid_get(&self.pixels, y, x))
    }

    /// Paints `line` onto the canvas: every cell that a horizontal segment
    /// covers gets its red channel set to the maximum, every cell that a
    /// vertical segment covers its green channel.
    pub fn paint(&mut self, line: &Line)
        requires
            old(self).wf(),
            line.fits(old(self).spec_width() as int, old(self).spec_height() as int),
        ensures
            final(self).wf(),
            final(self)@ == painted_over(old(self)@, *line),
            final(self).spec_width() == old(self).spec_width(),
            final(self).spec_height() == old(self).spec_height(),
    {
        let ghost before = self@;
        let mut k: usize = 0;
        while k < line.len
            invariant
                k <= line.len,
                line.fits(self.width as int, self.height as int),
                self.width == old(self).width,
                self.height == old(self).height,
                self.wf(),
                before == old(self)@,
                self@.len() == before.len(),
                forall|x: int, y: int|
                    0 <= y < self.height && 0 <= x < self.width ==> #[trigger] self@[y][x] == (if line.covers(
                        x,
                        y,
                    ) && (x - line.x) + (y - line.y) < k {
                        painted_colour(before[y][x], line.dir)
                    } else {
                        before[y][x]
                    }),
            decreases line.len - k,
        {
            let (x, y) = match line.dir {
                Direction::Horizontal => (line.x + k, line.y),
                Direction::Vertical => (line.x, line.y + k),
            };
            let p = Rgb::unpacked(grid_get(&self.pixels, y, x));
            let q = match line.dir {
                Direction::Horizontal => Rgb { r: FULL, g: p.g, b: 0 },
                Direction::Vertical => Rgb { r: p.r, g: FULL, b: 0 },
            };
            let ghost earlier = self@;
            grid_set(&mut self.pixels, y, x, q.packed());
            assert forall|i: int, j: int|
                0 <= j < self.height && 0 <= i < self.width implies #[trigger] self@[j][i] == (if i
                == x && j == y {
                q
            } else {
                earlier[j][i]
            }) by {}
            assert(earlier[y as int][x as int] == before[y as int][x as int]);
            assert forall|i: int, j: int|
                0 <= j < self.height && 0 <= i < self.width implies #[trigger] self@[j][i] == (if line.covers(
                i,
                j,
            ) && (i - line.x) + (j - line.y) < k + 1 {
                painted_colour(before[j][i], line.dir)
            } else {
                before[j][i]
            }) by {
                if i != x || j != y {
                    assert(!(line.covers(i, j) && (i - line.x) + (j - line.y) == k));
                }
            }
            k += 1;
        }
        assert forall|y: int| 0 <= y < before.len() implies #[trigger] self@[y] == painted_over(
            before,
            *line,
        )[y] by {
            assert(self@[y] =~= painted_over(before, *line)[y]);
        }
        assert(self@ =~= painted_over(before, *line));
    }

    /// The canvas as a row-major buffer that holds the red, green and blue
    /// byte of each pixel in turn.
    pub fn into_raw(self) -> (bytes: Vec<u8>)
        requires
            self.wf(),
        ensures
            bytes.len() == 3 * self.spec_width() * self.spec_height(),
            forall|x: int, y: int|
                0 <= x < self.spec_width() && 0 <= y < self.spec_height() ==> holds_pixel(
                    bytes@,
                    self.spec_width() as int,
                    x,
                    y,
                    #[trigger] self@[y][x],
                ),
    {
        let width = self.width;
        let height = self.height;
        let mut bytes: Vec<u8> = Vec::new();
        let mut y: usize = 0;
        assert(0 * width == 0) by (nonlinear_arith);
        while y < height
            invariant
                y <= height,
                width == self.width,
                height == self.height,
                self.wf(),
                bytes.len() == 3 * (y * width),
                forall|i: int, j: int|
                    0 <= i < width && 0 <= j < y ==> holds_pixel(
                        bytes@,
                        width as int,
                        i,
                        j,
                        #[trigger] self@[j][i],
                    ),
            decreases height - y,
        {
            let mut x: usize = 0;
            while x < width
                invariant
                    y < height,
                    x <= width,
                    width == self.width,
                    height == self.height,
                    self.wf(),
                    bytes.len() == 3 * (y * width + x),
                    forall|i: int, j: int|
                        0 <= i < width && 0 <= j < y ==> holds_pixel(
                            bytes@,
                            width as int,
                            i,
                            j,
                            #[trigger] self@[j][i],
                        ),
                    forall|i: int|
                        0 <= i < x ==> holds_pixel(
                            bytes@,
                            width as int,
                            i,
                            y as int,
                            #[trigger] self@[y as int][i],
                        ),
                decreases width - x,
            {
                let p = Rgb::unpacked(grid_get(&self.pixels, y, x));
                bytes.push(p.r);
                bytes.push(p.g);
                bytes.push(p.b);
                x += 1;
            }
            assert(y * width + width == (y + 1) * width) by (nonlinear_arith);
            y += 1;
        }
        assert(3 * (height * width) == 3 * width * height) by (nonlinear_arith);
        bytes
    }
}

} // verus!
