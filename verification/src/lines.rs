//! Operations on a list of segments: discarding the short ones and painting
//! the list onto a canvas.

use crate::canvas::{blank, painted_over, Canvas, FULL};
use crate::color::Rgb;
use crate::line::{Direction, Line};
use crate::plane::fits_in_memory;
use vstd::prelude::*;

verus! {

/// Why a list of segments could not be painted.
#[derive(Clone, Copy, Debug, PartialEq, Eq, Structural)]
pub enum RenderError {
    /// The canvas has more pixels than one allocation can hold.
    CanvasTooLarge,
    /// The segment at `index` is the first that does not lie inside the
    /// canvas.
    OutOfBounds { index: usize },
}

/// Some segment of `lines` that runs along `dir` covers the cell in column
/// `x` of row `y`.
pub open spec fn painted(lines: Seq<Line>, dir: Direction, x: int, y: int) -> bool {
    exists|i: int| 0 <= i < lines.len() && (#[trigger] lines[i]).dir == dir && lines[i].covers(x, y)
}

/// The colour of a cell of the painted canvas: red at its maximum where a
/// horizontal segment covers the cell, green at its maximum where a vertical
/// segment does, both where both do, and black where none does.
pub open spec fn rendered_pixel(lines: Seq<Line>, x: int, y: int) -> Rgb {
    Rgb {
        r: if painted(lines, Direction::Horizontal, x, y) {
            FULL
        } else {
            0
        },
        g: if painted(lines, Direction::Vertical, x, y) {
            FULL
        } else {
            0
        },
        b: 0,
    }
}

/// The canvas of `width` by `height` pixels with `lines` painted on it.
pub open spec fn rendered(lines: Seq<Line>, width: nat, height: nat) -> Seq<Seq<Rgb>> {
    Seq::new(height, |y: int| Seq::new(width, |x: int| rendered_pixel(lines, x, y)))
}

/// With no segment painted the canvas is black.
pub proof fn lemma_rendered_nothing(width: nat, height: nat)
    ensures
        rendered(Seq::<Line>::empty(), width, height) == blank(width, height),
{
    assert(rendered(Seq::<Line>::empty(), width, height) =~~= blank(width, height));
}

/// A cell is painted by a list with one more segment when it was painted
/// before or the new segment covers it.
pub proof fn lemma_painted_push(lines: Seq<Line>, line: Line, dir: Direction, x: int, y: int)
    ensures
        painted(lines.push(line), dir, x, y) <==> painted(lines, dir, x, y) || (line.dir == dir
            && line.covers(x, y)),
{
    let more = lines.push(line);
    if painted(lines, dir, x, y) {
        let i = choose|i: int|
            0 <= i < lines.len() && (#[trigger] lines[i]).dir == dir && lines[i].covers(x, y);
        assert(more[i] == lines[i]);
    }
    if line.dir == dir && line.covers(x, y) {
        assert(more[lines.len() as int] == line);
    }
    if painted(more, dir, x, y) {
        let i = choose|i: int|
            0 <= i < more.len() && (#[trigger] more[i]).dir == dir && more[i].covers(x, y);
        if i < lines.len() {
            assert(lines[i] == more[i]);
        }
    }
}

/// Painting one more segment over the canvas of a list gives the canvas of
/// the longer list.
pub proof fn lemma_rendered_push(lines: Seq<Line>, line: Line, width: nat, height: nat)
    ensures
        painted_over(rendered(lines, width, height), line) == rendered(
            lines.push(line),
            width,
            height,
        ),
{
    let before = rendered(lines, width, height);
    let after = rendered(lines.push(line), width, height);
    let over = painted_over(before, line);
    assert forall|y: int| 0 <= y < height implies #[trigger] over[y] == after[y] by {
        assert forall|x: int| 0 <= x < width implies #[trigger] over[y][x] == after[y][x] by {
            lemma_painted_push(lines, line, Direction::Horizontal, x, y);
            lemma_painted_push(lines, line, Direction::Vertical, x, y);
        }
        assert(over[y] =~= after[y]);
    }
    assert(over =~= after);
}

/// The test by which segments survive a minimum length of `size`.
pub open spec fn at_least(size: usize) -> spec_fn(Line) -> bool {
    |l: Line| l.len >= size
}

/// Operations on a list of segments.
pub trait Lines {
    /// Keeps the segments whose length is at least `size`, in their order.
    fn discard_shorter_than(&mut self, size: usize);

    /// Paints the segments onto a black canvas of `width` by `height`
    /// pixels.  A segment that does not lie inside the canvas is an error.
    fn to_image(&self, width: usize, height: usize) -> Result<Canvas, RenderError>;
}

impl Lines for Vec<Line> {
    fn discard_shorter_than(&mut self, size: usize)
        ensures
            final(self)@ == old(self)@.filter(at_least(size)),
    {
        let mut kept: Vec<Line> = Vec::new();
        let mut i: usize = 0;
        while i < self.len()
            invariant
                i <= self.len(),
                *self == *old(self),
                kept@ == self@.take(i as int).filter(at_least(size)),
            decreases self.len() - i,
        {
            let line = self[i];
            proof {
                assert(self@.take(i as int + 1) =~= self@.take(i as int).push(line));
                self@.take(i as int).lemma_filter_push(line, at_least(size));
            }
            if line.len >= size {
                kept.push(line);
            }
            i += 1;
        }
        proof {
            assert(self@.take(self.len() as int) =~= self@);
        }
        *self = kept;
    }

    fn to_image(&self, width: usize, height: usize) -> (image: Result<Canvas, RenderError>)
        ensures
            match image {
                Ok(canvas) => {
                    &&& canvas.wf()
                    &&& fits_in_memory(height as nat, width as nat)
                    &&& forall|i: int|
                        0 <= i < self.len() ==> (#[trigger] self[i]).fits(width as int, height as int)
                    &&& canvas@ == rendered(self@, width as nat, height as nat)
                    &&& canvas.spec_width() == width
                    &&& canvas.spec_height() == height
                },
                Err(RenderError::CanvasTooLarge) => !fits_in_memory(height as nat, width as nat),
                Err(RenderError::OutOfBounds { index }) => {
                    &&& fits_in_memory(height as nat, width as nat)
                    &&& index < self.len()
                    &&& !self[index as int].fits(width as int, height as int)
                    &&& forall|i: int|
                        0 <= i < index ==> (#[trigger] self[i]).fits(width as int, height as int)
                },
            },
    {
        let mut canvas = match Canvas::new(width, height) {
            Some(canvas) => canvas,
            None => {
                return Err(RenderError::CanvasTooLarge);
            },
        };
        proof {
            assert(self@.take(0) =~= Seq::<Line>::empty());
            lemma_rendered_nothing(width as nat, height as nat);
        }
        let mut i: usize = 0;
        while i < self.len()
            invariant
                i <= self.len(),
                fits_in_memory(height as nat, width as nat),
                canvas.wf(),
                canvas.spec_width() == width,
                canvas.spec_height() == height,
                forall|j: int| 0 <= j < i ==> (#[trigger] self[j]).fits(width as int, height as int),
                canvas@ == rendered(self@.take(i as int), width as nat, height as nat),
            decreases self.len() - i,
        {
            if !self[i].is_inside(width, height) {
                return Err(RenderError::OutOfBounds { index: i });
            }
            canvas.paint(&self[i]);
            proof {
                assert(self@.take(i as int + 1) =~= self@.take(i as int).push(self[i as int]));
                lemma_rendered_push(self@.take(i as int), self[i as int], width as nat, height as nat);
            }
            i += 1;
        }
        proof {
            assert(self@.take(self.len() as int) =~= self@);
        }
        Ok(canvas)
    }
}

/// Raising the minimum length only removes segments: what survives the
/// larger minimum is what survives it among the survivors of the smaller one.
pub proof fn lemma_discard_monotone(lines: Seq<Line>, small: usize, large: usize)
    requires
        small <= large,
    ensures
        lines.filter(at_least(large)) == lines.filter(at_least(small)).filter(at_least(large)),
        forall|l: Line|
            lines.filter(at_least(large)).contains(l) ==> #[trigger] lines.filter(
                at_least(small),
            ).contains(l),
    decreases lines.len(),
{
    reveal(Seq::filter);
    if lines.len() > 0 {
        let init = lines.drop_last();
        let last = lines.last();
        lemma_discard_monotone(init, small, large);
        init.filter(at_least(small)).lemma_filter_push(last, at_least(large));
    }
    assert forall|l: Line| lines.filter(at_least(large)).contains(l) implies #[trigger] lines.filter(
        at_least(small),
    ).contains(l) by {
        lines.filter(at_least(small)).lemma_filter_contains_rev(at_least(large), l);
    }
}

} // verus!
