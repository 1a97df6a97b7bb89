//! The pixel grid: bounds, row-major indexing, and the grayscale shade
//! written for one escape-time result.

use vstd::prelude::*;

verus! {

/// Total dimensions of the output pixel grid.
#[derive(Clone, Copy, PartialEq, Eq, Structural, Debug)]
pub struct ImageBounds {
    pub width: usize,
    pub height: usize,
}

impl ImageBounds {
    /// Both dimensions are positive and the whole grid is addressable.
    pub open spec fn wf(self) -> bool {
        &&& self.width > 0
        &&& self.height > 0
        &&& self.width * self.height <= usize::MAX
    }

    /// Number of pixels in the grid, which is also the byte length of
    /// the buffer that holds it, one byte per pixel.
    pub open spec fn spec_pixel_count(self) -> int {
        self.width * self.height
    }

    /// Byte length of the buffer for this grid.
    pub fn pixel_count(&self) -> (n: usize)
        requires
            self.wf(),
        ensures
            n == self.spec_pixel_count(),
    {
        self.width * self.height
    }
}

/// Row-major buffer index of the pixel at `column`, `row`.
pub fn pixel_index(bounds: ImageBounds, column: usize, row: usize) -> (k: usize)
    requires
        bounds.wf(),
        column < bounds.width,
        row < bounds.height,
    ensures
        k == row * bounds.width + column,
        k < bounds.spec_pixel_count(),
{
    proof {
        assert(row * bounds.width + column < bounds.width * bounds.height) by (nonlinear_arith)
            requires
                column < bounds.width,
                row < bounds.height,
        ;
    }
    row * bounds.width + column
}

/// Grayscale value for one escape-time result: a point that never escaped
/// belongs to the set and is drawn black; a point that escaped at
/// iteration `i` is drawn `255 - i`, darker the sooner it escaped.
pub fn shade(escape: Option<usize>) -> (v: u8)
    requires
        escape matches Some(i) ==> i < 255,
    ensures
        match escape {
            None => v == 0,
            Some(i) => v == 255 - i,
        },
{
    match escape {
        None => 0,
        Some(count) => 255 - (count as u8),
    }
}

} // verus!
