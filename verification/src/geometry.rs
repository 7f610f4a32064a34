//! Pixel geometry of the atlas.

use vstd::arithmetic::div_mod::lemma_fundamental_div_mod_converse;
use vstd::prelude::*;

verus! {

/// A position in the atlas, in pixels from its top left corner.
#[derive(Clone, Copy, Debug, PartialEq, Eq, Structural)]
pub struct Point {
    pub x: u32,
    pub y: u32,
}

/// A rectangle of atlas pixels: the columns from `min.x` up to but not
/// including `max.x`, and the rows from `min.y` up to but not including
/// `max.y`.
#[derive(Clone, Copy, Debug, PartialEq, Eq, Structural)]
pub struct Rect {
    pub min: Point,
    pub max: Point,
}

/// The size of a rectangle, in pixels.
#[derive(Clone, Copy, Debug, PartialEq, Eq, Structural)]
pub struct Extent {
    pub width: u32,
    pub height: u32,
}

impl Extent {
    /// Number of pixels of a rectangle of this size.
    pub open spec fn area(self) -> int {
        self.width * self.height
    }
}

impl Rect {
    /// The corners are in order.
    pub open spec fn wf(self) -> bool {
        self.min.x <= self.max.x && self.min.y <= self.max.y
    }

    /// Number of columns.
    pub open spec fn spec_width(self) -> int {
        self.max.x - self.min.x
    }

    /// Number of rows.
    pub open spec fn spec_height(self) -> int {
        self.max.y - self.min.y
    }

    /// Whether the pixel in column `x` and row `y` belongs to the rectangle.
    pub open spec fn contains(self, x: int, y: int) -> bool {
        self.min.x <= x < self.max.x && self.min.y <= y < self.max.y
    }

    /// Whether the rectangle lies inside an atlas of the given size.
    pub open spec fn within(self, width: int, height: int) -> bool {
        self.max.x <= width && self.max.y <= height
    }

    /// Whether the rectangle has the given size.
    pub open spec fn has_extent(self, extent: Extent) -> bool {
        self.spec_width() == extent.width && self.spec_height() == extent.height
    }

    /// Whether the two rectangles have no pixel in common.
    pub open spec fn disjoint(self, other: Rect) -> bool {
        ||| self.max.x <= self.min.x
        ||| self.max.y <= self.min.y
        ||| other.max.x <= other.min.x
        ||| other.max.y <= other.min.y
        ||| self.max.x <= other.min.x
        ||| other.max.x <= self.min.x
        ||| self.max.y <= other.min.y
        ||| other.max.y <= self.min.y
    }

    /// Two rectangles are disjoint exactly when no pixel belongs to both.
    pub proof fn lemma_disjoint_pixels(self, other: Rect)
        ensures
            self.disjoint(other) <==> forall|x: int, y: int|
                !(self.contains(x, y) && #[trigger] other.contains(x, y)),
    {
        if !self.disjoint(other) {
            let x = if self.min.x >= other.min.x {
                self.min.x as int
            } else {
                other.min.x as int
            };
            let y = if self.min.y >= other.min.y {
                self.min.y as int
            } else {
                other.min.y as int
            };
            assert(self.contains(x, y) && other.contains(x, y));
        }
    }

    /// Number of columns.
    pub fn width(&self) -> (w: u32)
        requires
            self.wf(),
        ensures
            w == self.spec_width(),
    {
        self.max.x - self.min.x
    }

    /// Number of rows.
    pub fn height(&self) -> (h: u32)
        requires
            self.wf(),
        ensures
            h == self.spec_height(),
    {
        self.max.y - self.min.y
    }
}

/// The byte of the pixel in column `x` and row `y` of a row-major bitmap
/// that is `width` pixels wide.
pub open spec fn pixel_at(pixels: Seq<u8>, width: int, x: int, y: int) -> u8 {
    pixels[y * width + x]
}

/// Quotient and remainder of `q * d + r` by `d`, for a remainder in range.
pub proof fn lemma_split(q: int, r: int, d: int)
    requires
        0 < d,
        0 <= r < d,
    ensures
        (q * d + r) / d == q,
        (q * d + r) % d == r,
{
    lemma_fundamental_div_mod_converse(q * d + r, d, q, r);
}

/// A position inside a bitmap has a row-major offset inside its buffer,
/// from which the position can be read back.
pub proof fn lemma_row_major(x: int, y: int, width: int, height: int)
    requires
        0 <= x < width,
        0 <= y < height,
    ensures
        0 <= y * width + x < width * height,
        (y * width + x) / width == y,
        (y * width + x) % width == x,
{
    assert(y * width + x < width * height && 0 <= y * width) by (nonlinear_arith)
        requires
            0 <= x < width,
            0 <= y < height,
    ;
    lemma_split(y, x, width);
}

/// An offset inside the buffer of a bitmap is the row-major offset of a
/// position inside the bitmap.
pub proof fn lemma_position(p: int, width: int, height: int)
    requires
        0 <= width,
        0 <= height,
        0 <= p < width * height,
    ensures
        0 <= p % width < width,
        0 <= p / width < height,
        p == (p / width) * width + p % width,
{
    assert(0 < width) by (nonlinear_arith)
        requires
            0 <= width,
            0 <= p < width * height,
    ;
    let x = p % width;
    let y = p / width;
    assert(p == y * width + x && 0 <= x < width) by (nonlinear_arith)
        requires
            0 < width,
            x == p % width,
            y == p / width,
    ;
    assert(0 <= y < height) by (nonlinear_arith)
        requires
            0 < width,
            0 <= x < width,
            p == y * width + x,
            0 <= p < width * height,
    ;
}

} // verus!
