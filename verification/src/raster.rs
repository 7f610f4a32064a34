//! What the rasterizer hands over for one glyph.

use crate::geometry::{lemma_row_major, pixel_at, Extent};
use vstd::prelude::*;

verus! {

/// Code of the first character of the glyph table, `'!'`.
pub const FIRST_CODE: u8 = 0x21;

/// Code of the last character of the glyph table, `'~'`.
pub const LAST_CODE: u8 = 0x7E;

/// Number of slots of the glyph table.
pub const GLYPH_COUNT: usize = 94;

/// An 8-bit grayscale bitmap in row-major order.
#[derive(Clone, Debug, PartialEq, Eq)]
pub struct Bitmap {
    pub width: u32,
    pub height: u32,
    pub pixels: Vec<u8>,
}

impl Bitmap {
    /// The buffer holds one byte for every pixel.
    pub open spec fn wf(&self) -> bool {
        self.pixels@.len() == self.width * self.height
    }

    /// Coverage of the pixel in column `x` and row `y`; zero outside the
    /// bitmap.
    pub open spec fn coverage(&self, x: int, y: int) -> u8 {
        if 0 <= x < self.width && 0 <= y < self.height {
            pixel_at(self.pixels@, self.width as int, x, y)
        } else {
            0
        }
    }

    /// Whether the buffer holds one byte for every pixel.
    pub fn is_well_formed(&self) -> (ok: bool)
        ensures
            ok == self.wf(),
    {
        proof {
            assert(self.width * self.height <= 0xFFFF_FFFF * 0xFFFF_FFFF) by (nonlinear_arith)
                requires
                    self.width <= 0xFFFF_FFFF,
                    self.height <= 0xFFFF_FFFF,
            ;
        }
        self.pixels.len() as u128 == self.width as u128 * self.height as u128
    }

    /// The top left part of the bitmap, `width` pixels wide and `height`
    /// pixels high, in row-major order.
    pub fn clip(&self, width: u32, height: u32) -> (clipped: Vec<u8>)
        requires
            self.wf(),
            width <= self.width,
            height <= self.height,
        ensures
            clipped@.len() == width * height,
            forall|x: int, y: int|
                0 <= x < width && 0 <= y < height ==> #[trigger] pixel_at(
                    clipped@,
                    width as int,
                    x,
                    y,
                ) == pixel_at(self.pixels@, self.width as int, x, y),
    {
        let total: usize = self.pixels.len();
        let mut clipped: Vec<u8> = Vec::new();
        let mut y: usize = 0;
        while y < height as usize
            invariant
                self.wf(),
                self.pixels@.len() <= usize::MAX,
                width <= self.width,
                height <= self.height,
                y <= height,
                clipped@.len() == y * width,
                forall|i: int, j: int|
                    0 <= i < width && 0 <= j < y ==> #[trigger] pixel_at(
                        clipped@,
                        width as int,
                        i,
                        j,
                    ) == pixel_at(self.pixels@, self.width as int, i, j),
            decreases height - y,
        {
            let mut x: usize = 0;
            while x < width as usize
                invariant
                    self.wf(),
                    self.pixels@.len() <= usize::MAX,
                    width <= self.width,
                    height <= self.height,
                    y < height,
                    x <= width,
                    clipped@.len() == y * width + x,
                    forall|i: int, j: int|
                        0 <= i < width && 0 <= j < y ==> #[trigger] pixel_at(
                            clipped@,
                            width as int,
                            i,
                            j,
                        ) == pixel_at(self.pixels@, self.width as int, i, j),
                    forall|i: int|
                        0 <= i < x ==> #[trigger] pixel_at(clipped@, width as int, i, y as int)
                            == pixel_at(self.pixels@, self.width as int, i, y as int),
                decreases width - x,
            {
                proof {
                    lemma_row_major(x as int, y as int, self.width as int, self.height as int);
                    assert(0 <= y * self.width) by (nonlinear_arith)
                        requires
                            0 <= y,
                            0 <= self.width,
                    ;
                }
                let byte: u8 = self.pixels[y * (self.width as usize) + x];
                let ghost before = clipped@;
                clipped.push(byte);
                proof {
                    assert(width * y == y * width) by (nonlinear_arith);
                    assert forall|i: int, j: int| 0 <= i < width && 0 <= j < y implies #[trigger] pixel_at(
                        clipped@,
                        width as int,
                        i,
                        j,
                    ) == pixel_at(self.pixels@, self.width as int, i, j) by {
                        lemma_row_major(i, j, width as int, y as int);
                        assert(pixel_at(before, width as int, i, j) == pixel_at(
                            self.pixels@,
                            self.width as int,
                            i,
                            j,
                        ));
                    }
                    assert forall|i: int| 0 <= i < x + 1 implies #[trigger] pixel_at(
                        clipped@,
                        width as int,
                        i,
                        y as int,
                    ) == pixel_at(self.pixels@, self.width as int, i, y as int) by {
                        if i < x {
                            assert(pixel_at(before, width as int, i, y as int) == pixel_at(
                                self.pixels@,
                                self.width as int,
                                i,
                                y as int,
                            ));
                        }
                    }
                }
                x += 1;
            }
            proof {
                assert(y * width + width == (y + 1) * width) by (nonlinear_arith);
            }
            y += 1;
        }
        proof {
            assert(height * width == width * height) by (nonlinear_arith);
        }
        clipped
    }
}

/// The pixels that a glyph covers, relative to the origin of the glyph on
/// the baseline: the columns from `min_x` up to but not including `max_x`
/// and the rows from `min_y` up to but not including `max_y`. Rows count
/// downwards.
#[derive(Clone, Copy, Debug, PartialEq, Eq, Structural)]
pub struct PixelBox {
    pub min_x: i32,
    pub min_y: i32,
    pub max_x: i32,
    pub max_y: i32,
}

impl PixelBox {
    /// The corners are in order.
    pub open spec fn wf(self) -> bool {
        self.min_x <= self.max_x && self.min_y <= self.max_y
    }

    /// Size of the box.
    pub open spec fn spec_extent(self) -> Extent {
        Extent {
            width: (self.max_x - self.min_x) as u32,
            height: (self.max_y - self.min_y) as u32,
        }
    }

    /// Size of the box.
    pub fn extent(&self) -> (extent: Extent)
        requires
            self.wf(),
        ensures
            extent == self.spec_extent(),
    {
        Extent {
            width: (self.max_x as i64 - self.min_x as i64) as u32,
            height: (self.max_y as i64 - self.min_y as i64) as u32,
        }
    }
}

/// One rasterized glyph that is to go into the atlas.
#[derive(Clone, Debug, PartialEq, Eq)]
pub struct GlyphRequest {
    /// Character code, from `FIRST_CODE` to `LAST_CODE`.
    pub code: u8,
    /// The pixels that the glyph covers.
    pub bounding_box: PixelBox,
    /// Coverage of those pixels.
    pub coverage: Bitmap,
}

impl GlyphRequest {
    /// The code belongs to the glyph table, the box is in order and the
    /// coverage holds one byte for every pixel of its bitmap.
    pub open spec fn wf(&self) -> bool {
        &&& FIRST_CODE <= self.code <= LAST_CODE
        &&& self.bounding_box.wf()
        &&& self.coverage.wf()
    }

    /// Slot of the glyph in the glyph table.
    pub open spec fn slot(&self) -> int {
        self.code - FIRST_CODE
    }
}

/// Every request is well formed, and no two are for the same character.
pub open spec fn requests_wf(requests: Seq<GlyphRequest>) -> bool {
    &&& forall|i: int| 0 <= i < requests.len() ==> (#[trigger] requests[i]).wf()
    &&& forall|i: int, j: int|
        0 <= i < j < requests.len() ==> (#[trigger] requests[i]).code != (
        #[trigger] requests[j]).code
}

/// The sizes that the requests ask of the packer: those of their
/// bounding boxes.
pub open spec fn requested_extents(requests: Seq<GlyphRequest>) -> Seq<Extent> {
    Seq::new(requests.len(), |i: int| requests[i].bounding_box.spec_extent())
}

/// Whether every request is well formed and no two are for the same
/// character.
pub fn check_requests(requests: &[GlyphRequest]) -> (ok: bool)
    ensures
        ok == requests_wf(requests@),
{
    let mut seen: Vec<bool> = Vec::with_capacity(GLYPH_COUNT);
    let mut k: usize = 0;
    while k < GLYPH_COUNT
        invariant
            k <= GLYPH_COUNT,
            seen@.len() == k,
            forall|j: int| 0 <= j < k ==> !(#[trigger] seen@[j]),
        decreases GLYPH_COUNT - k,
    {
        seen.push(false);
        k += 1;
    }
    let mut i: usize = 0;
    while i < requests.len()
        invariant
            i <= requests@.len(),
            seen@.len() == GLYPH_COUNT,
            forall|j: int| 0 <= j < i ==> (#[trigger] requests@[j]).wf(),
            forall|j: int, l: int|
                0 <= j < l < i ==> (#[trigger] requests@[j]).code != (#[trigger] requests@[l]).code,
            forall|j: int| 0 <= j < i ==> seen@[(#[trigger] requests@[j]).slot()],
            forall|slot: int|
                0 <= slot < GLYPH_COUNT && #[trigger] seen@[slot] ==> exists|j: int|
                    0 <= j < i && (#[trigger] requests@[j]).slot() == slot,
        decreases requests@.len() - i,
    {
        let request = &requests[i];
        let bounds = &request.bounding_box;
        if request.code < FIRST_CODE || request.code > LAST_CODE || bounds.min_x > bounds.max_x
            || bounds.min_y > bounds.max_y || !request.coverage.is_well_formed() {
            proof {
                assert(!requests@[i as int].wf());
            }
            return false;
        }
        let slot: usize = (request.code - FIRST_CODE) as usize;
        if seen[slot] {
            proof {
                let j = choose|j: int| 0 <= j < i && (#[trigger] requests@[j]).slot() == slot;
                assert(requests@[j].code == requests@[i as int].code);
            }
            return false;
        }
        let ghost before = seen@;
        seen.set(slot, true);
        proof {
            assert forall|j: int, l: int| 0 <= j < l < i + 1 implies (#[trigger] requests@[j]).code
                != (#[trigger] requests@[l]).code by {
                if l == i {
                    if requests@[j].code == requests@[l].code {
                        assert(before[requests@[j].slot()]);
                    }
                }
            }
            assert forall|other: int|
                0 <= other < GLYPH_COUNT && #[trigger] seen@[other] implies exists|j: int|
                0 <= j < i + 1 && (#[trigger] requests@[j]).slot() == other by {
                if other == slot {
                    assert(requests@[i as int].slot() == other);
                } else {
                    assert(before[other]);
                    let j = choose|j: int| 0 <= j < i && (#[trigger] requests@[j]).slot() == other;
                    assert(requests@[j].slot() == other);
                }
            }
        }
        i += 1;
    }
    true
}

} // verus!
