//! The baked font: the tiled atlas and the table of its glyphs.

use crate::geometry::Rect;
use vstd::prelude::*;

verus! {

/// A point size, written as a decimal number: `digits` with the decimal
/// point `decimals` places from its right end. `500` with one decimal is
/// 50.0 points.
#[derive(Clone, Copy, Debug, PartialEq, Eq, Structural)]
pub struct PointSize {
    pub digits: u32,
    pub decimals: u8,
}

/// Marks data that the texture hardware reads directly and that therefore
/// has to start on a 32-byte boundary in memory. A program that embeds a
/// baked atlas as a constant keeps it in a wrapper of this shape that
/// carries that alignment.
#[derive(Clone, Copy, Debug, PartialEq, Eq)]
pub struct AlignedData<T>(pub T);

/// One entry of the glyph table.
///
/// As fractions of the atlas, the texture bounds of the glyph are the
/// corners of `bounds` divided by the width and the height of the atlas.
#[derive(Clone, Copy, Debug, PartialEq, Eq, Structural)]
pub struct Glyph {
    /// Rows from the baseline down to the lower edge of the glyph, in
    /// pixels: the largest row of its bounding box.
    pub descender: i32,
    /// Rectangle of the glyph in the atlas, in pixels. Rows count
    /// downwards, as in the atlas bitmap.
    pub bounds: Rect,
}

/// A font baked into an atlas, as a program embeds it: the atlas and the
/// glyph table are borrowed, so that a constant can hold them.
#[derive(Clone, Copy, Debug, PartialEq, Eq)]
pub struct Font<'a> {
    /// Width of the atlas, in pixels.
    pub width: u32,
    /// Height of the atlas, in pixels.
    pub height: u32,
    /// Point size at which the glyphs were rasterized.
    pub size: PointSize,
    /// Advance of the space character, in 64ths of a pixel.
    pub space_advance: u32,
    /// The atlas in tiled order, one byte for every pixel.
    pub data: &'a [u8],
    /// The glyph table: the slot at index `code - 0x21` holds the glyph of
    /// the character with that code, or nothing where the font has none.
    pub glyphs: &'a [Option<Glyph>],
}

impl Font<'_> {
    /// The atlas holds one byte for every pixel, and every glyph lies
    /// inside the atlas.
    pub open spec fn wf(&self) -> bool {
        &&& self.data@.len() == self.width * self.height
        &&& forall|i: int|
            0 <= i < self.glyphs@.len() ==> (#[trigger] self.glyphs@[i] matches Some(glyph)
                ==> glyph.bounds.wf() && glyph.bounds.within(self.width as int, self.height as int))
    }

    /// Whether the atlas holds one byte for every pixel and every glyph
    /// lies inside the atlas.
    pub fn is_well_formed(&self) -> (ok: bool)
        ensures
            ok == self.wf(),
    {
        proof {
            assert(self.width * self.height <= 0xFFFF_FFFF * 0xFFFF_FFFF) by (nonlinear_arith)
                requires
                    self.width <= 0xFFFF_FFFF,
                    self.height <= 0xFFFF_FFFF,
            ;
        }
        if self.data.len() as u128 != self.width as u128 * self.height as u128 {
            return false;
        }
        let mut i: usize = 0;
        while i < self.glyphs.len()
            invariant
                i <= self.glyphs@.len(),
                forall|k: int|
                    0 <= k < i ==> (#[trigger] self.glyphs@[k] matches Some(glyph)
                        ==> glyph.bounds.wf() && glyph.bounds.within(
                        self.width as int,
                        self.height as int,
                    )),
            decreases self.glyphs@.len() - i,
        {
            match self.glyphs[i] {
                Some(glyph) => {
                    let bounds = glyph.bounds;
                    if bounds.min.x > bounds.max.x || bounds.min.y > bounds.max.y || bounds.max.x
                        > self.width || bounds.max.y > self.height {
                        return false;
                    }
                },
                None => {},
            }
            i += 1;
        }
        true
    }
}

} // verus!
