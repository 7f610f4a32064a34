//! Baking: the rasterized glyphs are packed, written into the atlas,
//! the atlas is brought into tiled order, and the glyph table is drawn up.

use crate::atlas::{compose, is_composition};
use crate::error::BakeError;
use crate::font::{Font, Glyph, PointSize};
use crate::geometry::{Extent, Rect};
use crate::pack::{pack, packing};
use crate::raster::{requested_extents, requests_wf, GlyphRequest, FIRST_CODE, GLYPH_COUNT};
use crate::shelf::{total_area, valid_placements};
use crate::tile::{
    encode_tiled, lemma_untiled_tiled, tile_aligned, untiled, BLOCK_HEIGHT, BLOCK_WIDTH,
};
use vstd::prelude::*;

verus! {

/// The entry of the glyph table for a request that was placed at `bounds`:
/// the descender is the largest row of the bounding box of the glyph.
pub open spec fn table_entry(request: GlyphRequest, bounds: Rect) -> Glyph {
    Glyph { descender: request.bounding_box.max_y, bounds }
}

/// Whether `table` is the glyph table of the requests placed at
/// `placements`: it has a slot for every character code from `0x21` to
/// `0x7E`, in ascending order; the slot at index `code - 0x21` holds the
/// entry of the request for that code, and nothing where there is no such
/// request.
pub open spec fn is_glyph_table(
    table: Seq<Option<Glyph>>,
    requests: Seq<GlyphRequest>,
    placements: Seq<Rect>,
) -> bool {
    &&& table.len() == GLYPH_COUNT
    &&& forall|i: int|
        0 <= i < requests.len() ==> table[(#[trigger] requests[i]).slot()] == Some(
            table_entry(requests[i], placements[i]),
        )
    &&& forall|k: int|
        0 <= k < GLYPH_COUNT && missing(requests, requests.len() as int, k) ==> (
        #[trigger] table[k]) is None
}

/// Whether none of the first `n` requests is for the character of slot
/// `k`.
pub open spec fn missing(requests: Seq<GlyphRequest>, n: int, k: int) -> bool {
    forall|i: int| 0 <= i < n ==> (#[trigger] requests[i]).slot() != k
}

/// Draws up the glyph table for requests that were placed at
/// `placements`, the rectangle at index `i` belonging to the request at
/// index `i`.
pub fn build_glyph_table(requests: &[GlyphRequest], placements: &[Rect]) -> (table: Vec<
    Option<Glyph>,
>)
    requires
        requests_wf(requests@),
        placements@.len() == requests@.len(),
    ensures
        is_glyph_table(table@, requests@, placements@),
{
    let mut table: Vec<Option<Glyph>> = Vec::with_capacity(GLYPH_COUNT);
    let mut k: usize = 0;
    while k < GLYPH_COUNT
        invariant
            k <= GLYPH_COUNT,
            table@.len() == k,
            forall|j: int| 0 <= j < k ==> (#[trigger] table@[j]) is None,
        decreases GLYPH_COUNT - k,
    {
        table.push(None);
        k += 1;
    }
    let mut i: usize = 0;
    while i < requests.len()
        invariant
            i <= requests@.len(),
            requests_wf(requests@),
            placements@.len() == requests@.len(),
            table@.len() == GLYPH_COUNT,
            forall|j: int|
                0 <= j < i ==> table@[(#[trigger] requests@[j]).slot()] == Some(
                    table_entry(requests@[j], placements@[j]),
                ),
            forall|k: int|
                0 <= k < GLYPH_COUNT && missing(requests@, i as int, k) ==> (
                #[trigger] table@[k]) is None,
        decreases requests@.len() - i,
    {
        let request = &requests[i];
        assert(request.wf());
        let slot: usize = (request.code - FIRST_CODE) as usize;
        let ghost before = table@;
        table.set(
            slot,
            Some(Glyph { descender: request.bounding_box.max_y, bounds: placements[i] }),
        );
        proof {
            assert forall|j: int| 0 <= j < i + 1 implies table@[(#[trigger] requests@[j]).slot()]
                == Some(table_entry(requests@[j], placements@[j])) by {
                if j < i {
                    assert(requests@[j].code != requests@[i as int].code);
                    assert(requests@[j].wf());
                }
            }
            assert forall|k: int|
                0 <= k < GLYPH_COUNT && missing(requests@, i + 1, k) implies (
            #[trigger] table@[k]) is None by {
                assert(requests@[i as int].slot() != k);
                assert(missing(requests@, i as int, k));
                assert(before[k] is None);
            }
        }
        i += 1;
    }
    table
}

/// The sizes that the requests ask of the packer.
fn extents_of(requests: &[GlyphRequest]) -> (sizes: Vec<Extent>)
    requires
        requests_wf(requests@),
    ensures
        sizes@ == requested_extents(requests@),
{
    let mut sizes: Vec<Extent> = Vec::with_capacity(requests.len());
    let mut i: usize = 0;
    while i < requests.len()
        invariant
            i <= requests@.len(),
            requests_wf(requests@),
            sizes@.len() == i,
            forall|j: int| 0 <= j < i ==> sizes@[j] == requests@[j].bounding_box.spec_extent(),
        decreases requests@.len() - i,
    {
        assert(requests@[i as int].wf());
        sizes.push(requests[i].bounding_box.extent());
        i += 1;
    }
    proof {
        assert(sizes@ =~= requested_extents(requests@));
    }
    sizes
}

/// What baking gives: a font that owns its atlas and its glyph table.
#[derive(Clone, Debug, PartialEq, Eq)]
pub struct BakedFont {
    /// Width of the atlas, in pixels.
    pub width: u32,
    /// Height of the atlas, in pixels.
    pub height: u32,
    /// Point size at which the glyphs were rasterized.
    pub size: PointSize,
    /// Advance of the space character, in 64ths of a pixel.
    pub space_advance: u32,
    /// The atlas in tiled order, one byte for every pixel.
    pub data: Vec<u8>,
    /// The glyph table, one slot for every character code from `0x21` to
    /// `0x7E`.
    pub glyphs: Vec<Option<Glyph>>,
}

impl BakedFont {
    /// The atlas holds one byte for every pixel, and every glyph lies
    /// inside the atlas.
    pub open spec fn wf(&self) -> bool {
        &&& self.data@.len() == self.width * self.height
        &&& forall|i: int|
            0 <= i < self.glyphs@.len() ==> (#[trigger] self.glyphs@[i] matches Some(glyph)
                ==> glyph.bounds.wf() && glyph.bounds.within(self.width as int, self.height as int))
    }

    /// The font as text layout takes it.
    pub fn font(&self) -> (font: Font<'_>)
        ensures
            font.wf() == self.wf(),
            font.width == self.width,
            font.height == self.height,
            font.size == self.size,
            font.space_advance == self.space_advance,
            font.data@ == self.data@,
            font.glyphs@ == self.glyphs@,
    {
        Font {
            width: self.width,
            height: self.height,
            size: self.size,
            space_advance: self.space_advance,
            data: self.data.as_slice(),
            glyphs: self.glyphs.as_slice(),
        }
    }
}

/// Bakes the rasterized glyphs into a font with an atlas of `width` by
/// `height` pixels.
///
/// Every request gets a rectangle of the size of its bounding box. The
/// atlas holds the coverage of every glyph at its rectangle and is zero
/// elsewhere; the font holds it in tiled order. The glyph table has a slot
/// for every character code from `0x21` to `0x7E`; the slot of a character
/// without a request is empty.
///
/// Baking fails with `UnalignedAtlas` where the atlas cannot be cut into
/// blocks of 8 by 4 pixels, and else with `AtlasOverflow` where the packer
/// cannot place every request, which is always the case where the
/// bounding boxes together cover more pixels than the atlas has.
pub fn bake(
    width: u32,
    height: u32,
    size: PointSize,
    space_advance: u32,
    requests: &[GlyphRequest],
) -> (result: Result<BakedFont, BakeError>)
    requires
        width * height <= usize::MAX,
        requests_wf(requests@),
    ensures
        match result {
            Ok(font) => {
                &&& tile_aligned(width as int, height as int)
                &&& font.wf()
                &&& font.width == width
                &&& font.height == height
                &&& font.size == size
                &&& font.space_advance == space_advance
                &&& packing(requested_extents(requests@), width, height) matches Some(placements)
                &&& valid_placements(
                    placements,
                    requested_extents(requests@),
                    width as int,
                    height as int,
                )
                &&& is_glyph_table(font.glyphs@, requests@, placements)
                &&& is_composition(
                    untiled(font.data@, width as int),
                    width as int,
                    height as int,
                    placements,
                    requests@,
                )
            },
            Err(BakeError::UnalignedAtlas) => !tile_aligned(width as int, height as int),
            Err(BakeError::AtlasOverflow) => {
                &&& tile_aligned(width as int, height as int)
                &&& packing(requested_extents(requests@), width, height) is None
            },
        },
        tile_aligned(width as int, height as int) && total_area(requested_extents(requests@))
            > width * height ==> result == Err::<BakedFont, BakeError>(BakeError::AtlasOverflow),
{
    if width % (BLOCK_WIDTH as u32) != 0 || height % (BLOCK_HEIGHT as u32) != 0 {
        return Err(BakeError::UnalignedAtlas);
    }
    let sizes = extents_of(requests);
    let placements = match pack(width, height, sizes.as_slice()) {
        Ok(placements) => placements,
        Err(e) => {
            return Err(e);
        },
    };
    let atlas = compose(width, height, placements.as_slice(), requests);
    let data = encode_tiled(atlas.as_slice(), width, height);
    let glyphs = build_glyph_table(requests, placements.as_slice());
    proof {
        lemma_untiled_tiled(atlas@, width as int, height as int);
        assert forall|k: int| 0 <= k < glyphs@.len() implies (#[trigger] glyphs@[k] matches Some(
            glyph,
        ) ==> glyph.bounds.wf() && glyph.bounds.within(width as int, height as int)) by {
            if glyphs@[k] is Some {
                assert(!missing(requests@, requests@.len() as int, k));
                let i = choose|i: int|
                    0 <= i < requests@.len() && (#[trigger] requests@[i]).slot() == k;
                assert(glyphs@[requests@[i].slot()] == Some(
                    table_entry(requests@[i], placements@[i]),
                ));
                assert(placements@[i].wf());
            }
        }
    }
    Ok(BakedFont { width, height, size, space_advance, data, glyphs })
}

/// Looking a character up in a font with the glyph table of the requests
/// gives the entry of the request for that character, and nothing where
/// there is no request for it: never the entry of another character.
pub proof fn lemma_lookup_after_bake(
    font: Font,
    requests: Seq<GlyphRequest>,
    placements: Seq<Rect>,
    c: char,
)
    requires
        requests_wf(requests),
        placements.len() == requests.len(),
        is_glyph_table(font.glyphs@, requests, placements),
    ensures
        forall|i: int|
            0 <= i < requests.len() && (#[trigger] requests[i]).code == c as u32
                ==> font.spec_glyph(c) == Some(table_entry(requests[i], placements[i])),
        (forall|i: int| 0 <= i < requests.len() ==> (#[trigger] requests[i]).code != c as u32)
            ==> font.spec_glyph(c) is None,
{
    assert forall|i: int|
        0 <= i < requests.len() && (#[trigger] requests[i]).code == c as u32 implies font.spec_glyph(
        c,
    ) == Some(table_entry(requests[i], placements[i])) by {
        assert(requests[i].wf());
        assert(c as u32 - 0x21 == requests[i].slot());
    }
    if forall|i: int| 0 <= i < requests.len() ==> (#[trigger] requests[i]).code != c as u32 {
        let slot = c as u32 - 0x21;
        if 0 <= slot < font.glyphs@.len() {
            assert(missing(requests, requests.len() as int, slot)) by {
                assert forall|i: int| 0 <= i < requests.len() implies (
                #[trigger] requests[i]).slot() != slot by {
                    assert(requests[i].code != c as u32);
                }
            }
            assert(font.glyphs@[slot] is None);
        }
    }
}

} // verus!
