//! The atlas bitmap: every placed glyph is written at its rectangle, and
//! every pixel that no rectangle covers stays zero.

use crate::geometry::{lemma_row_major, pixel_at, Rect};
use crate::shelf::placements_fit;
use crate::raster::GlyphRequest;
use image::imageops::overlay;
use image::{GrayImage, ImageBuffer, Luma};
use vstd::prelude::*;

verus! {

/// The bottom bitmap after the top bitmap was laid over it with its top
/// left corner in column `x` and row `y`: the pixels under the top bitmap
/// are those of the top bitmap, all others are unchanged. What of the top
/// bitmap lies outside the bottom bitmap is dropped.
pub open spec fn overlaid(
    bottom: Seq<u8>,
    width: int,
    top: Seq<u8>,
    top_width: int,
    top_height: int,
    x: int,
    y: int,
) -> Seq<u8> {
    Seq::new(
        bottom.len(),
        |p: int|
            {
                let column = p % width;
                let row = p / width;
                if x <= column < x + top_width && y <= row < y + top_height {
                    pixel_at(top, top_width, column - x, row - y)
                } else {
                    bottom[p]
                }
            },
    )
}

/// Calls `image::ImageBuffer::new` for an 8-bit grayscale image and hands
/// its buffer out with `into_raw`.
///
/// Trusted: the new image holds one zero byte for every pixel, in
/// row-major order. The call panics where the number of pixels overflows
/// `usize`, which the precondition leaves out.
#[verifier::external_body]
fn blank_image(width: u32, height: u32) -> (pixels: Vec<u8>)
    requires
        width * height <= usize::MAX,
    ensures
        pixels@ == Seq::new((width * height) as nat, |p: int| 0u8),
{
    GrayImage::new(width, height).into_raw()
}

/// Calls `image::imageops::overlay` on two 8-bit grayscale images. The
/// buffers go into the images by `ImageBuffer::from_raw`, and the bottom
/// image comes back by `into_raw`.
///
/// Trusted: for pixels without an alpha channel the overlay copies every
/// pixel of the top image that lies over the bottom image into the bottom
/// image and leaves the other pixels of the bottom image as they are, as
/// `overlaid` says. `from_raw` fails where a buffer is shorter than its
/// image, which the precondition leaves out.
#[verifier::external_body]
fn overlay_image(
    bottom: Vec<u8>,
    width: u32,
    height: u32,
    top: &Vec<u8>,
    top_width: u32,
    top_height: u32,
    x: u32,
    y: u32,
) -> (pixels: Vec<u8>)
    requires
        bottom@.len() == width * height,
        top@.len() == top_width * top_height,
    ensures
        pixels@ == overlaid(
            bottom@,
            width as int,
            top@,
            top_width as int,
            top_height as int,
            x as int,
            y as int,
        ),
{
    let mut bottom = GrayImage::from_raw(width, height, bottom).unwrap();
    let top: ImageBuffer<Luma<u8>, &[u8]> = ImageBuffer::from_raw(
        top_width,
        top_height,
        top.as_slice(),
    ).unwrap();
    overlay(&mut bottom, &top, x, y);
    bottom.into_raw()
}

/// Whether none of the first `n` rectangles covers the pixel in column
/// `x` and row `y`.
pub open spec fn uncovered(placements: Seq<Rect>, n: int, x: int, y: int) -> bool {
    forall|i: int| 0 <= i < n ==> !(#[trigger] placements[i]).contains(x, y)
}

/// Whether `atlas` is the bitmap of the given size into which the first
/// `n` glyphs were written: every pixel of the rectangle of such a glyph
/// holds the coverage of the glyph at that place, counted from the top left
/// corner of the rectangle (zero where the coverage bitmap is smaller than
/// the rectangle), and every pixel that none of these rectangles covers is
/// zero.
pub open spec fn composed_upto(
    atlas: Seq<u8>,
    width: int,
    height: int,
    placements: Seq<Rect>,
    requests: Seq<GlyphRequest>,
    n: int,
) -> bool {
    &&& atlas.len() == width * height
    &&& forall|i: int, x: int, y: int|
        0 <= i < n && (#[trigger] placements[i].contains(x, y)) ==> pixel_at(atlas, width, x, y)
            == requests[i].coverage.coverage(x - placements[i].min.x, y - placements[i].min.y)
    &&& forall|x: int, y: int|
        0 <= x < width && 0 <= y < height && uncovered(placements, n, x, y) ==> #[trigger] pixel_at(
            atlas,
            width,
            x,
            y,
        ) == 0
}

/// Whether `atlas` is the bitmap of the given size into which all the
/// glyphs were written at their rectangles.
pub open spec fn is_composition(
    atlas: Seq<u8>,
    width: int,
    height: int,
    placements: Seq<Rect>,
    requests: Seq<GlyphRequest>,
) -> bool {
    composed_upto(atlas, width, height, placements, requests, placements.len() as int)
}

/// Laying the clipped coverage of glyph `n` over an atlas that holds the
/// glyphs before it gives the atlas that holds glyph `n` too.
proof fn lemma_compose_step(
    before: Seq<u8>,
    width: int,
    height: int,
    placements: Seq<Rect>,
    requests: Seq<GlyphRequest>,
    n: int,
    top: Seq<u8>,
    top_width: int,
    top_height: int,
)
    requires
        composed_upto(before, width, height, placements, requests, n),
        0 <= n < placements.len(),
        placements.len() == requests.len(),
        placements_fit(placements, width, height),
        requests[n].coverage.wf(),
        0 <= top_width <= requests[n].coverage.width,
        0 <= top_height <= requests[n].coverage.height,
        top_width <= placements[n].spec_width(),
        top_height <= placements[n].spec_height(),
        top_width == requests[n].coverage.width || top_width == placements[n].spec_width(),
        top_height == requests[n].coverage.height || top_height == placements[n].spec_height(),
        forall|x: int, y: int|
            0 <= x < top_width && 0 <= y < top_height ==> #[trigger] pixel_at(
                top,
                top_width,
                x,
                y,
            ) == pixel_at(requests[n].coverage.pixels@, requests[n].coverage.width as int, x, y),
    ensures
        composed_upto(
            overlaid(
                before,
                width,
                top,
                top_width,
                top_height,
                placements[n].min.x as int,
                placements[n].min.y as int,
            ),
            width,
            height,
            placements,
            requests,
            n + 1,
        ),
{
    let target = placements[n];
    let left = target.min.x as int;
    let upper = target.min.y as int;
    let after = overlaid(before, width, top, top_width, top_height, left, upper);
    assert forall|i: int, x: int, y: int|
        0 <= i < n + 1 && (#[trigger] placements[i].contains(x, y)) implies pixel_at(
        after,
        width,
        x,
        y,
    ) == requests[i].coverage.coverage(x - placements[i].min.x, y - placements[i].min.y) by {
        assert(placements[i].wf() && placements[i].within(width, height));
        lemma_row_major(x, y, width, height);
        if i < n {
            assert(placements[i].disjoint(placements[n]));
            assert(pixel_at(after, width, x, y) == pixel_at(before, width, x, y));
        } else {
            assert forall|k: int| 0 <= k < n implies !(#[trigger] placements[k]).contains(
                x,
                y,
            ) by {
                assert(placements[k].disjoint(placements[n]));
            }
            assert(uncovered(placements, n, x, y));
            assert(pixel_at(before, width, x, y) == 0);
            if x - left < top_width && y - upper < top_height {
                assert(pixel_at(after, width, x, y) == pixel_at(
                    top,
                    top_width,
                    x - left,
                    y - upper,
                ));
            }
        }
    }
    assert forall|x: int, y: int|
        0 <= x < width && 0 <= y < height && uncovered(
            placements,
            n + 1,
            x,
            y,
        ) implies #[trigger] pixel_at(after, width, x, y) == 0 by {
        lemma_row_major(x, y, width, height);
        assert(!placements[n].contains(x, y));
        assert(uncovered(placements, n, x, y));
        assert(pixel_at(before, width, x, y) == 0);
    }
}

/// Writes the coverage of every glyph into a new atlas of `width` by
/// `height` pixels, at the rectangle with the index of the glyph and
/// clipped to that rectangle.
pub fn compose(width: u32, height: u32, placements: &[Rect], requests: &[GlyphRequest]) -> (atlas:
    Vec<u8>)
    requires
        width * height <= usize::MAX,
        placements@.len() == requests@.len(),
        placements_fit(placements@, width as int, height as int),
        forall|i: int| 0 <= i < requests@.len() ==> (#[trigger] requests@[i]).coverage.wf(),
    ensures
        is_composition(atlas@, width as int, height as int, placements@, requests@),
{
    let mut atlas = blank_image(width, height);
    proof {
        assert forall|x: int, y: int| 0 <= x < width && 0 <= y < height implies #[trigger] pixel_at(
            atlas@,
            width as int,
            x,
            y,
        ) == 0 by {
            lemma_row_major(x, y, width as int, height as int);
        }
    }
    let mut n: usize = 0;
    while n < placements.len()
        invariant
            n <= placements@.len(),
            placements@.len() == requests@.len(),
            placements_fit(placements@, width as int, height as int),
            forall|i: int| 0 <= i < requests@.len() ==> (#[trigger] requests@[i]).coverage.wf(),
            composed_upto(
                atlas@,
                width as int,
                height as int,
                placements@,
                requests@,
                n as int,
            ),
        decreases placements@.len() - n,
    {
        let target = placements[n];
        let coverage = &requests[n].coverage;
        assert(target.wf());
        let top_width: u32 = if coverage.width < target.width() {
            coverage.width
        } else {
            target.width()
        };
        let top_height: u32 = if coverage.height < target.height() {
            coverage.height
        } else {
            target.height()
        };
        let top = coverage.clip(top_width, top_height);
        proof {
            lemma_compose_step(
                atlas@,
                width as int,
                height as int,
                placements@,
                requests@,
                n as int,
                top@,
                top_width as int,
                top_height as int,
            );
        }
        atlas = overlay_image(
            atlas,
            width,
            height,
            &top,
            top_width,
            top_height,
            target.min.x,
            target.min.y,
        );
        n += 1;
    }
    atlas
}

} // verus!
