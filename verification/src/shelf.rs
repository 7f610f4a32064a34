//! Shelves: horizontal bands of the atlas that are filled with rectangles
//! from left to right. When a rectangle does not fit into what is left of
//! the current shelf, a new shelf is opened below it.

use crate::error::BakeError;
use crate::geometry::{Extent, Point, Rect};
use vstd::prelude::*;

verus! {

/// The shelf that is being filled.
pub struct Shelf {
    /// First free column of the shelf.
    pub x: u32,
    /// First row of the shelf.
    pub y: u32,
    /// Height of the tallest rectangle on the shelf.
    pub height: u32,
}

/// The rectangle of one request, and the shelf after it.
pub struct Step {
    pub rect: Rect,
    pub shelf: Shelf,
}

/// Rectangles that were placed, and the shelf after the last of them.
pub struct Layout {
    pub rects: Seq<Rect>,
    pub shelf: Shelf,
}

/// Where the next request goes, and the shelf after it, or `None` where
/// the request does not fit into the atlas any more. A request that is
/// wider than what is left of the shelf opens a new shelf below the
/// tallest rectangle of this one.
pub open spec fn shelf_step(shelf: Shelf, extent: Extent, width: u32, height: u32) -> Option<Step> {
    let wrap = shelf.x + extent.width > width;
    let x = if wrap { 0 } else { shelf.x as int };
    let y = if wrap { shelf.y + shelf.height } else { shelf.y as int };
    let tallest = if wrap || shelf.height < extent.height { extent.height } else { shelf.height };
    if extent.width > width || y + extent.height > height {
        None
    } else {
        Some(
            Step {
                rect: Rect {
                    min: Point { x: x as u32, y: y as u32 },
                    max: Point { x: (x + extent.width) as u32, y: (y + extent.height) as u32 },
                },
                shelf: Shelf { x: (x + extent.width) as u32, y: y as u32, height: tallest },
            },
        )
    }
}

/// The rectangles of the requests, in the order of the requests, and the
/// shelf after the last of them, or `None` where a request does not fit.
pub open spec fn shelf_layout(sizes: Seq<Extent>, width: u32, height: u32) -> Option<Layout>
    decreases sizes.len(),
{
    if sizes.len() == 0 {
        Some(Layout { rects: Seq::empty(), shelf: Shelf { x: 0, y: 0, height: 0 } })
    } else {
        match shelf_layout(sizes.drop_last(), width, height) {
            None => None,
            Some(before) => match shelf_step(before.shelf, sizes.last(), width, height) {
                None => None,
                Some(step) => Some(
                    Layout { rects: before.rects.push(step.rect), shelf: step.shelf },
                ),
            },
        }
    }
}

/// Sum of the areas of the requests.
pub open spec fn total_area(sizes: Seq<Extent>) -> int
    decreases sizes.len(),
{
    if sizes.len() == 0 {
        0
    } else {
        total_area(sizes.drop_last()) + sizes.last().area()
    }
}

/// Whether the rectangles lie inside an atlas of the given size and no
/// two of them have a pixel in common.
pub open spec fn placements_fit(rects: Seq<Rect>, width: int, height: int) -> bool {
    &&& forall|i: int|
        0 <= i < rects.len() ==> (#[trigger] rects[i]).wf() && rects[i].within(width, height)
    &&& forall|i: int, j: int|
        0 <= i < j < rects.len() ==> (#[trigger] rects[i]).disjoint(#[trigger] rects[j])
}

/// Whether `rects` places the requests `sizes` in an atlas of the given
/// size: one rectangle for each request, of the size requested, inside the
/// atlas, and no two rectangles with a pixel in common.
pub open spec fn valid_placements(
    rects: Seq<Rect>,
    sizes: Seq<Extent>,
    width: int,
    height: int,
) -> bool {
    &&& rects.len() == sizes.len()
    &&& forall|i: int| 0 <= i < rects.len() ==> (#[trigger] rects[i]).has_extent(sizes[i])
    &&& placements_fit(rects, width, height)
}

/// What holds of the rectangles placed so far and of the shelf being
/// filled: the placements are valid, every rectangle ends above the shelf
/// or left of its first free column, and the area requested so far is
/// covered by the shelves above and by the filled part of the current one.
pub open spec fn shelf_invariant(
    rects: Seq<Rect>,
    sizes: Seq<Extent>,
    shelf: Shelf,
    width: u32,
    height: u32,
) -> bool {
    &&& valid_placements(rects, sizes, width as int, height as int)
    &&& shelf.x <= width
    &&& shelf.y + shelf.height <= height
    &&& forall|i: int|
        0 <= i < rects.len() ==> {
            &&& (#[trigger] rects[i]).max.y <= shelf.y + shelf.height
            &&& (rects[i].max.y <= shelf.y || rects[i].max.x <= shelf.x)
        }
    &&& total_area(sizes) <= width * shelf.y + shelf.x * shelf.height
}

/// One more request keeps the invariant of the shelves.
proof fn lemma_shelf_step(
    rects: Seq<Rect>,
    sizes: Seq<Extent>,
    shelf: Shelf,
    extent: Extent,
    width: u32,
    height: u32,
)
    requires
        shelf_invariant(rects, sizes, shelf, width, height),
        shelf_step(shelf, extent, width, height) is Some,
    ensures
        shelf_invariant(
            rects.push(shelf_step(shelf, extent, width, height)->0.rect),
            sizes.push(extent),
            shelf_step(shelf, extent, width, height)->0.shelf,
            width,
            height,
        ),
{
    let step = shelf_step(shelf, extent, width, height)->0;
    let next = step.shelf;
    let rects2 = rects.push(step.rect);
    let sizes2 = sizes.push(extent);
    assert(sizes2.drop_last() =~= sizes);
    assert(total_area(sizes2) == total_area(sizes) + extent.area());
    let wrap = shelf.x + extent.width > width;
    assert(total_area(sizes2) <= width * next.y + next.x * next.height) by (nonlinear_arith)
        requires
            total_area(sizes2) == total_area(sizes) + extent.width * extent.height,
            total_area(sizes) <= width * shelf.y + shelf.x * shelf.height,
            shelf.x <= width,
            wrap ==> next.y == shelf.y + shelf.height && next.x == extent.width && next.height
                == extent.height,
            !wrap ==> next.y == shelf.y && next.x == shelf.x + extent.width && next.height
                >= shelf.height && next.height >= extent.height,
    ;
    assert forall|i: int| 0 <= i < rects2.len() implies {
        &&& (#[trigger] rects2[i]).wf()
        &&& rects2[i].has_extent(sizes2[i])
        &&& rects2[i].within(width as int, height as int)
        &&& rects2[i].max.y <= next.y + next.height
        &&& (rects2[i].max.y <= next.y || rects2[i].max.x <= next.x)
    } by {
        if i < rects.len() {
            assert(rects2[i] == rects[i]);
            assert(sizes2[i] == sizes[i]);
        }
    }
    assert forall|i: int, j: int| 0 <= i < j < rects2.len() implies (#[trigger] rects2[i]).disjoint(
        #[trigger] rects2[j],
    ) by {
        assert(rects2[i] == rects[i]);
        if j < rects.len() {
            assert(rects2[j] == rects[j]);
        }
    }
}

/// The layout of the shelves places every request validly, and what it
/// places is no larger than the atlas.
pub proof fn lemma_shelf_layout(sizes: Seq<Extent>, width: u32, height: u32)
    requires
        shelf_layout(sizes, width, height) is Some,
    ensures
        shelf_invariant(
            shelf_layout(sizes, width, height)->0.rects,
            sizes,
            shelf_layout(sizes, width, height)->0.shelf,
            width,
            height,
        ),
        total_area(sizes) <= width * height,
    decreases sizes.len(),
{
    let shelf = shelf_layout(sizes, width, height)->0.shelf;
    if sizes.len() == 0 {
        assert(total_area(sizes) == 0);
    } else {
        let before = shelf_layout(sizes.drop_last(), width, height)->0;
        lemma_shelf_layout(sizes.drop_last(), width, height);
        lemma_shelf_step(
            before.rects,
            sizes.drop_last(),
            before.shelf,
            sizes.last(),
            width,
            height,
        );
        assert(sizes.drop_last().push(sizes.last()) =~= sizes);
    }
    assert(total_area(sizes) <= width * height) by (nonlinear_arith)
        requires
            total_area(sizes) <= width * shelf.y + shelf.x * shelf.height,
            shelf.x <= width,
            shelf.y + shelf.height <= height,
    ;
}

/// Where a request among the first `n` does not fit, the whole sequence
/// does not fit.
proof fn lemma_layout_fails_on(sizes: Seq<Extent>, n: int, width: u32, height: u32)
    requires
        0 <= n <= sizes.len(),
        shelf_layout(sizes.take(n), width, height) is None,
    ensures
        shelf_layout(sizes, width, height) is None,
    decreases sizes.len() - n,
{
    if n == sizes.len() {
        assert(sizes.take(n) =~= sizes);
    } else {
        assert(sizes.take(n + 1).drop_last() =~= sizes.take(n));
        lemma_layout_fails_on(sizes, n + 1, width, height);
    }
}

/// Places the requests on shelves, in the order in which they are given.
pub fn place(width: u32, height: u32, sizes: &[Extent]) -> (result: Result<Vec<Rect>, BakeError>)
    ensures
        match result {
            Ok(rects) => {
                &&& shelf_layout(sizes@, width, height) matches Some(layout)
                &&& rects@ == layout.rects
                &&& valid_placements(rects@, sizes@, width as int, height as int)
            },
            Err(e) => e == BakeError::AtlasOverflow && shelf_layout(sizes@, width, height) is None,
        },
        total_area(sizes@) > width * height ==> result is Err,
{
    let mut rects: Vec<Rect> = Vec::with_capacity(sizes.len());
    let mut shelf = Shelf { x: 0, y: 0, height: 0 };
    let mut i: usize = 0;
    while i < sizes.len()
        invariant
            i <= sizes@.len(),
            shelf_layout(sizes@.take(i as int), width, height) == Some(
                Layout { rects: rects@, shelf },
            ),
            shelf.x <= width,
            shelf.y + shelf.height <= height,
        decreases sizes@.len() - i,
    {
        let extent = sizes[i];
        proof {
            assert(sizes@.take(i + 1).drop_last() =~= sizes@.take(i as int));
            assert(sizes@.take(i + 1).last() == extent);
        }
        let wrap: bool = extent.width > width - shelf.x;
        let x: u32 = if wrap { 0 } else { shelf.x };
        let y: u32 = if wrap { shelf.y + shelf.height } else { shelf.y };
        if extent.width > width || extent.height > height - y {
            proof {
                lemma_layout_fails_on(sizes@, i + 1, width, height);
            }
            return Err(BakeError::AtlasOverflow);
        }
        let tallest: u32 = if wrap || shelf.height < extent.height {
            extent.height
        } else {
            shelf.height
        };
        let rect = Rect {
            min: Point { x, y },
            max: Point { x: x + extent.width, y: y + extent.height },
        };
        rects.push(rect);
        shelf = Shelf { x: x + extent.width, y, height: tallest };
        i += 1;
    }
    proof {
        assert(sizes@.take(i as int) =~= sizes@);
        lemma_shelf_layout(sizes@, width, height);
    }
    Ok(rects)
}

} // verus!
