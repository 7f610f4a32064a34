//! Rectangle packing: every requested size gets a rectangle of the atlas
//! that no other request shares.
//!
//! The requests go on shelves, the tallest first, so that a shelf holds
//! rectangles of similar height and little of it stays empty.

use crate::error::BakeError;
use crate::geometry::{Extent, Point, Rect};
use crate::shelf::{lemma_shelf_layout, place, shelf_layout, total_area, valid_placements};
use vstd::prelude::*;

verus! {

/// Whether request `a` goes on the shelves before request `b`: the taller
/// one goes first, and of two that are equally tall the one that was asked
/// for first.
pub open spec fn goes_before(sizes: Seq<Extent>, a: int, b: int) -> bool {
    sizes[a].height > sizes[b].height || (sizes[a].height == sizes[b].height && a < b)
}

/// Where a request of the given height is put into `order`: behind the
/// last request that is at least as tall.
pub open spec fn insertion_point(sizes: Seq<Extent>, order: Seq<usize>, height: u32) -> int
    decreases order.len(),
{
    if order.len() > 0 && sizes[order.last() as int].height < height {
        insertion_point(sizes, order.drop_last(), height)
    } else {
        order.len() as int
    }
}

/// The order in which the first `n` requests go on the shelves, as their
/// indices.
pub open spec fn packing_order_upto(sizes: Seq<Extent>, n: int) -> Seq<usize>
    decreases n,
{
    if n <= 0 {
        Seq::empty()
    } else {
        let rest = packing_order_upto(sizes, n - 1);
        rest.insert(insertion_point(sizes, rest, sizes[n - 1].height), (n - 1) as usize)
    }
}

/// The order in which the requests go on the shelves, as their indices.
pub open spec fn packing_order(sizes: Seq<Extent>) -> Seq<usize> {
    packing_order_upto(sizes, sizes.len() as int)
}

/// Whether `order` holds the index of each of the first `n` requests
/// once, with every request before those that it goes before.
pub open spec fn is_packing_order(order: Seq<usize>, sizes: Seq<Extent>, n: int) -> bool {
    &&& order.len() == n
    &&& forall|p: int| 0 <= p < n ==> 0 <= #[trigger] order[p] < n
    &&& forall|p: int, q: int|
        0 <= p < q < n ==> goes_before(sizes, #[trigger] order[p] as int, #[trigger] order[q] as int)
    &&& forall|i: usize| i < n ==> #[trigger] order.contains(i)
}

/// The sizes in the given order.
pub open spec fn gather(sizes: Seq<Extent>, order: Seq<usize>) -> Seq<Extent> {
    Seq::new(order.len(), |p: int| sizes[order[p] as int])
}

/// The rectangles that were placed in the given order, each at the index
/// of its request.
pub open spec fn scatter(rects: Seq<Rect>, order: Seq<usize>) -> Seq<Rect> {
    Seq::new(order.len(), |i: int| rects[order.index_of(i as usize)])
}

/// The rectangles of the requests, at the indices of the requests, or
/// `None` where the requests do not fit on the shelves of the atlas.
pub open spec fn packing(sizes: Seq<Extent>, width: u32, height: u32) -> Option<Seq<Rect>> {
    let order = packing_order(sizes);
    match shelf_layout(gather(sizes, order), width, height) {
        None => None,
        Some(layout) => Some(scatter(layout.rects, order)),
    }
}

/// The insertion point lies inside the order, everything from it on is
/// lower than the given height, and what stands before it is not.
proof fn lemma_insertion_point(sizes: Seq<Extent>, order: Seq<usize>, height: u32)
    ensures
        0 <= insertion_point(sizes, order, height) <= order.len(),
        forall|q: int|
            insertion_point(sizes, order, height) <= q < order.len() ==> sizes[(
            #[trigger] order[q]) as int].height < height,
        insertion_point(sizes, order, height) > 0 ==> sizes[order[insertion_point(
            sizes,
            order,
            height,
        ) - 1] as int].height >= height,
    decreases order.len(),
{
    if order.len() > 0 && sizes[order.last() as int].height < height {
        lemma_insertion_point(sizes, order.drop_last(), height);
        assert forall|q: int|
            insertion_point(sizes, order, height) <= q < order.len() implies sizes[(
        #[trigger] order[q]) as int].height < height by {
            if q < order.len() - 1 {
                assert(order.drop_last()[q] == order[q]);
            }
        }
    }
}

/// The order of the first `n` requests holds each of them once, the
/// taller before the lower.
pub proof fn lemma_packing_order(sizes: Seq<Extent>, n: int)
    requires
        0 <= n <= sizes.len() <= usize::MAX,
    ensures
        is_packing_order(packing_order_upto(sizes, n), sizes, n),
    decreases n,
{
    if n > 0 {
        let rest = packing_order_upto(sizes, n - 1);
        let height = sizes[n - 1].height;
        let at = insertion_point(sizes, rest, height);
        let order = packing_order_upto(sizes, n);
        let last = (n - 1) as usize;
        lemma_packing_order(sizes, n - 1);
        lemma_insertion_point(sizes, rest, height);
        rest.insert_ensures(at, last);
        assert forall|p: int, q: int| 0 <= p < q < n implies goes_before(
            sizes,
            #[trigger] order[p] as int,
            #[trigger] order[q] as int,
        ) by {
            if q < at {
                assert(order[p] == rest[p] && order[q] == rest[q]);
            } else if q == at {
                assert(order[p] == rest[p]);
                assert(goes_before(sizes, rest[p] as int, rest[at - 1] as int) || p == at - 1);
            } else if p < at {
                assert(order[p] == rest[p] && order[q] == rest[q - 1]);
            } else if p == at {
                assert(order[q] == rest[q - 1]);
            } else {
                assert(order[p] == rest[p - 1] && order[q] == rest[q - 1]);
            }
        }
        assert forall|p: int| 0 <= p < n implies 0 <= #[trigger] order[p] < n by {
            if p < at {
                assert(order[p] == rest[p]);
            } else if p > at {
                assert(order[p] == rest[p - 1]);
            }
        }
        assert forall|i: usize| i < n implies #[trigger] order.contains(i) by {
            if i == n - 1 {
                assert(order[at] == last);
            } else {
                assert(rest.contains(i));
                let p = choose|p: int| 0 <= p < rest.len() && rest[p] == i;
                if p < at {
                    assert(order[p] == rest[p]);
                } else {
                    assert(order[p + 1] == rest[p]);
                }
            }
        }
    }
}

/// An order of the requests holds no index twice.
proof fn lemma_order_is_injective(order: Seq<usize>, sizes: Seq<Extent>, n: int)
    requires
        is_packing_order(order, sizes, n),
    ensures
        forall|p: int, q: int|
            0 <= p < n && 0 <= q < n && #[trigger] order[p] == #[trigger] order[q] ==> p == q,
        forall|i: int| 0 <= i < n ==> 0 <= #[trigger] order.index_of(i as usize) < n,
        forall|p: int| 0 <= p < n ==> #[trigger] order.index_of(order[p]) == p,
{
    assert forall|p: int, q: int|
        0 <= p < n && 0 <= q < n && #[trigger] order[p] == #[trigger] order[q] implies p == q by {
        if p < q {
            assert(goes_before(sizes, order[p] as int, order[q] as int));
        } else if q < p {
            assert(goes_before(sizes, order[q] as int, order[p] as int));
        }
    }
    assert forall|i: int| 0 <= i < n implies 0 <= #[trigger] order.index_of(i as usize) < n by {
        assert(order.contains(i as usize));
    }
    assert forall|p: int| 0 <= p < n implies #[trigger] order.index_of(order[p]) == p by {
        let found = order.index_of(order[p]);
        assert(0 <= found < n && order[found] == order[p]);
    }
}

/// One more size at any place adds its area to the sum.
proof fn lemma_total_area_insert(sizes: Seq<Extent>, at: int, extent: Extent)
    requires
        0 <= at <= sizes.len(),
    ensures
        total_area(sizes.insert(at, extent)) == total_area(sizes) + extent.area(),
    decreases sizes.len(),
{
    let longer = sizes.insert(at, extent);
    sizes.insert_ensures(at, extent);
    if at == sizes.len() {
        assert(longer.drop_last() =~= sizes);
    } else {
        sizes.drop_last().insert_ensures(at, extent);
        assert(longer.drop_last() =~= sizes.drop_last().insert(at, extent));
        assert(longer.last() == sizes.last());
        lemma_total_area_insert(sizes.drop_last(), at, extent);
    }
}

/// The sizes in packing order cover as many pixels as in the order in
/// which they were asked for.
proof fn lemma_total_area_gather(sizes: Seq<Extent>, n: int)
    requires
        0 <= n <= sizes.len() <= usize::MAX,
    ensures
        total_area(gather(sizes, packing_order_upto(sizes, n))) == total_area(sizes.take(n)),
    decreases n,
{
    if n == 0 {
        assert(gather(sizes, packing_order_upto(sizes, n)) =~= Seq::<Extent>::empty());
        assert(sizes.take(n) =~= Seq::<Extent>::empty());
    } else {
        let rest = packing_order_upto(sizes, n - 1);
        let at = insertion_point(sizes, rest, sizes[n - 1].height);
        let last = (n - 1) as usize;
        lemma_insertion_point(sizes, rest, sizes[n - 1].height);
        lemma_packing_order(sizes, n - 1);
        lemma_total_area_gather(sizes, n - 1);
        rest.insert_ensures(at, last);
        gather(sizes, rest).insert_ensures(at, sizes[n - 1]);
        assert forall|p: int| 0 <= p < n implies gather(sizes, rest.insert(at, last))[p]
            == gather(sizes, rest).insert(at, sizes[n - 1])[p] by {
            if p < at {
                assert(rest.insert(at, last)[p] == rest[p]);
            } else if p > at {
                assert(rest.insert(at, last)[p] == rest[p - 1]);
                assert(gather(sizes, rest).insert(at, sizes[n - 1])[p] == gather(sizes, rest)[p
                    - 1]);
            }
        }
        assert(gather(sizes, rest.insert(at, last)) =~= gather(sizes, rest).insert(
            at,
            sizes[n - 1],
        ));
        lemma_total_area_insert(gather(sizes, rest), at, sizes[n - 1]);
        assert(sizes.take(n).drop_last() =~= sizes.take(n - 1));
    }
}

/// What the packer places is a valid placement of the requests, and it
/// places nothing where the requests cover more pixels than the atlas has.
pub proof fn lemma_packing(sizes: Seq<Extent>, width: u32, height: u32)
    requires
        sizes.len() <= usize::MAX,
    ensures
        packing(sizes, width, height) matches Some(rects) ==> valid_placements(
            rects,
            sizes,
            width as int,
            height as int,
        ),
        total_area(sizes) > width * height ==> packing(sizes, width, height) is None,
{
    let n = sizes.len() as int;
    let order = packing_order(sizes);
    let sorted = gather(sizes, order);
    lemma_packing_order(sizes, n);
    lemma_order_is_injective(order, sizes, n);
    lemma_total_area_gather(sizes, n);
    assert(sizes.take(n) =~= sizes);
    if shelf_layout(sorted, width, height) is Some {
        let placed = shelf_layout(sorted, width, height)->0.rects;
        let rects = scatter(placed, order);
        lemma_shelf_layout(sorted, width, height);
        assert forall|i: int| 0 <= i < rects.len() implies {
            &&& (#[trigger] rects[i]).has_extent(sizes[i])
            &&& rects[i].wf()
            &&& rects[i].within(width as int, height as int)
        } by {
            let p = order.index_of(i as usize);
            assert(order.contains(i as usize));
            assert(order[p] == i as usize);
            assert(placed[p].has_extent(sorted[p]));
        }
        assert forall|i: int, j: int| 0 <= i < j < rects.len() implies (#[trigger] rects[i]).disjoint(
            #[trigger] rects[j],
        ) by {
            let p = order.index_of(i as usize);
            let q = order.index_of(j as usize);
            assert(order.contains(i as usize));
            assert(order.contains(j as usize));
            assert(order[p] == i as usize && order[q] == j as usize);
            if p < q {
                assert(placed[p].disjoint(placed[q]));
            } else {
                assert(placed[q].disjoint(placed[p]));
            }
        }
    }
}

/// The order in which the requests go on the shelves.
fn order_requests(sizes: &[Extent]) -> (order: Vec<usize>)
    ensures
        order@ == packing_order(sizes@),
{
    let mut order: Vec<usize> = Vec::with_capacity(sizes.len());
    let mut n: usize = 0;
    while n < sizes.len()
        invariant
            n <= sizes@.len(),
            order@ == packing_order_upto(sizes@, n as int),
        decreases sizes@.len() - n,
    {
        proof {
            lemma_packing_order(sizes@, n as int);
        }
        let height: u32 = sizes[n].height;
        let mut at: usize = order.len();
        proof {
            assert(order@.take(at as int) =~= order@);
        }
        while at > 0 && sizes[order[at - 1]].height < height
            invariant
                at <= order@.len(),
                order@.len() == n,
                n < sizes@.len(),
                forall|p: int| 0 <= p < n ==> 0 <= #[trigger] order@[p] < n,
                insertion_point(sizes@, order@, height) == insertion_point(
                    sizes@,
                    order@.take(at as int),
                    height,
                ),
            decreases at,
        {
            proof {
                assert(order@.take(at as int).drop_last() =~= order@.take(at - 1));
                assert(order@.take(at as int).last() == order@[at - 1]);
            }
            at -= 1;
        }
        proof {
            if at > 0 {
                assert(order@.take(at as int).last() == order@[at - 1]);
            }
            assert(order@.take(order@.len() as int) =~= order@);
        }
        order.insert(at, n);
        n += 1;
    }
    order
}

/// The sizes in the given order.
fn gather_sizes(sizes: &[Extent], order: &Vec<usize>) -> (sorted: Vec<Extent>)
    requires
        forall|p: int| 0 <= p < order@.len() ==> #[trigger] order@[p] < sizes@.len(),
    ensures
        sorted@ == gather(sizes@, order@),
{
    let mut sorted: Vec<Extent> = Vec::with_capacity(order.len());
    let mut p: usize = 0;
    while p < order.len()
        invariant
            p <= order@.len(),
            forall|q: int| 0 <= q < order@.len() ==> #[trigger] order@[q] < sizes@.len(),
            sorted@.len() == p,
            forall|q: int| 0 <= q < p ==> sorted@[q] == sizes@[order@[q] as int],
        decreases order@.len() - p,
    {
        sorted.push(sizes[order[p]]);
        p += 1;
    }
    proof {
        assert(sorted@ =~= gather(sizes@, order@));
    }
    sorted
}

/// The rectangles that were placed in the given order, each at the index
/// of its request.
fn scatter_rects(rects: &Vec<Rect>, order: &Vec<usize>, Ghost(sizes): Ghost<Seq<Extent>>) -> (placed:
    Vec<Rect>)
    requires
        rects@.len() == order@.len(),
        is_packing_order(order@, sizes, order@.len() as int),
    ensures
        placed@ == scatter(rects@, order@),
{
    let n: usize = order.len();
    let mut placed: Vec<Rect> = Vec::with_capacity(n);
    let mut i: usize = 0;
    while i < n
        invariant
            i <= n,
            placed@.len() == i,
        decreases n - i,
    {
        placed.push(Rect { min: Point { x: 0, y: 0 }, max: Point { x: 0, y: 0 } });
        i += 1;
    }
    proof {
        lemma_order_is_injective(order@, sizes, n as int);
    }
    let mut p: usize = 0;
    while p < n
        invariant
            p <= n,
            n == order@.len(),
            rects@.len() == n,
            placed@.len() == n,
            is_packing_order(order@, sizes, n as int),
            forall|a: int, b: int|
                0 <= a < n && 0 <= b < n && #[trigger] order@[a] == #[trigger] order@[b] ==> a == b,
            forall|q: int| 0 <= q < p ==> placed@[(#[trigger] order@[q]) as int] == rects@[q],
        decreases n - p,
    {
        let ghost before = placed@;
        placed.set(order[p], rects[p]);
        proof {
            assert forall|q: int| 0 <= q < p + 1 implies placed@[(#[trigger] order@[q]) as int]
                == rects@[q] by {
                if q < p {
                    assert(order@[q] != order@[p as int]);
                    assert(before[order@[q] as int] == rects@[q]);
                }
            }
        }
        p += 1;
    }
    proof {
        assert forall|i: int| 0 <= i < n implies placed@[i] == scatter(rects@, order@)[i] by {
            let q = order@.index_of(i as usize);
            assert(order@.contains(i as usize));
            assert(order@[q] == i as usize);
        }
        assert(placed@ =~= scatter(rects@, order@));
    }
    placed
}

/// Gives every requested size a rectangle of an atlas of `width` by
/// `height` pixels. The rectangle at index `i` belongs to the request at
/// index `i`.
///
/// Packing fails where the shelves run out of the atlas, which is always
/// the case where the requests together cover more pixels than the atlas
/// has.
pub fn pack(width: u32, height: u32, sizes: &[Extent]) -> (result: Result<Vec<Rect>, BakeError>)
    ensures
        match result {
            Ok(rects) => {
                &&& packing(sizes@, width, height) == Some(rects@)
                &&& valid_placements(rects@, sizes@, width as int, height as int)
            },
            Err(e) => e == BakeError::AtlasOverflow && packing(sizes@, width, height) is None,
        },
        total_area(sizes@) > width * height ==> result is Err,
{
    let count: usize = sizes.len();
    let order = order_requests(sizes);
    proof {
        lemma_packing_order(sizes@, count as int);
        lemma_packing(sizes@, width, height);
    }
    let sorted = gather_sizes(sizes, &order);
    match place(width, height, sorted.as_slice()) {
        Ok(rects) => Ok(scatter_rects(&rects, &order, Ghost(sizes@))),
        Err(e) => Err(e),
    }
}

} // verus!
