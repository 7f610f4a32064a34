use gcn_fonts::error::BakeError;
use gcn_fonts::geometry::{Extent, Point, Rect};
use gcn_fonts::pack::pack;
use gcn_fonts::shelf::place;

fn rect(x0: u32, y0: u32, x1: u32, y1: u32) -> Rect {
    Rect { min: Point { x: x0, y: y0 }, max: Point { x: x1, y: y1 } }
}

fn extent(width: u32, height: u32) -> Extent {
    Extent { width, height }
}

fn overlap(a: &Rect, b: &Rect) -> bool {
    a.min.x < b.max.x && b.min.x < a.max.x && a.min.y < b.max.y && b.min.y < a.max.y
}

#[test]
fn no_requests_no_rectangles() {
    assert_eq!(pack(8, 8, &[]), Ok(vec![]));
    assert_eq!(pack(0, 0, &[]), Ok(vec![]));
}

#[test]
fn shelf_is_filled_from_the_left() {
    let placed = pack(16, 8, &[extent(5, 4), extent(6, 3), extent(5, 2)]).unwrap();
    assert_eq!(placed, vec![rect(0, 0, 5, 4), rect(5, 0, 11, 3), rect(11, 0, 16, 2)]);
}

#[test]
fn new_shelf_opens_below_the_tallest() {
    let placed = place(10, 10, &[extent(6, 2), extent(3, 5), extent(4, 3), extent(6, 2)]).unwrap();
    assert_eq!(
        placed,
        vec![rect(0, 0, 6, 2), rect(6, 0, 9, 5), rect(0, 5, 4, 8), rect(4, 5, 10, 7)]
    );
}

#[test]
fn tallest_requests_are_placed_first() {
    let placed = pack(10, 10, &[extent(6, 2), extent(3, 5), extent(4, 3), extent(6, 2)]).unwrap();
    assert_eq!(
        placed,
        vec![rect(0, 5, 6, 7), rect(0, 0, 3, 5), rect(3, 0, 7, 3), rect(0, 7, 6, 9)]
    );
}

#[test]
fn equally_tall_requests_keep_their_order() {
    let placed = pack(8, 8, &[extent(2, 3), extent(3, 3), extent(1, 3), extent(2, 4)]).unwrap();
    assert_eq!(
        placed,
        vec![rect(2, 0, 4, 3), rect(4, 0, 7, 3), rect(7, 0, 8, 3), rect(0, 0, 2, 4)]
    );
}

#[test]
fn sorting_lets_more_fit() {
    let requests = [extent(4, 1), extent(4, 4), extent(4, 1), extent(4, 4), extent(8, 3)];
    assert_eq!(place(8, 8, &requests), Err(BakeError::AtlasOverflow));
    assert_eq!(
        pack(8, 8, &requests),
        Ok(vec![rect(0, 7, 4, 8), rect(0, 0, 4, 4), rect(4, 7, 8, 8), rect(4, 0, 8, 4), rect(0, 4, 8, 7)])
    );
}

#[test]
fn place_keeps_the_order_given() {
    assert_eq!(place(8, 8, &[]), Ok(vec![]));
    assert_eq!(
        place(8, 8, &[extent(3, 1), extent(3, 6), extent(3, 2)]),
        Ok(vec![rect(0, 0, 3, 1), rect(3, 0, 6, 6), rect(0, 6, 3, 8)])
    );
    assert_eq!(place(8, 8, &[extent(3, 1), extent(3, 6), extent(3, 3)]), Err(BakeError::AtlasOverflow));
    assert_eq!(place(8, 8, &[extent(9, 0)]), Err(BakeError::AtlasOverflow));
}

#[test]
fn request_that_fills_the_atlas_fits() {
    assert_eq!(pack(8, 4, &[extent(8, 4)]), Ok(vec![rect(0, 0, 8, 4)]));
}

#[test]
fn too_wide_request_overflows() {
    assert_eq!(pack(8, 8, &[extent(9, 1)]), Err(BakeError::AtlasOverflow));
}

#[test]
fn too_high_request_overflows() {
    assert_eq!(pack(8, 8, &[extent(1, 9)]), Err(BakeError::AtlasOverflow));
}

#[test]
fn shelves_running_out_overflow() {
    assert_eq!(
        pack(8, 8, &[extent(5, 4), extent(5, 4), extent(5, 1)]),
        Err(BakeError::AtlasOverflow)
    );
}

#[test]
fn more_area_than_the_atlas_overflows() {
    let requests = vec![extent(3, 3); 8];
    assert!(requests.iter().map(|e| e.width * e.height).sum::<u32>() > 64);
    assert_eq!(pack(8, 8, &requests), Err(BakeError::AtlasOverflow));
}

#[test]
fn empty_requests_take_no_room() {
    let placed = pack(4, 4, &[extent(0, 0), extent(4, 4), extent(0, 0)]).unwrap();
    assert_eq!(placed[1], rect(0, 0, 4, 4));
    assert_eq!(placed[0].min, placed[0].max);
    assert_eq!(placed[2].min.x, placed[2].max.x);
}

#[test]
fn placements_are_disjoint_and_inside() {
    let mut requests = Vec::new();
    for i in 0..94u32 {
        requests.push(extent(7 + i % 13, 9 + (i * 7) % 11));
    }
    let placed = pack(256, 256, &requests).unwrap();
    assert_eq!(placed.len(), requests.len());
    for (i, r) in placed.iter().enumerate() {
        assert_eq!(r.max.x - r.min.x, requests[i].width);
        assert_eq!(r.max.y - r.min.y, requests[i].height);
        assert!(r.max.x <= 256 && r.max.y <= 256);
        for other in &placed[..i] {
            assert!(!overlap(r, other));
        }
    }
}

#[test]
fn packing_is_deterministic() {
    let requests = vec![extent(3, 5), extent(9, 2), extent(4, 4), extent(7, 7)];
    assert_eq!(pack(16, 16, &requests), pack(16, 16, &requests));
}

#[test]
fn rect_size() {
    let r = rect(2, 3, 7, 11);
    assert_eq!(r.width(), 5);
    assert_eq!(r.height(), 8);
}
