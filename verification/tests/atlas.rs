use gcn_fonts::atlas::compose;
use gcn_fonts::geometry::{Point, Rect};
use gcn_fonts::raster::{Bitmap, GlyphRequest, PixelBox};

fn rect(x0: u32, y0: u32, x1: u32, y1: u32) -> Rect {
    Rect { min: Point { x: x0, y: y0 }, max: Point { x: x1, y: y1 } }
}

fn request(code: u8, width: u32, height: u32, pixels: Vec<u8>) -> GlyphRequest {
    GlyphRequest {
        code,
        bounding_box: PixelBox { min_x: 0, min_y: -(height as i32), max_x: width as i32, max_y: 0 },
        coverage: Bitmap { width, height, pixels },
    }
}

#[test]
fn atlas_without_glyphs_is_zero() {
    let atlas = compose(8, 4, &[], &[]);
    assert_eq!(atlas, vec![0u8; 32]);
}

#[test]
fn glyph_is_written_at_its_rectangle() {
    let glyph = request(b'A', 2, 3, vec![1, 2, 3, 4, 5, 6]);
    let atlas = compose(4, 4, &[rect(1, 1, 3, 4)], &[glyph]);
    let expected = vec![
        0, 0, 0, 0,
        0, 1, 2, 0,
        0, 3, 4, 0,
        0, 5, 6, 0,
    ];
    assert_eq!(atlas, expected);
}

#[test]
fn two_glyphs_side_by_side() {
    let a = request(b'A', 2, 2, vec![10, 11, 12, 13]);
    let b = request(b'B', 1, 2, vec![20, 21]);
    let atlas = compose(4, 2, &[rect(0, 0, 2, 2), rect(3, 0, 4, 2)], &[a, b]);
    assert_eq!(atlas, vec![10, 11, 0, 20, 12, 13, 0, 21]);
}

#[test]
fn coverage_is_clipped_to_the_rectangle() {
    let glyph = request(b'A', 3, 3, vec![1, 2, 3, 4, 5, 6, 7, 8, 9]);
    let atlas = compose(4, 4, &[rect(1, 1, 3, 3)], &[glyph]);
    let expected = vec![
        0, 0, 0, 0,
        0, 1, 2, 0,
        0, 4, 5, 0,
        0, 0, 0, 0,
    ];
    assert_eq!(atlas, expected);
}

#[test]
fn small_coverage_leaves_the_rest_of_the_rectangle_zero() {
    let glyph = request(b'A', 1, 1, vec![9]);
    let atlas = compose(3, 3, &[rect(1, 1, 3, 3)], &[glyph]);
    assert_eq!(atlas, vec![0, 0, 0, 0, 9, 0, 0, 0, 0]);
}

#[test]
fn clip_takes_the_top_left_part() {
    let bitmap = Bitmap { width: 3, height: 2, pixels: vec![1, 2, 3, 4, 5, 6] };
    assert!(bitmap.is_well_formed());
    assert_eq!(bitmap.clip(2, 2), vec![1, 2, 4, 5]);
    assert_eq!(bitmap.clip(3, 1), vec![1, 2, 3]);
    assert_eq!(bitmap.clip(0, 2), Vec::<u8>::new());
    let short = Bitmap { width: 3, height: 2, pixels: vec![1, 2, 3] };
    assert!(!short.is_well_formed());
}
