use gcn_fonts::bake::{bake, build_glyph_table, BakedFont};
use gcn_fonts::error::BakeError;
use gcn_fonts::font::{Font, Glyph, PointSize};
use gcn_fonts::geometry::{Point, Rect};
use gcn_fonts::raster::{check_requests, Bitmap, GlyphRequest, PixelBox, FIRST_CODE, GLYPH_COUNT, LAST_CODE};
use gcn_fonts::tile::decode_tiled;

fn size() -> PointSize {
    PointSize { digits: 500, decimals: 1 }
}

fn request(code: u8, width: u32, height: u32, descender: i32) -> GlyphRequest {
    let pixels = (0..width * height).map(|i| code.wrapping_add(i as u8) | 1).collect();
    GlyphRequest {
        code,
        bounding_box: PixelBox {
            min_x: 1,
            min_y: descender - height as i32,
            max_x: 1 + width as i32,
            max_y: descender,
        },
        coverage: Bitmap { width, height, pixels },
    }
}

fn full_set() -> Vec<GlyphRequest> {
    (FIRST_CODE..=LAST_CODE)
        .map(|code| request(code, 8 + (code as u32) % 5, 10 + (code as u32) % 7, (code as i32) % 4))
        .collect()
}

#[test]
fn full_ascii_set_in_256_by_256() {
    let requests = full_set();
    assert!(check_requests(&requests));
    let baked = bake(256, 256, size(), 800, &requests).unwrap();
    let font = baked.font();
    assert_eq!(font.width, 256);
    assert_eq!(font.height, 256);
    assert_eq!(font.size, size());
    assert_eq!(font.space_advance, 800);
    assert_eq!(font.data.len(), 256 * 256);
    assert_eq!(font.glyphs.len(), 94);
    assert_eq!(GLYPH_COUNT, 94);
    assert!(font.is_well_formed());
    let first = font.glyphs[0].unwrap();
    assert_eq!(first.bounds.max.x - first.bounds.min.x, 8 + 0x21 % 5);
    assert_eq!(first.bounds.max.y - first.bounds.min.y, 10 + 0x21 % 7);
    assert_eq!(first.descender, 0x21 % 4);
    let tallest = font.glyphs[(0x22 - 0x21) as usize].unwrap();
    assert_eq!(tallest.bounds.min, Point { x: 0, y: 0 });
    assert_eq!(tallest.bounds.max, Point { x: 8 + 0x22 % 5, y: 16 });
    let uploaded = font.upload(());
    let found = uploaded.lookup_glyph('!').unwrap();
    assert_eq!(*found.glyph, first);
    assert_eq!(font.data, baked.data.as_slice());
    assert_eq!(font.glyphs, baked.glyphs.as_slice());
}

#[test]
fn every_glyph_is_in_the_atlas_at_its_table_entry() {
    let requests = full_set();
    let font = bake(256, 256, size(), 800, &requests).unwrap();
    let atlas = decode_tiled(&font.data, 256, 256);
    let mut covered = vec![false; atlas.len()];
    for request in &requests {
        let glyph = font.glyphs[(request.code - 0x21) as usize].unwrap();
        assert_eq!(glyph.descender, request.bounding_box.max_y);
        assert_eq!(glyph.bounds.max.x - glyph.bounds.min.x, request.coverage.width);
        assert_eq!(glyph.bounds.max.y - glyph.bounds.min.y, request.coverage.height);
        for y in 0..request.coverage.height {
            for x in 0..request.coverage.width {
                let at = ((glyph.bounds.min.y + y) * 256 + glyph.bounds.min.x + x) as usize;
                assert!(!covered[at]);
                covered[at] = true;
                assert_eq!(atlas[at], request.coverage.pixels[(y * request.coverage.width + x) as usize]);
            }
        }
    }
    for (at, pixel) in atlas.iter().enumerate() {
        if !covered[at] {
            assert_eq!(*pixel, 0);
        }
    }
}

#[test]
fn smallest_atlas_overflows() {
    let requests = vec![request(b'A', 5, 7, 0), request(b'B', 5, 6, 0)];
    assert!(5 * 7 + 5 * 6 > 64);
    assert_eq!(bake(8, 8, size(), 800, &requests), Err(BakeError::AtlasOverflow));
}

#[test]
fn smallest_atlas_holds_what_fits() {
    let requests = vec![request(b'A', 4, 8, 0), request(b'B', 4, 8, 0)];
    let font = bake(8, 8, size(), 800, &requests).unwrap();
    assert_eq!(font.data.len(), 64);
    let atlas = decode_tiled(&font.data, 8, 8);
    assert_eq!(font.glyphs[(b'A' - 0x21) as usize].unwrap().bounds.min, Point { x: 0, y: 0 });
    assert_eq!(font.glyphs[(b'B' - 0x21) as usize].unwrap().bounds.min, Point { x: 4, y: 0 });
    assert_eq!(atlas[0], requests[0].coverage.pixels[0]);
    assert_eq!(atlas[4], requests[1].coverage.pixels[0]);
    assert_eq!(atlas[63], requests[1].coverage.pixels[31]);
}

#[test]
fn unaligned_atlas_is_rejected() {
    let requests = vec![request(b'A', 1, 1, 0)];
    assert_eq!(bake(12, 8, size(), 800, &requests), Err(BakeError::UnalignedAtlas));
    assert_eq!(bake(8, 6, size(), 800, &requests), Err(BakeError::UnalignedAtlas));
    assert_eq!(bake(7, 3, size(), 800, &[]), Err(BakeError::UnalignedAtlas));
}

#[test]
fn unaligned_comes_before_overflow() {
    let requests = vec![request(b'A', 100, 100, 0)];
    assert_eq!(bake(12, 8, size(), 800, &requests), Err(BakeError::UnalignedAtlas));
    assert_eq!(bake(16, 8, size(), 800, &requests), Err(BakeError::AtlasOverflow));
}

#[test]
fn empty_atlas_for_no_glyphs() {
    let font = bake(0, 0, size(), 0, &[]).unwrap();
    assert_eq!(font.data, Vec::<u8>::new());
    assert_eq!(font.glyphs, vec![None; 94]);
}

#[test]
fn missing_glyph_leaves_its_slot_empty() {
    let requests: Vec<GlyphRequest> =
        full_set().into_iter().filter(|r| r.code != b'B' && r.code != b'~').collect();
    let baked = bake(256, 256, size(), 800, &requests).unwrap();
    let font = baked.font();
    assert_eq!(font.glyphs.len(), 94);
    assert_eq!(font.glyphs[(b'B' - 0x21) as usize], None);
    assert_eq!(font.glyphs[(b'~' - 0x21) as usize], None);
    for request in &requests {
        let glyph = font.glyphs[(request.code - 0x21) as usize].unwrap();
        assert_eq!(glyph.descender, request.bounding_box.max_y);
    }
    let uploaded = font.upload(());
    assert!(uploaded.lookup_glyph('B').is_none());
    assert!(uploaded.lookup_glyph('~').is_none());
    assert_eq!(uploaded.lookup_glyph('C').unwrap().glyph.descender, (b'C' as i32) % 4);
    assert_eq!(uploaded.measure_char('B'), 800);
}

#[test]
fn requests_in_any_order_give_the_same_table_slots() {
    let requests = vec![request(b'z', 3, 3, 1), request(b'!', 2, 2, 0)];
    assert!(check_requests(&requests));
    let font = bake(8, 4, size(), 0, &requests).unwrap();
    assert_eq!(
        font.glyphs[0],
        Some(Glyph { descender: 0, bounds: Rect { min: Point { x: 3, y: 0 }, max: Point { x: 5, y: 2 } } })
    );
    let swapped = vec![requests[1].clone(), requests[0].clone()];
    assert_eq!(bake(8, 4, size(), 0, &swapped).unwrap().glyphs, font.glyphs);
    assert_eq!(
        font.glyphs[(b'z' - 0x21) as usize],
        Some(Glyph { descender: 1, bounds: Rect { min: Point { x: 0, y: 0 }, max: Point { x: 3, y: 3 } } })
    );
}

#[test]
fn measuring_after_baking_gives_the_width_in_the_table() {
    let requests = full_set();
    let baked = bake(256, 256, size(), 800, &requests).unwrap();
    let uploaded = baked.font().upload(());
    let entry = baked.glyphs[(b'A' - 0x21) as usize].unwrap();
    assert_eq!(entry.bounds.max.x - entry.bounds.min.x, 8 + 0x41 % 5);
    assert_eq!(uploaded.measure_text_width("A"), 64 * (8 + 0x41 % 5));
    assert_eq!(uploaded.measure_text_width(" "), 800);
}

#[test]
fn glyph_table_by_hand() {
    let requests = vec![request(b'#', 2, 5, 3)];
    let placed = vec![Rect { min: Point { x: 4, y: 6 }, max: Point { x: 6, y: 11 } }];
    let table = build_glyph_table(&requests, &placed);
    assert_eq!(table.len(), 94);
    for (slot, entry) in table.iter().enumerate() {
        if slot == 2 {
            assert_eq!(*entry, Some(Glyph { descender: 3, bounds: placed[0] }));
        } else {
            assert_eq!(*entry, None);
        }
    }
}

#[test]
fn malformed_requests_are_found() {
    assert!(check_requests(&[]));
    assert!(check_requests(&[request(0x21, 1, 1, 0), request(0x7E, 1, 1, 0)]));
    assert!(!check_requests(&[request(0x20, 1, 1, 0)]));
    assert!(!check_requests(&[request(0x7F, 1, 1, 0)]));
    assert!(!check_requests(&[request(b'A', 1, 1, 0), request(b'B', 1, 1, 0), request(b'A', 2, 2, 0)]));
    let mut short = request(b'A', 2, 2, 0);
    short.coverage.pixels.pop();
    assert!(!check_requests(&[short]));
    let mut reversed = request(b'A', 2, 2, 0);
    reversed.bounding_box.max_x = reversed.bounding_box.min_x - 1;
    assert!(!check_requests(&[reversed]));
}

#[test]
fn bounding_box_size() {
    let bounds = PixelBox { min_x: -3, min_y: -10, max_x: 4, max_y: 2 };
    let extent = bounds.extent();
    assert_eq!((extent.width, extent.height), (7, 12));
    let widest = PixelBox { min_x: i32::MIN, min_y: 0, max_x: i32::MAX, max_y: 0 };
    assert_eq!(widest.extent().width, u32::MAX);
}

#[test]
fn font_well_formedness() {
    let glyph = Glyph { descender: 0, bounds: Rect { min: Point { x: 0, y: 0 }, max: Point { x: 8, y: 4 } } };
    let data = [0u8; 32];
    let glyphs = [None, Some(glyph)];
    let font = Font { width: 8, height: 4, size: size(), space_advance: 0, data: &data, glyphs: &glyphs };
    assert!(font.is_well_formed());
    let wide = [None, Some(Glyph { descender: 0, bounds: Rect { min: Point { x: 0, y: 0 }, max: Point { x: 9, y: 4 } } })];
    assert!(!Font { glyphs: &wide, ..font }.is_well_formed());
    let high = [Some(Glyph { descender: 0, bounds: Rect { min: Point { x: 0, y: 0 }, max: Point { x: 8, y: 5 } } })];
    assert!(!Font { glyphs: &high, ..font }.is_well_formed());
    let reversed = [None, Some(Glyph { descender: 0, bounds: Rect { min: Point { x: 3, y: 0 }, max: Point { x: 2, y: 4 } } })];
    assert!(!Font { glyphs: &reversed, ..font }.is_well_formed());
    assert!(!Font { data: &data[..31], ..font }.is_well_formed());
    assert!(Font { glyphs: &[], ..font }.is_well_formed());
}

#[test]
fn baked_font_lends_its_buffers() {
    let baked = BakedFont {
        width: 8,
        height: 4,
        size: size(),
        space_advance: 5,
        data: vec![7; 32],
        glyphs: vec![None; 94],
    };
    let font = baked.font();
    assert_eq!((font.width, font.height, font.size, font.space_advance), (8, 4, size(), 5));
    assert_eq!(font.data, &[7u8; 32][..]);
    assert_eq!(font.glyphs, &[None; 94][..]);
    assert!(font.is_well_formed());
}

#[test]
fn aligned_data_wraps_its_value() {
    let data = gcn_fonts::font::AlignedData([1u8, 2, 3]);
    assert_eq!(data.0, [1, 2, 3]);
    assert_eq!(data, gcn_fonts::font::AlignedData([1u8, 2, 3]));
}
