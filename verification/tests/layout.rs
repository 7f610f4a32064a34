use gcn_fonts::font::{Font, Glyph, PointSize};
use gcn_fonts::geometry::{Point, Rect};
use gcn_fonts::layout::{DrawVertex, Fraction, TexCoord, UploadedFont, Vertex, SUBPIXELS};

fn glyph(x0: u32, y0: u32, x1: u32, y1: u32, descender: i32) -> Option<Glyph> {
    Some(Glyph { descender, bounds: Rect { min: Point { x: x0, y: y0 }, max: Point { x: x1, y: y1 } } })
}

fn font() -> UploadedFont<'static, u32> {
    let mut glyphs = vec![None; 94];
    glyphs[0] = glyph(0, 0, 3, 10, 0);
    glyphs[(b'A' - 0x21) as usize] = glyph(10, 20, 19, 32, 0);
    glyphs[(b'g' - 0x21) as usize] = glyph(40, 8, 47, 20, 4);
    glyphs[(b'~' - 0x21) as usize] = glyph(60, 60, 64, 62, -5);
    let font = Font {
        width: 64,
        height: 64,
        size: PointSize { digits: 16, decimals: 0 },
        space_advance: 300,
        data: vec![0; 64 * 64].leak(),
        glyphs: glyphs.leak(),
    };
    assert!(font.is_well_formed());
    font.upload(77)
}

fn tex(s: u32, t: u32) -> TexCoord {
    TexCoord { s: Fraction { numerator: s, denominator: 64 }, t: Fraction { numerator: t, denominator: 64 } }
}

#[test]
fn upload_keeps_font_and_texture() {
    let uploaded = font();
    assert_eq!(*uploaded.texture(), 77);
    assert_eq!(uploaded.font().space_advance, 300);
    assert_eq!(uploaded.font().glyphs.len(), 94);
}

#[test]
fn lookup_subtracts_the_first_code() {
    let uploaded = font();
    let found = uploaded.lookup_glyph('A').unwrap();
    assert_eq!(Some(*found.glyph), uploaded.font().glyphs[0x41 - 0x21]);
    assert_eq!(found.width, 9);
    assert_eq!(found.height, 12);
    assert_eq!(found.advance_x, 9 * 64);
    assert_eq!(found.atlas_width, 64);
    assert_eq!(found.atlas_height, 64);
    assert_eq!(uploaded.lookup_glyph('!').unwrap().width, 3);
    assert_eq!(uploaded.lookup_glyph('~').unwrap().height, 2);
}

#[test]
fn lookup_misses_outside_the_table() {
    let uploaded = font();
    assert!(uploaded.lookup_glyph(' ').is_none());
    assert!(uploaded.lookup_glyph('\n').is_none());
    assert!(uploaded.lookup_glyph('\u{0}').is_none());
    assert!(uploaded.lookup_glyph('\u{7F}').is_none());
    assert!(uploaded.lookup_glyph('é').is_none());
    assert!(uploaded.lookup_glyph('\u{10FFFF}').is_none());
    assert!(uploaded.lookup_glyph('B').is_none());
}

#[test]
fn lookup_in_a_short_table() {
    let glyphs = [glyph(0, 0, 2, 2, 0), None];
    let short = Font {
        width: 8,
        height: 8,
        size: PointSize { digits: 8, decimals: 0 },
        space_advance: 64,
        data: &[0; 64],
        glyphs: &glyphs,
    }
    .upload(());
    assert!(short.lookup_glyph('!').is_some());
    assert!(short.lookup_glyph('"').is_none());
    assert!(short.lookup_glyph('#').is_none());
    assert_eq!(short.measure_char('#'), 64);
}

#[test]
fn quad_hangs_from_the_baseline_by_the_descender() {
    let uploaded = font();
    let positioned = uploaded.lookup_glyph('g').unwrap().position(1000, 5000);
    let bottom = 5000 + 4 * 64;
    let top = bottom - 12 * 64;
    let right = 1000 + 7 * 64;
    assert_eq!(
        positioned.vertices,
        [
            Vertex { x: 1000, y: top },
            Vertex { x: right, y: top },
            Vertex { x: right, y: bottom },
            Vertex { x: 1000, y: bottom }
        ]
    );
    assert_eq!(positioned.tex_coords, [tex(40, 8), tex(47, 8), tex(47, 20), tex(40, 20)]);
    assert_eq!(positioned.next_x, right);
}

#[test]
fn quad_with_negative_cursor_and_descender() {
    let uploaded = font();
    let positioned = uploaded.lookup_glyph('~').unwrap().position(-640, -64);
    assert_eq!(positioned.vertices[0], Vertex { x: -640, y: -64 - 5 * 64 - 2 * 64 });
    assert_eq!(positioned.vertices[2], Vertex { x: -640 + 4 * 64, y: -64 - 5 * 64 });
    assert_eq!(positioned.next_x, -384);
}

#[test]
fn render_appends_four_vertices_in_order() {
    let uploaded = font();
    let positioned = uploaded.lookup_glyph('A').unwrap().position(0, 0);
    let mut list = vec![DrawVertex { position: Vertex { x: 1, y: 2 }, color: 3, tex_coord: tex(4, 5) }];
    positioned.render(0xFF00FF80, &mut list);
    assert_eq!(list.len(), 5);
    assert_eq!(list[0].color, 3);
    for i in 0..4 {
        assert_eq!(
            list[i + 1],
            DrawVertex {
                position: positioned.vertices[i],
                color: 0xFF00FF80,
                tex_coord: positioned.tex_coords[i]
            }
        );
    }
}

#[test]
fn measure_char_is_glyph_width_or_space_advance() {
    let uploaded = font();
    assert_eq!(uploaded.measure_char('A'), 9 * SUBPIXELS);
    assert_eq!(uploaded.measure_char('!'), 3 * SUBPIXELS);
    assert_eq!(uploaded.measure_char(' '), 300);
    assert_eq!(uploaded.measure_char('B'), 300);
    assert_eq!(uploaded.measure_char('\t'), 300);
}

#[test]
fn measured_width_comes_from_the_table_entry() {
    let uploaded = font();
    let entry = uploaded.font().glyphs[(b'A' - 0x21) as usize].unwrap();
    let width = uploaded.measure_text_width("A");
    assert_eq!(width, 64 * (entry.bounds.max.x - entry.bounds.min.x) as i64);
    let mut list = Vec::new();
    let next = uploaded.render_char('A', 0, 0, 0, &mut list);
    assert_eq!(next, width);
    assert_eq!(list[1].position.x - list[0].position.x, width);
    let spanned = (list[1].tex_coord.s.numerator - list[0].tex_coord.s.numerator) as i64;
    assert_eq!(list[1].tex_coord.s.denominator, uploaded.font().width);
    assert_eq!(spanned * 64, width);
}

#[test]
fn measure_text_sums_the_characters() {
    let uploaded = font();
    assert_eq!(uploaded.measure_text_width(""), 0);
    assert_eq!(uploaded.measure_text_width("A g!"), (9 + 7 + 3) * 64 + 300);
    assert_eq!(uploaded.measure_text_width("  "), 600);
    assert_eq!(uploaded.measure_text_width("Añ"), 9 * 64 + 300);
}

#[test]
fn render_char_draws_or_advances() {
    let uploaded = font();
    let mut list = Vec::new();
    assert_eq!(uploaded.render_char(' ', 100, 200, 1, &mut list), 400);
    assert!(list.is_empty());
    assert_eq!(uploaded.render_char('B', 100, 200, 1, &mut list), 400);
    assert!(list.is_empty());
    assert_eq!(uploaded.render_char('!', 100, 200, 1, &mut list), 100 + 3 * 64);
    assert_eq!(list.len(), 4);
    assert_eq!(list[0].position, Vertex { x: 100, y: 200 - 640 });
    assert_eq!(list[2].position, Vertex { x: 100 + 192, y: 200 });
    assert_eq!(list[3].tex_coord, tex(0, 10));
    assert_eq!(list[1].color, 1);
}

#[test]
fn render_chars_moves_the_cursor_along() {
    let uploaded = font();
    let mut list = Vec::new();
    uploaded.render_chars("A !", 1000, 0, 7, &mut list);
    assert_eq!(list.len(), 8);
    assert_eq!(list[0].position.x, 1000);
    assert_eq!(list[1].position.x, 1000 + 9 * 64);
    assert_eq!(list[4].position.x, 1000 + 9 * 64 + 300);
    assert_eq!(list[5].position.x, 1000 + 9 * 64 + 300 + 3 * 64);
    let mut one_by_one = Vec::new();
    let mut x = 1000;
    for c in "A !".chars() {
        x = uploaded.render_char(c, x, 0, 7, &mut one_by_one);
    }
    assert_eq!(list, one_by_one);
    assert_eq!(x, 1000 + uploaded.measure_text_width("A !"));
}

#[test]
fn centered_text_starts_half_its_width_to_the_left() {
    let uploaded = font();
    let text = "gA ~!";
    let width = uploaded.measure_text_width(text);
    assert_eq!(width, (7 + 9 + 4 + 3) * 64 + 300);
    let mut centered = Vec::new();
    uploaded.render_chars_centered(text, 6400, 3200, 5, &mut centered);
    let mut shifted = Vec::new();
    uploaded.render_chars(text, 6400 - width / 2, 3200, 5, &mut shifted);
    assert_eq!(centered, shifted);
    assert_eq!(centered[0].position.x, 6400 - 886);
    assert_eq!(centered.len(), 16);
}

#[test]
fn centered_text_of_odd_width_rounds_down() {
    let mut glyphs = vec![None; 94];
    glyphs[0] = glyph(0, 0, 1, 1, 0);
    let odd = Font {
        width: 8,
        height: 4,
        size: PointSize { digits: 8, decimals: 0 },
        space_advance: 33,
        data: &[0; 32],
        glyphs: &glyphs,
    }
    .upload(());
    assert_eq!(odd.measure_text_width(" !"), 97);
    let mut list = Vec::new();
    odd.render_chars_centered(" !", 0, 0, 0, &mut list);
    assert_eq!(list[0].position.x, -48 + 33);
    let mut negative = Vec::new();
    odd.render_chars_centered(" !", -1000, 0, 0, &mut negative);
    assert_eq!(negative[0].position.x, -1000 - 48 + 33);
}

#[test]
fn rendering_appends_to_what_the_list_holds() {
    let uploaded = font();
    let mut list = Vec::new();
    uploaded.render_chars("A", 0, 0, 1, &mut list);
    uploaded.render_chars_centered("!", 0, 0, 2, &mut list);
    assert_eq!(list.len(), 8);
    assert_eq!(list[0].color, 1);
    assert_eq!(list[4].color, 2);
    assert_eq!(list[4].position.x, -96);
}
