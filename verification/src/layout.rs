//! Text layout over a baked font: every character that has a glyph becomes
//! a textured quad at the cursor, and the cursor moves on by the width of
//! the glyph; every other character moves the cursor by the advance of the
//! space character and draws nothing.
//!
//! Screen coordinates are in 64ths of a pixel; rows count downwards.

use crate::font::{Font, Glyph};
use vstd::prelude::*;

verus! {

/// Number of coordinate units in one pixel.
pub const SUBPIXELS: i64 = 64;

/// Largest distance from zero of a cursor coordinate at which a character
/// is laid out.
pub const MAX_COORDINATE: i64 = 0x2000_0000_0000_0000;

/// Largest distance from zero of a cursor coordinate at which a text is
/// laid out.
pub const MAX_TEXT_START: i64 = 0x1000_0000_0000_0000;

/// Largest number of characters of a text that is laid out in one call.
pub const MAX_TEXT_LENGTH: usize = 0x20_0000;

/// Whether a character can be laid out at the coordinate.
pub open spec fn coordinate_in_range(v: i64) -> bool {
    -MAX_COORDINATE <= v <= MAX_COORDINATE
}

/// Whether a text can be laid out from the coordinate.
pub open spec fn text_start_in_range(v: i64) -> bool {
    -MAX_TEXT_START <= v <= MAX_TEXT_START
}

/// A position on the screen.
#[derive(Clone, Copy, Debug, PartialEq, Eq, Structural)]
pub struct Vertex {
    pub x: i64,
    pub y: i64,
}

/// A part of the width or of the height of the atlas.
#[derive(Clone, Copy, Debug, PartialEq, Eq, Structural)]
pub struct Fraction {
    pub numerator: u32,
    pub denominator: u32,
}

/// A position in the atlas, as fractions of its width (`s`) and of its
/// height (`t`). Rows count downwards, as in the atlas bitmap.
#[derive(Clone, Copy, Debug, PartialEq, Eq, Structural)]
pub struct TexCoord {
    pub s: Fraction,
    pub t: Fraction,
}

/// One vertex as the draw interface takes it: position, color and texture
/// coordinate. Four in a row make a quad.
#[derive(Clone, Copy, Debug, PartialEq, Eq, Structural)]
pub struct DrawVertex {
    pub position: Vertex,
    pub color: u32,
    pub tex_coord: TexCoord,
}

/// The corners of the quad of `glyph` for a cursor at (`x`, `y`) on the
/// baseline: top left, top right, bottom right, bottom left. The lower
/// edge lies `descender` pixels below the cursor.
pub open spec fn quad_vertices(glyph: Glyph, x: int, y: int) -> Seq<Vertex> {
    let left = x;
    let right = x + SUBPIXELS * glyph.bounds.spec_width();
    let bottom = y + SUBPIXELS * glyph.descender;
    let top = bottom - SUBPIXELS * glyph.bounds.spec_height();
    seq![
        Vertex { x: left as i64, y: top as i64 },
        Vertex { x: right as i64, y: top as i64 },
        Vertex { x: right as i64, y: bottom as i64 },
        Vertex { x: left as i64, y: bottom as i64 },
    ]
}

/// The corners of `glyph` in an atlas of the given size, in the order of
/// `quad_vertices`.
pub open spec fn quad_tex_coords(glyph: Glyph, atlas_width: u32, atlas_height: u32) -> Seq<
    TexCoord,
> {
    let left = Fraction { numerator: glyph.bounds.min.x, denominator: atlas_width };
    let right = Fraction { numerator: glyph.bounds.max.x, denominator: atlas_width };
    let top = Fraction { numerator: glyph.bounds.min.y, denominator: atlas_height };
    let bottom = Fraction { numerator: glyph.bounds.max.y, denominator: atlas_height };
    seq![
        TexCoord { s: left, t: top },
        TexCoord { s: right, t: top },
        TexCoord { s: right, t: bottom },
        TexCoord { s: left, t: bottom },
    ]
}

/// The vertices of one quad as the draw interface takes them.
pub open spec fn draw_vertices(vertices: Seq<Vertex>, tex_coords: Seq<TexCoord>, color: u32) -> Seq<
    DrawVertex,
> {
    Seq::new(
        4,
        |i: int| DrawVertex { position: vertices[i], color, tex_coord: tex_coords[i] },
    )
}

impl<'a> Font<'a> {
    /// The glyph of the character: the entry of the glyph table at index
    /// `code - 0x21`, where the table has that slot and the slot is filled.
    pub open spec fn spec_glyph(&self, c: char) -> Option<Glyph> {
        let slot = c as u32 - 0x21;
        if 0 <= slot < self.glyphs@.len() {
            self.glyphs@[slot]
        } else {
            None
        }
    }

    /// How far the character moves the cursor: by the width of its glyph,
    /// or by the advance of the space character where it has none.
    pub open spec fn advance(&self, c: char) -> int {
        match self.spec_glyph(c) {
            Some(glyph) => SUBPIXELS * glyph.bounds.spec_width(),
            None => self.space_advance as int,
        }
    }

    /// How far the text moves the cursor.
    pub open spec fn text_width(&self, text: Seq<char>) -> int
        decreases text.len(),
    {
        if text.len() == 0 {
            0
        } else {
            self.text_width(text.drop_last()) + self.advance(text.last())
        }
    }

    /// What is drawn for the character with the cursor at (`x`, `y`):
    /// the quad of its glyph, or nothing where it has none.
    pub open spec fn char_quad(&self, c: char, x: int, y: int, color: u32) -> Seq<DrawVertex> {
        match self.spec_glyph(c) {
            Some(glyph) => draw_vertices(
                quad_vertices(glyph, x, y),
                quad_tex_coords(glyph, self.width, self.height),
                color,
            ),
            None => Seq::empty(),
        }
    }

    /// What is drawn for the text with the cursor starting at (`x`, `y`):
    /// the quad of every character, each with the cursor where the
    /// characters before it have moved it.
    pub open spec fn text_quads(&self, text: Seq<char>, x: int, y: int, color: u32) -> Seq<
        DrawVertex,
    >
        decreases text.len(),
    {
        if text.len() == 0 {
            Seq::empty()
        } else {
            self.text_quads(text.drop_last(), x, y, color) + self.char_quad(
                text.last(),
                x + self.text_width(text.drop_last()),
                y,
                color,
            )
        }
    }

    /// No character moves the cursor backwards, or by 2^38 units or more.
    pub proof fn lemma_advance_bounds(&self, c: char)
        requires
            self.wf(),
        ensures
            0 <= self.advance(c) < 0x40_0000_0000,
    {
    }

    /// A text moves the cursor forwards, by less than 2^38 units for each
    /// of its characters.
    pub proof fn lemma_text_width_bounds(&self, text: Seq<char>)
        requires
            self.wf(),
        ensures
            0 <= self.text_width(text) <= text.len() * 0x40_0000_0000,
        decreases text.len(),
    {
        if text.len() > 0 {
            self.lemma_text_width_bounds(text.drop_last());
            self.lemma_advance_bounds(text.last());
        }
    }

    /// What is measured for a character that has a glyph is what its quad
    /// is wide, and both are the width of the rectangle of the glyph in
    /// the atlas: the part of the atlas width that its texture bounds span,
    /// times the atlas width.
    pub proof fn lemma_measured_width_is_rendered_width(&self, c: char, x: int, y: int)
        requires
            self.wf(),
            self.spec_glyph(c) is Some,
            -MAX_COORDINATE <= x <= MAX_COORDINATE,
            -MAX_COORDINATE <= y <= MAX_COORDINATE,
        ensures
            self.text_width(seq![c]) == self.advance(c),
            self.advance(c) == SUBPIXELS * (self.spec_glyph(c)->0.bounds.max.x - self.spec_glyph(
                c,
            )->0.bounds.min.x),
            self.advance(c) == quad_vertices(self.spec_glyph(c)->0, x, y)[1].x - quad_vertices(
                self.spec_glyph(c)->0,
                x,
                y,
            )[0].x,
            self.advance(c) == SUBPIXELS * (quad_tex_coords(
                self.spec_glyph(c)->0,
                self.width,
                self.height,
            )[1].s.numerator - quad_tex_coords(
                self.spec_glyph(c)->0,
                self.width,
                self.height,
            )[0].s.numerator),
    {
        assert(seq![c].drop_last() =~= Seq::<char>::empty());
        assert(self.text_width(seq![c].drop_last()) == 0);
        assert(seq![c].last() == c);
    }

    /// The texture coordinates of a glyph of the font lie inside the
    /// atlas: every one is a part between nothing and the whole of its
    /// width or height.
    pub proof fn lemma_tex_coords_in_atlas(&self, c: char, corner: int)
        requires
            self.wf(),
            self.spec_glyph(c) is Some,
            0 <= corner < 4,
        ensures
            quad_tex_coords(self.spec_glyph(c)->0, self.width, self.height)[corner].s.denominator
                == self.width,
            quad_tex_coords(self.spec_glyph(c)->0, self.width, self.height)[corner].t.denominator
                == self.height,
            quad_tex_coords(self.spec_glyph(c)->0, self.width, self.height)[corner].s.numerator
                <= self.width,
            quad_tex_coords(self.spec_glyph(c)->0, self.width, self.height)[corner].t.numerator
                <= self.height,
    {
    }

    /// Binds the font to the texture that was created from its atlas.
    pub fn upload<T>(&self, texture: T) -> (uploaded: UploadedFont<'a, T>)
        requires
            self.wf(),
        ensures
            uploaded@ == *self,
            uploaded.spec_texture() == texture,
    {
        UploadedFont { texture, font: *self }
    }
}

/// A glyph that was looked up, with its size in pixels.
#[derive(Clone, Copy, Debug)]
pub struct DecodedGlyph<'a> {
    pub glyph: &'a Glyph,
    /// How far the glyph moves the cursor, in 64ths of a pixel.
    pub advance_x: i64,
    /// Width of the glyph in pixels.
    pub width: u32,
    /// Height of the glyph in pixels.
    pub height: u32,
    /// Width of the atlas that holds the glyph.
    pub atlas_width: u32,
    /// Height of the atlas that holds the glyph.
    pub atlas_height: u32,
}

impl DecodedGlyph<'_> {
    /// The glyph lies inside the atlas, the size is that of its
    /// rectangle, and the advance is its width.
    pub open spec fn wf(&self) -> bool {
        &&& self.glyph.bounds.wf()
        &&& self.glyph.bounds.within(self.atlas_width as int, self.atlas_height as int)
        &&& self.width == self.glyph.bounds.spec_width()
        &&& self.height == self.glyph.bounds.spec_height()
        &&& self.advance_x == SUBPIXELS * self.width
    }

    /// The quad of the glyph for a cursor at (`x`, `y`), and the cursor
    /// after the glyph.
    pub fn position(&self, x: i64, y: i64) -> (positioned: PositionedGlyph)
        requires
            self.wf(),
            coordinate_in_range(x),
            coordinate_in_range(y),
        ensures
            positioned.vertices@ == quad_vertices(*self.glyph, x as int, y as int),
            positioned.tex_coords@ == quad_tex_coords(
                *self.glyph,
                self.atlas_width,
                self.atlas_height,
            ),
            positioned.next_x == x + self.advance_x,
    {
        let by: i64 = y + SUBPIXELS * (self.glyph.descender as i64);
        let ty: i64 = by - SUBPIXELS * (self.height as i64);
        let rx: i64 = x + SUBPIXELS * (self.width as i64);
        let lx: i64 = x;
        let vertices = [
            Vertex { x: lx, y: ty },
            Vertex { x: rx, y: ty },
            Vertex { x: rx, y: by },
            Vertex { x: lx, y: by },
        ];
        let next_x: i64 = x + self.advance_x;
        let bounds = &self.glyph.bounds;
        let top = Fraction { numerator: bounds.min.y, denominator: self.atlas_height };
        let bottom = Fraction { numerator: bounds.max.y, denominator: self.atlas_height };
        let right = Fraction { numerator: bounds.max.x, denominator: self.atlas_width };
        let left = Fraction { numerator: bounds.min.x, denominator: self.atlas_width };
        let tex_coords = [
            TexCoord { s: left, t: top },
            TexCoord { s: right, t: top },
            TexCoord { s: right, t: bottom },
            TexCoord { s: left, t: bottom },
        ];
        proof {
            assert(vertices@ =~= quad_vertices(*self.glyph, x as int, y as int));
            assert(tex_coords@ =~= quad_tex_coords(
                *self.glyph,
                self.atlas_width,
                self.atlas_height,
            ));
        }
        PositionedGlyph { vertices, tex_coords, next_x }
    }
}

/// The quad of one glyph on the screen.
#[derive(Clone, Copy, Debug, PartialEq, Eq)]
pub struct PositionedGlyph {
    /// Corners on the screen: top left, top right, bottom right, bottom
    /// left.
    pub vertices: [Vertex; 4],
    /// Corners in the atlas, in the same order.
    pub tex_coords: [TexCoord; 4],
    /// The cursor after the glyph.
    pub next_x: i64,
}

impl PositionedGlyph {
    /// Appends the quad to the draw list: its four corners in order, each
    /// with the color and its texture coordinate.
    pub fn render(&self, color: u32, out: &mut Vec<DrawVertex>)
        ensures
            final(out)@ == old(out)@ + draw_vertices(self.vertices@, self.tex_coords@, color),
    {
        let mut i: usize = 0;
        while i < 4
            invariant
                i <= 4,
                out@ == old(out)@ + draw_vertices(self.vertices@, self.tex_coords@, color).take(
                    i as int,
                ),
            decreases 4 - i,
        {
            let ghost before = out@;
            out.push(
                DrawVertex { position: self.vertices[i], color, tex_coord: self.tex_coords[i] },
            );
            proof {
                let quad = draw_vertices(self.vertices@, self.tex_coords@, color);
                assert(quad.take(i + 1) =~= quad.take(i as int).push(quad[i as int]));
                assert(out@ =~= old(out)@ + quad.take(i + 1));
            }
            i += 1;
        }
        proof {
            let quad = draw_vertices(self.vertices@, self.tex_coords@, color);
            assert(quad.take(4) =~= quad);
        }
    }
}

/// A font together with the texture that was created from its atlas. The
/// texture belongs to this value alone.
pub struct UploadedFont<'a, T> {
    texture: T,
    font: Font<'a>,
}

impl<'a, T> View for UploadedFont<'a, T> {
    type V = Font<'a>;

    /// The font.
    closed spec fn view(&self) -> Font<'a> {
        self.font
    }
}

impl<'a, T> UploadedFont<'a, T> {
    /// The texture that the font was bound to.
    pub closed spec fn spec_texture(&self) -> T {
        self.texture
    }

    /// The font is well formed.
    #[verifier::type_invariant]
    spec fn well_formed(&self) -> bool {
        self.font.wf()
    }

    /// The font, which is well formed.
    pub fn font(&self) -> (font: &Font<'a>)
        ensures
            *font == self@,
            font.wf(),
    {
        proof {
            use_type_invariant(self);
        }
        &self.font
    }

    /// The texture, for binding it while the text is drawn.
    pub fn texture(&self) -> (texture: &T)
        ensures
            *texture == self.spec_texture(),
    {
        &self.texture
    }

    /// Looks the glyph of the character up in the glyph table.
    pub fn lookup_glyph(&self, c: char) -> (found: Option<DecodedGlyph<'_>>)
        ensures
            match found {
                Some(decoded) => {
                    &&& self@.spec_glyph(c) == Some(*decoded.glyph)
                    &&& decoded.wf()
                    &&& decoded.atlas_width == self@.width
                    &&& decoded.atlas_height == self@.height
                },
                None => self@.spec_glyph(c) is None,
            },
    {
        proof {
            use_type_invariant(self);
        }
        let code: u32 = c as u32;
        if code < 0x21 {
            return None;
        }
        let slot: usize = (code - 0x21) as usize;
        if slot >= self.font.glyphs.len() {
            return None;
        }
        match &self.font.glyphs[slot] {
            Some(glyph) => {
                let bounds = &glyph.bounds;
                let width: u32 = bounds.max.x - bounds.min.x;
                let height: u32 = bounds.max.y - bounds.min.y;
                let advance_x: i64 = SUBPIXELS * (width as i64);
                Some(
                    DecodedGlyph {
                        glyph,
                        width,
                        height,
                        advance_x,
                        atlas_width: self.font.width,
                        atlas_height: self.font.height,
                    },
                )
            },
            None => None,
        }
    }

    /// How far the character moves the cursor.
    pub fn measure_char(&self, c: char) -> (advance: i64)
        ensures
            advance == self@.advance(c),
    {
        if let Some(glyph) = self.lookup_glyph(c) {
            glyph.advance_x
        } else {
            self.font.space_advance as i64
        }
    }

    /// How far the text moves the cursor.
    pub fn measure_text_width(&self, text: &str) -> (width: i64)
        requires
            text@.len() <= MAX_TEXT_LENGTH,
        ensures
            width == self@.text_width(text@),
    {
        proof {
            use_type_invariant(self);
        }
        let mut width: i64 = 0;
        for c in it: text.chars()
            invariant
                self@.wf(),
                it.seq() == text@,
                text@.len() <= MAX_TEXT_LENGTH,
                width == self@.text_width(text@.take(it.index() as int)),
        {
            proof {
                let n = it.index() as int;
                assert(text@.take(n + 1).drop_last() =~= text@.take(n));
                self.font.lemma_text_width_bounds(text@.take(n));
                self.font.lemma_advance_bounds(c);
            }
            width = width + self.measure_char(c);
        }
        proof {
            assert(text@.take(text@.len() as int) =~= text@);
        }
        width
    }

    /// Appends what is drawn for the character with the cursor at (`x`,
    /// `y`) to the draw list, and returns the cursor after the character.
    pub fn render_char(&self, c: char, x: i64, y: i64, color: u32, out: &mut Vec<DrawVertex>) -> (next_x:
        i64)
        requires
            coordinate_in_range(x),
            coordinate_in_range(y),
        ensures
            final(out)@ == old(out)@ + self@.char_quad(c, x as int, y as int, color),
            next_x == x + self@.advance(c),
    {
        proof {
            use_type_invariant(self);
            self.font.lemma_advance_bounds(c);
        }
        if let Some(glyph) = self.lookup_glyph(c) {
            let glyph = glyph.position(x, y);
            glyph.render(color, out);
            glyph.next_x
        } else {
            proof {
                assert(out@ =~= old(out)@ + Seq::<DrawVertex>::empty());
            }
            x + self.font.space_advance as i64
        }
    }

    /// Appends what is drawn for the text with the cursor starting at
    /// (`x`, `y`) to the draw list.
    pub fn render_chars(&self, text: &str, x: i64, y: i64, color: u32, out: &mut Vec<DrawVertex>)
        requires
            text@.len() <= MAX_TEXT_LENGTH,
            text_start_in_range(x),
            coordinate_in_range(y),
        ensures
            final(out)@ == old(out)@ + self@.text_quads(text@, x as int, y as int, color),
    {
        self.render_text(text, x, y, color, out);
    }

    /// Appends what is drawn for the text to the draw list, with the
    /// cursor starting left of (`x`, `y`) by half of the width of the text,
    /// rounded down: the text is centered on `x`.
    pub fn render_chars_centered(
        &self,
        text: &str,
        x: i64,
        y: i64,
        color: u32,
        out: &mut Vec<DrawVertex>,
    )
        requires
            text@.len() <= MAX_TEXT_LENGTH,
            text_start_in_range(x),
            coordinate_in_range(y),
        ensures
            final(out)@ == old(out)@ + self@.text_quads(
                text@,
                x - self@.text_width(text@) / 2,
                y as int,
                color,
            ),
    {
        proof {
            use_type_invariant(self);
            self.font.lemma_text_width_bounds(text@);
        }
        let width: i64 = self.measure_text_width(text);
        let x: i64 = x - width / 2;
        self.render_text(text, x, y, color, out);
    }

    /// As `render_chars`, from any cursor that leaves room for the longest
    /// text.
    fn render_text(&self, text: &str, x: i64, y: i64, color: u32, out: &mut Vec<DrawVertex>)
        requires
            text@.len() <= MAX_TEXT_LENGTH,
            -MAX_COORDINATE <= x <= MAX_TEXT_START,
            coordinate_in_range(y),
        ensures
            final(out)@ == old(out)@ + self@.text_quads(text@, x as int, y as int, color),
    {
        proof {
            use_type_invariant(self);
        }
        let mut cursor: i64 = x;
        for c in it: text.chars()
            invariant
                self@.wf(),
                it.seq() == text@,
                text@.len() <= MAX_TEXT_LENGTH,
                -MAX_COORDINATE <= x <= MAX_TEXT_START,
                coordinate_in_range(y),
                cursor == x + self@.text_width(text@.take(it.index() as int)),
                out@ == old(out)@ + self@.text_quads(
                    text@.take(it.index() as int),
                    x as int,
                    y as int,
                    color,
                ),
        {
            proof {
                let n = it.index() as int;
                assert(text@.take(n + 1).drop_last() =~= text@.take(n));
                self.font.lemma_text_width_bounds(text@.take(n));
            }
            cursor = self.render_char(c, cursor, y, color, out);
        }
        proof {
            assert(text@.take(text@.len() as int) =~= text@);
        }
    }
}

} // verus!
