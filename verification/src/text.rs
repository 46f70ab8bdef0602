//! Text rendering — the bitmap font glyph atlas.

use vstd::prelude::*;

verus! {

/// A bitmap font glyph atlas — fixed-width monospace.
#[derive(Debug, Clone)]
pub struct BitmapFont {
    /// Texture ID for the glyph atlas in TextureCache.
    pub texture_id: u64,
    /// Width of each glyph cell in the atlas (pixels).
    pub glyph_width: u32,
    /// Height of each glyph cell in the atlas (pixels).
    pub glyph_height: u32,
    /// Number of columns in the atlas grid.
    pub columns: u32,
    /// Atlas texture width.
    pub atlas_width: u32,
    /// Atlas texture height.
    pub atlas_height: u32,
    /// First ASCII code in the atlas (typically 32 = space).
    pub first_char: u8,
    /// Number of glyphs in the atlas.
    pub glyph_count: u32,
}

/// Atlas slot of a character: its offset from `first_char` when the atlas
/// holds it, else slot 0 (the fallback glyph).
pub open spec fn glyph_index(font: BitmapFont, ch: char) -> int {
    let code = ch as int;
    if font.first_char <= code < font.first_char + font.glyph_count {
        code - font.first_char
    } else {
        0
    }
}

/// Pixel origin `(x, y)` of atlas slot `index`, laid out row by row,
/// `columns` slots per row. An atlas without columns has only the origin
/// cell: every slot is drawn from `(0, 0)`.
pub open spec fn glyph_origin(font: BitmapFont, index: int) -> (int, int) {
    if font.columns == 0 {
        (0, 0)
    } else {
        (
            (index % font.columns as int) * font.glyph_width,
            (index / font.columns as int) * font.glyph_height,
        )
    }
}

impl BitmapFont {
    /// Pixel origin `(x, y)` of the atlas cell that draws `ch`; characters
    /// outside the atlas fall back to the first glyph, and a font whose
    /// atlas has no columns draws every character from the origin cell.
    pub fn glyph_cell(&self, ch: char) -> (r: (u32, u32))
        requires
            ch as u32 >= self.first_char ==> self.first_char + self.glyph_count <= u32::MAX,
            glyph_origin(*self, glyph_index(*self, ch)).0 <= u32::MAX,
            glyph_origin(*self, glyph_index(*self, ch)).1 <= u32::MAX,
        ensures
            r.0 == glyph_origin(*self, glyph_index(*self, ch)).0,
            r.1 == glyph_origin(*self, glyph_index(*self, ch)).1,
    {
        if self.columns == 0 {
            return (0, 0);
        }
        let code = ch as u32;
        let first = self.first_char as u32;
        let index = if code >= first && code < first + self.glyph_count {
            code - first
        } else {
            0
        };
        let col = index % self.columns;
        let row = index / self.columns;
        (col * self.glyph_width, row * self.glyph_height)
    }
}

/// Position of the cell in column `col` and row `row` of an atlas laid out
/// row by row, `columns` cells per row.
pub open spec fn atlas_position(columns: int, col: int, row: int) -> int {
    row * columns + col
}

/// Law: the atlas is laid out row by row, `columns` cells per row. A
/// character that the atlas holds, at position `index = code - first_char`,
/// is drawn from the cell in column `col` and row `row` with
/// `row * columns + col == index` and `col < columns`, at pixel
/// `(col * glyph_width, row * glyph_height)`; any other character, and every
/// character of a font without columns, is drawn from `(0, 0)`.
pub proof fn law_glyph_layout(font: BitmapFont, ch: char)
    ensures
        ({
            let code = ch as int;
            let o = glyph_origin(font, glyph_index(font, ch));
            &&& font.columns > 0 && font.first_char <= code < font.first_char + font.glyph_count
                ==> exists|col: int, row: int|
                0 <= col < font.columns && 0 <= row && #[trigger] atlas_position(
                    font.columns as int,
                    col,
                    row,
                ) == code - font.first_char && o == (col * font.glyph_width, row
                    * font.glyph_height)
            &&& !(font.first_char <= code < font.first_char + font.glyph_count) ==> o == (0int, 0int)
            &&& font.columns == 0 ==> o == (0int, 0int)
        }),
{
    let code = ch as int;
    if font.columns > 0 && font.first_char <= code < font.first_char + font.glyph_count {
        let index = code - font.first_char;
        let w = font.columns as int;
        let col = index % w;
        let row = index / w;
        vstd::arithmetic::div_mod::lemma_fundamental_div_mod(index, w);
        assert(row * w + col == index) by (nonlinear_arith)
            requires
                index == w * (index / w) + index % w,
                row == index / w,
                col == index % w,
        ;
        assert(0 <= row) by (nonlinear_arith)
            requires
                index >= 0,
                w > 0,
                row == index / w,
        ;
        assert(atlas_position(w, col, row) == index);
        assert(glyph_index(font, ch) == index);
        assert(glyph_origin(font, index) == (col * font.glyph_width, row * font.glyph_height));
    }
    if !(font.first_char <= code < font.first_char + font.glyph_count) {
        assert(glyph_index(font, ch) == 0);
        if font.columns > 0 {
            assert(0int % (font.columns as int) == 0);
            assert(0int / (font.columns as int) == 0);
        }
    }
}

/// Law: in a font with columns and non-empty cells, two different characters
/// that the atlas holds are drawn from different cells.
pub proof fn law_glyph_cells_distinct(font: BitmapFont, a: char, b: char)
    requires
        font.columns > 0,
        font.glyph_width > 0,
        font.glyph_height > 0,
        font.first_char <= a as int <= font.first_char + font.glyph_count - 1,
        font.first_char <= b as int <= font.first_char + font.glyph_count - 1,
        a != b,
    ensures
        glyph_origin(font, glyph_index(font, a)) != glyph_origin(font, glyph_index(font, b)),
{
    law_glyph_layout(font, a);
    law_glyph_layout(font, b);
    let w = font.columns as int;
    let gw = font.glyph_width as int;
    let gh = font.glyph_height as int;
    let (ca, ra) = choose|col: int, row: int|
        0 <= col < w && 0 <= row && #[trigger] atlas_position(w, col, row) == a as int
            - font.first_char && glyph_origin(font, glyph_index(font, a)) == (col * gw, row * gh);
    let (cb, rb) = choose|col: int, row: int|
        0 <= col < w && 0 <= row && #[trigger] atlas_position(w, col, row) == b as int
            - font.first_char && glyph_origin(font, glyph_index(font, b)) == (col * gw, row * gh);
    assert((a as int) != (b as int));
    if ca * gw == cb * gw && ra * gh == rb * gh {
        assert(ca == cb && ra == rb) by (nonlinear_arith)
            requires
                gw > 0,
                gh > 0,
                ca * gw == cb * gw,
                ra * gh == rb * gh,
        ;
    }
}

} // verus!
