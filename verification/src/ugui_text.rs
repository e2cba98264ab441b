//! uGUI text: the faces glyphs come from, the glyphs a rasterizer supplies,
//! and which characters the vertical-text modifier keeps upright.

use std::sync::Arc;

use vstd::prelude::*;

verus! {

broadcast use vstd::string::group_string_axioms;

/// A face of a font file: the file is requested by `family`, and
/// `face_index` picks the face in it (0 for a file that is not a
/// collection).
#[derive(Clone, Debug, PartialEq, Eq, Hash, PartialOrd, Ord)]
pub struct UguiFontFace {
    pub family: String,
    pub face_index: u32,
}

/// A glyph rendered by FreeType at one pixel size.
#[derive(Clone, Debug, Default, PartialEq, Eq)]
pub struct UguiGlyph {
    pub bitmap_left: i32,
    pub bitmap_top: i32,
    pub width: u32,
    pub rows: u32,
    /// Unhinted horizontal advance, 26.6 fixed point.
    pub advance_26_6: i64,
    /// Coverage, `rows` rows of `width` bytes, top row first.
    pub coverage: Vec<u8>,
}

impl UguiGlyph {
    /// The coverage holds exactly `rows` rows of `width` bytes.
    pub open spec fn wf(&self) -> bool {
        self.coverage@.len() == self.rows as int * self.width as int
    }

    /// The coverage of texel (`x`, `y`), `y` counted from the top row.
    pub fn coverage_at(&self, x: u32, y: u32) -> (r: u8)
        requires
            self.wf(),
            x < self.width,
            y < self.rows,
        ensures
            r == self.coverage@[y as int * self.width as int + x as int],
    {
        proof {
            assert((y as int) * (self.width as int) + (x as int) < (self.rows as int) * (self.width as int)) by (nonlinear_arith)
                requires
                    x < self.width,
                    y < self.rows,
            ;
        }
        let n = self.coverage.len();
        assert((y as int) * (self.width as int) <= n);
        let index = y as usize * self.width as usize + x as usize;
        self.coverage[index]
    }
}

/// Supplies the glyphs of a text's face chain to the layout.
pub trait UguiGlyphRasterizer {
    /// `ch` rendered at `pixel_size`, from the first face that has a glyph
    /// for it, or `None` when none has.
    fn glyph(&mut self, ch: char, pixel_size: u32) -> Option<Arc<UguiGlyph>>;
}

/// Whether the vertical-text modifier turns `ch` upright: kana, kanji and
/// Hangul syllables.
pub open spec fn turns_upright_spec(ch: char) -> bool {
    ('\u{3040}' <= ch && ch <= '\u{309F}') || ('\u{30A0}' <= ch && ch <= '\u{30FF}') || ('\u{4E00}' <= ch && ch
        <= '\u{9FFF}') || ('\u{AC00}' <= ch && ch <= '\u{D7A3}')
}

/// Whether the vertical-text modifier turns `ch` upright: kana, kanji and
/// Hangul syllables.
pub fn turns_upright(ch: char) -> (r: bool)
    ensures
        r == turns_upright_spec(ch),
{
    ('\u{3040}' <= ch && ch <= '\u{309F}') || ('\u{30A0}' <= ch && ch <= '\u{30FF}') || ('\u{4E00}' <= ch && ch
        <= '\u{9FFF}') || ('\u{AC00}' <= ch && ch <= '\u{D7A3}')
}

/// The characters the vertical-text modifier walks: the text without line
/// feeds, carriage returns and U+0020.
pub open spec fn modifier_characters_spec(text: Seq<char>) -> Seq<char>
    decreases text.len(),
{
    if text.len() == 0 {
        Seq::empty()
    } else {
        let kept = modifier_characters_spec(text.drop_last());
        let c = text.last();
        if c == '\n' || c == '\r' || c == ' ' {
            kept
        } else {
            kept.push(c)
        }
    }
}

/// The characters the vertical-text modifier walks; quad `k` of a laid-out
/// text belongs to character `k` of this list.
pub fn modifier_characters(text: &str) -> (r: Vec<char>)
    ensures
        r@ == modifier_characters_spec(text@),
{
    let mut out: Vec<char> = Vec::new();
    for c in it: text.chars()
        invariant
            it.seq() == text@,
            out@ == modifier_characters_spec(it.seq().take(it.index() as int)),
    {
        let ghost k = it.index();
        proof {
            assert(it.seq().take(k + 1).drop_last() =~= it.seq().take(k as int));
        }
        if !(c == '\n' || c == '\r' || c == ' ') {
            out.push(c);
        }
    }
    assert(text@.take(text@.len() as int) =~= text@);
    out
}

} // verus!
