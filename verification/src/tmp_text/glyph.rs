//! Which glyph TextMesh Pro draws for a character, and which characters it
//! draws at all.
//!
//! A dynamic font asset that lacks a character first tries a stand-in from the
//! same face, then the next font in the fallback chain. When no font has it,
//! the character is replaced by [`MISSING_GLYPH_CHARACTER`], and by a space if
//! that is missing too. Text never fails to lay out because of a missing
//! character.

use vstd::prelude::*;

use crate::unicode::{is_control, is_control_spec, is_whitespace, is_whitespace_spec};

verus! {

/// The character TextMesh Pro substitutes for one no font can draw.
pub const MISSING_GLYPH_CHARACTER: char = '\u{25A1}';

pub open spec fn same_face_alternate_spec(ch: char) -> Option<char> {
    if ch == '\u{00A0}' {
        Some(' ')
    } else if ch == '\u{00AD}' || ch == '\u{2011}' {
        Some('-')
    } else {
        None
    }
}

/// The same-face stand-in a font asset uses for a character it lacks, before
/// any fallback font is searched.
pub fn same_face_alternate(ch: char) -> (r: Option<char>)
    ensures
        r == same_face_alternate_spec(ch),
{
    if ch == '\u{00A0}' {
        Some(' ')
    } else if ch == '\u{00AD}' || ch == '\u{2011}' {
        Some('-')
    } else {
        None
    }
}

/// The face and the glyph character chosen for one source character.
#[derive(Clone, Copy, Debug, PartialEq, Eq, Structural)]
pub struct GlyphChoice {
    /// Index into the font chain the caller searched, primary first.
    pub face: usize,
    /// The character whose glyph is drawn from that face.
    pub glyph: char,
}

/// `has_glyph` answers every question on the first `face_count` faces, and
/// always the same way: such a face either supplies a character or it does
/// not. Nothing is promised of faces from `face_count` on, which are never
/// asked.
pub open spec fn answers_consistently<F: Fn(usize, char) -> bool>(has_glyph: F, face_count: usize) -> bool {
    &&& forall|face: usize, ch: char| face < face_count ==> call_requires(has_glyph, (face, ch))
    &&& forall|face: usize, ch: char, r: bool|
        face < face_count && #[trigger] call_ensures(has_glyph, (face, ch), r) ==> (r == call_ensures(
            has_glyph,
            (face, ch),
            true,
        ))
}

/// Whether `has_glyph` reports that `face` supplies `ch`.
pub open spec fn supplies<F: Fn(usize, char) -> bool>(has_glyph: F, face: usize, ch: char) -> bool {
    call_ensures(has_glyph, (face, ch), true)
}

/// The first face from `face` on that supplies `wanted` or its same-face
/// stand-in.
pub open spec fn search_from<F: Fn(usize, char) -> bool>(has_glyph: F, wanted: char, face_count: usize, face: int) -> Option<GlyphChoice>
    decreases face_count - face,
{
    if face < 0 || face >= face_count {
        None
    } else if supplies(has_glyph, face as usize, wanted) {
        Some(GlyphChoice { face: face as usize, glyph: wanted })
    } else if same_face_alternate_spec(wanted) is Some && supplies(has_glyph, face as usize, same_face_alternate_spec(wanted)->0) {
        Some(GlyphChoice { face: face as usize, glyph: same_face_alternate_spec(wanted)->0 })
    } else {
        search_from(has_glyph, wanted, face_count, face + 1)
    }
}

/// The glyph drawn for `ch` from a chain of `face_count` faces.
pub open spec fn resolve_glyph_spec<F: Fn(usize, char) -> bool>(has_glyph: F, ch: char, face_count: usize) -> Option<GlyphChoice> {
    if is_control_spec(ch) {
        if face_count > 0 && supplies(has_glyph, 0, ch) {
            Some(GlyphChoice { face: 0, glyph: ch })
        } else {
            None
        }
    } else if search_from(has_glyph, ch, face_count, 0) is Some {
        search_from(has_glyph, ch, face_count, 0)
    } else if search_from(has_glyph, MISSING_GLYPH_CHARACTER, face_count, 0) is Some {
        search_from(has_glyph, MISSING_GLYPH_CHARACTER, face_count, 0)
    } else if face_count > 0 && supplies(has_glyph, 0, ' ') {
        Some(GlyphChoice { face: 0, glyph: ' ' })
    } else {
        None
    }
}

fn ask<F: Fn(usize, char) -> bool>(has_glyph: &F, face_count: usize, face: usize, ch: char) -> (r: bool)
    requires
        answers_consistently(*has_glyph, face_count),
        face < face_count,
    ensures
        r == supplies(*has_glyph, face, ch),
{
    let r = has_glyph(face, ch);
    r
}

fn search<F: Fn(usize, char) -> bool>(has_glyph: &F, wanted: char, face_count: usize) -> (r: Option<GlyphChoice>)
    requires
        answers_consistently(*has_glyph, face_count),
    ensures
        r == search_from(*has_glyph, wanted, face_count, 0),
{
    let mut face: usize = 0;
    while face < face_count
        invariant
            answers_consistently(*has_glyph, face_count),
            face <= face_count,
            search_from(*has_glyph, wanted, face_count, 0) == search_from(*has_glyph, wanted, face_count, face as int),
        decreases face_count - face,
    {
        if ask(has_glyph, face_count, face, wanted) {
            return Some(GlyphChoice { face, glyph: wanted });
        }
        if let Some(alternate) = same_face_alternate(wanted) {
            if ask(has_glyph, face_count, face, alternate) {
                return Some(GlyphChoice { face, glyph: alternate });
            }
        }
        face = face + 1;
    }
    None
}

/// Resolves `ch` against a font chain of `face_count` faces, primary first.
///
/// `has_glyph(face, ch)` reports whether a face can supply `ch`. Control
/// characters are layout controls rather than glyphs and are never replaced.
/// `None` means nothing can be drawn and the character advances nothing.
pub fn resolve_glyph<F: Fn(usize, char) -> bool>(ch: char, face_count: usize, has_glyph: F) -> (r: Option<GlyphChoice>)
    requires
        answers_consistently(has_glyph, face_count),
    ensures
        r == resolve_glyph_spec(has_glyph, ch, face_count),
{
    if is_control(ch) {
        if face_count > 0 && ask(&has_glyph, face_count, 0, ch) {
            return Some(GlyphChoice { face: 0, glyph: ch });
        }
        return None;
    }
    let direct = search(&has_glyph, ch, face_count);
    if direct.is_some() {
        return direct;
    }
    let square = search(&has_glyph, MISSING_GLYPH_CHARACTER, face_count);
    if square.is_some() {
        return square;
    }
    if face_count > 0 && ask(&has_glyph, face_count, 0, ' ') {
        Some(GlyphChoice { face: 0, glyph: ' ' })
    } else {
        None
    }
}

pub open spec fn is_drawn_spec(ch: char) -> bool {
    !(is_whitespace_spec(ch) || ch == '\u{200B}' || ch == '\u{00AD}' || ch == '\u{0003}')
}

/// Whether TextMesh Pro emits a quad for `ch`. White space, the zero width
/// space, the soft hyphen and the end-of-text marker only move the caret.
pub fn is_drawn(ch: char) -> (r: bool)
    ensures
        r == is_drawn_spec(ch),
{
    !(is_whitespace(ch) || ch == '\u{200B}' || ch == '\u{00AD}' || ch == '\u{0003}')
}

/// Whether `ch` advances the caret. The soft hyphen and the end-of-text
/// marker take no room; a soft hyphen only shows as `-` where a line breaks
/// on it.
pub fn advances_caret(ch: char) -> (r: bool)
    ensures
        r == !(ch == '\u{00AD}' || ch == '\u{0003}'),
{
    !(ch == '\u{00AD}' || ch == '\u{0003}')
}

/// A character the primary face supplies is drawn as itself from that face,
/// whatever the fallback faces hold.
pub proof fn law_primary_face_draws_what_it_has<F: Fn(usize, char) -> bool>(has_glyph: F, ch: char, face_count: usize)
    requires
        face_count > 0,
        supplies(has_glyph, 0, ch),
    ensures
        resolve_glyph_spec(has_glyph, ch, face_count) == Some(GlyphChoice { face: 0, glyph: ch }),
{
}

} // verus!
