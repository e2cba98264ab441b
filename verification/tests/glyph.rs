use sekai_profile_renderer::tmp_text::glyph::{
    advances_caret, is_drawn, resolve_glyph, same_face_alternate, GlyphChoice,
    MISSING_GLYPH_CHARACTER,
};

fn chain<'a>(faces: &'a [&'a str]) -> impl Fn(usize, char) -> bool + 'a {
    move |face, ch| faces[face].contains(ch)
}

#[test]
fn missing_characters_become_the_square_then_the_space() {
    let faces = ["AB\u{25A1} ", "C"];
    assert_eq!(
        resolve_glyph('\u{2764}', 2, chain(&faces)),
        Some(GlyphChoice {
            face: 0,
            glyph: MISSING_GLYPH_CHARACTER
        })
    );
    let no_square = ["AB ", "C"];
    assert_eq!(
        resolve_glyph('\u{2764}', 2, chain(&no_square)),
        Some(GlyphChoice {
            face: 0,
            glyph: ' '
        })
    );
    assert_eq!(resolve_glyph('\u{2764}', 2, chain(&["AB", "C"])), None);
}

#[test]
fn fallback_faces_are_searched_in_order() {
    let faces = ["AB\u{25A1}", "C\u{25A1}"];
    assert_eq!(
        resolve_glyph('C', 2, chain(&faces)),
        Some(GlyphChoice {
            face: 1,
            glyph: 'C'
        })
    );
}

#[test]
fn same_face_stand_ins_win_over_the_fallback_face() {
    let faces = ["A- ", "\u{2011}\u{00A0}"];
    assert_eq!(
        resolve_glyph('\u{2011}', 2, chain(&faces)),
        Some(GlyphChoice {
            face: 0,
            glyph: '-'
        })
    );
    assert_eq!(
        resolve_glyph('\u{00A0}', 2, chain(&faces)),
        Some(GlyphChoice {
            face: 0,
            glyph: ' '
        })
    );
    assert_eq!(
        resolve_glyph('\u{00AD}', 2, chain(&faces)),
        Some(GlyphChoice {
            face: 0,
            glyph: '-'
        })
    );
}

#[test]
fn control_characters_are_never_replaced() {
    assert_eq!(resolve_glyph('\r', 1, chain(&["\u{25A1} "])), None);
    assert_eq!(
        resolve_glyph('\t', 1, chain(&["\t"])),
        Some(GlyphChoice {
            face: 0,
            glyph: '\t'
        })
    );
}

#[test]
fn invisible_characters_are_not_drawn() {
    for ch in [' ', '\u{00A0}', '\u{3000}', '\u{200B}', '\u{00AD}', '\n'] {
        assert!(!is_drawn(ch), "{ch:?}");
    }
    assert!(is_drawn('A'));
    assert!(!advances_caret('\u{00AD}'));
    assert!(advances_caret('\u{200B}'));
}

#[test]
fn the_primary_face_draws_what_it_has() {
    let faces = ["X", "X"];
    assert_eq!(
        resolve_glyph('X', 2, chain(&faces)),
        Some(GlyphChoice { face: 0, glyph: 'X' })
    );
}

#[test]
fn stand_ins_are_the_plain_space_and_hyphen() {
    assert_eq!(same_face_alternate('\u{00A0}'), Some(' '));
    assert_eq!(same_face_alternate('\u{2011}'), Some('-'));
    assert_eq!(same_face_alternate('\u{00AD}'), Some('-'));
    assert_eq!(same_face_alternate('A'), None);
}

#[test]
fn no_face_draws_nothing() {
    assert_eq!(resolve_glyph('A', 0, chain(&[])), None);
}
