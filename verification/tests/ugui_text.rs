use sekai_profile_renderer::ugui_freetype::{char_height_26_6, glyph_coverage, DPI};
use sekai_profile_renderer::ugui_text::{modifier_characters, turns_upright, UguiGlyph};

#[test]
fn upright_turns_cover_kana_kanji_and_hangul_only() {
    for ch in ['あ', 'ゟ', 'ア', 'ー', 'ヿ', '一', '鿿', '가', '힣'] {
        assert!(turns_upright(ch), "{ch}");
    }
    for ch in ['A', '3', '「', '。', '、', '々', '\u{a0}', '\u{3000}', '，'] {
        assert!(!turns_upright(ch), "{ch}");
    }
}

#[test]
fn modifier_characters_skip_line_breaks_carriage_returns_and_spaces() {
    assert_eq!(modifier_characters("願\r望 a\nb\t"), vec!['願', '望', 'a', 'b', '\t']);
}

#[test]
fn character_height_is_in_26_6_fixed_point() {
    assert_eq!(char_height_26_6(40), 2560);
    assert_eq!(char_height_26_6(u32::MAX), u32::MAX as i64 * 64);
}

#[test]
fn coverage_rows_run_top_first() {
    let glyph = UguiGlyph {
        width: 2,
        rows: 2,
        coverage: vec![1, 2, 3, 4],
        ..UguiGlyph::default()
    };
    assert_eq!(glyph.coverage_at(1, 0), 2);
    assert_eq!(glyph.coverage_at(0, 1), 3);
}

#[test]
fn glyph_coverage_reads_rows_top_first_for_either_pitch() {
    let buffer = [1u8, 2, 9, 3, 4, 9, 5, 6, 9];
    assert_eq!(glyph_coverage(&buffer, 2, 3, 3), Some(vec![1, 2, 3, 4, 5, 6]));
    assert_eq!(glyph_coverage(&buffer, 2, 3, -3), Some(vec![5, 6, 3, 4, 1, 2]));
    assert_eq!(glyph_coverage(&buffer, 2, 4, 3), None);
    assert_eq!(glyph_coverage(&buffer, 4, 3, 3), None);
    assert_eq!(glyph_coverage(&[], 0, 0, 0), Some(Vec::new()));
    assert_eq!(glyph_coverage(&buffer, 3, 1, i32::MIN), Some(vec![1, 2, 9]));
}

#[test]
fn the_character_size_is_the_pixel_size_in_26_6_at_72_dpi() {
    assert_eq!(char_height_26_6(40), 2560);
    assert_eq!(DPI, 72);
}
