use sekai_profile_renderer::tmp_text::line_breaking::{
    is_cjk_break_character, is_following_character, is_leading_character,
};

#[test]
fn line_breaking_tables_hold_the_default_rules() {
    for ch in ['(', '「', '（', '$'] {
        assert!(is_leading_character(ch), "{ch:?}");
    }
    for ch in [')', '」', '。', '、', 'ー', 'ッ', 'ゃ', '!', '?'] {
        assert!(is_following_character(ch), "{ch:?}");
    }
    assert!(!is_following_character('あ'));
    assert!(is_cjk_break_character('漢'));
    assert!(is_cjk_break_character('あ'));
    assert!(!is_cjk_break_character('A'));
}

#[test]
fn the_cjk_ranges_end_where_the_tables_say() {
    assert!(is_cjk_break_character('\u{1101}'));
    assert!(!is_cjk_break_character('\u{1100}'));
    assert!(is_cjk_break_character('\u{FFEE}'));
    assert!(!is_cjk_break_character('\u{FFEF}'));
    assert!(!is_leading_character('A'));
}

use sekai_profile_renderer::tmp_text::line_breaking::{insert_line_breaks, wrap_markup};
use sekai_profile_renderer::tmp_text::markup::visible_scalars;

/// One measured visible character: its advance and whether it is a hard
/// line break.
#[derive(Clone, Copy)]
struct Unit {
    advance: f32,
    hard_break: bool,
}

fn wrap_units(raw: &str, units: &[Unit], max_width: f32) -> Result<String, &'static str> {
    if !max_width.is_finite() || max_width <= 0.0 {
        return Err("max_width must be finite and positive");
    }
    let hard: Vec<bool> = units.iter().map(|unit| unit.hard_break).collect();
    let advances: Vec<f32> = units.iter().map(|unit| unit.advance.max(0.0)).collect();
    wrap_markup(raw, &hard, |line_start: usize, index: usize| {
        let mut width = 0.0f32;
        for advance in &advances[line_start..index] {
            width += *advance;
        }
        width + advances[index] > max_width
    })
}

fn units(text: &str, advance: f32) -> Vec<Unit> {
    visible_scalars(text)
        .iter()
        .map(|scalar| Unit {
            advance: if scalar.ch == '\n' { 0.0 } else { advance },
            hard_break: scalar.ch == '\n',
        })
        .collect()
}

fn wrap(text: &str, advance: f32, width: f32) -> String {
    wrap_units(text, &units(text, advance), width).unwrap()
}

#[test]
fn breaks_go_between_characters_without_splitting_markup() {
    assert_eq!(
        wrap("<color=#ff0000>ABCD</color>", 60.0, 130.0),
        "<color=#ff0000>AB\nCD</color>"
    );
}

#[test]
fn authored_newlines_survive_and_unit_drift_is_rejected() {
    assert_eq!(wrap("A\nB", 40.0, 50.0), "A\nB");
    let three = units("A\nB", 40.0);
    assert!(wrap_units("AB", &three, 50.0).is_err());
}

#[test]
fn latin_words_wrap_at_the_last_space() {
    assert_eq!(
        wrap("hello wonderful world", 10.0, 120.0),
        "hello \nwonderful \nworld"
    );
}

#[test]
fn a_word_wider_than_the_line_is_split_between_characters() {
    assert_eq!(wrap("abcdefgh", 10.0, 35.0), "abc\ndef\ngh");
}

#[test]
fn closing_punctuation_does_not_begin_a_line() {
    // The full stop may not start a line, so the character before it
    // moves down with it.
    assert_eq!(
        wrap("ありがとう。よろしく", 10.0, 55.0),
        "ありがと\nう。よろし\nく"
    );
}

#[test]
fn opening_brackets_do_not_end_a_line() {
    assert_eq!(wrap("あいう「えお」", 10.0, 40.0), "あいう\n「えお」");
}

#[test]
fn unrecognised_markup_is_measured_as_text() {
    // `<3` is not a tag, so its characters take room and line breaking
    // stays on.
    let text = "I <3 you so much";
    assert_eq!(wrap(text, 10.0, 85.0), "I <3 you \nso much");
    // Neither is a bracketed emoticon; it is measured like any other
    // characters instead of making the whole text unwrappable.
    assert_eq!(
        wrap("ok <(_ _)> thanks", 10.0, 105.0),
        "ok <(_ _)> \nthanks"
    );
}

#[test]
fn nobr_keeps_words_together() {
    assert_eq!(
        wrap("<nobr>ab cd</nobr> ef", 10.0, 55.0),
        "<nobr>ab cd</nobr> \nef"
    );
}

#[test]
fn a_soft_hyphen_shows_where_the_line_breaks_on_it() {
    let text = "ab\u{00AD}cd";
    let mut measured = units(text, 10.0);
    measured[2].advance = 0.0;
    assert_eq!(wrap_units(text, &measured, 25.0).unwrap(), "ab-\ncd");
}

#[test]
fn breaks_after_replaced_tags_go_after_the_whole_tag() {
    assert_eq!(insert_line_breaks("a<nbsp>b", &[1]), "a<nbsp>\nb");
    assert_eq!(insert_line_breaks("ab", &[1]), "ab\n");
    assert_eq!(insert_line_breaks("ab", &[]), "ab");
}
