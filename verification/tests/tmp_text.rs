use sekai_profile_renderer::tmp_text::markup::{scan_tag, visible_scalars};
use sekai_profile_renderer::tmp_text::style::{InlineAlign, MarkupStyle, StyleOutcome};
use sekai_profile_renderer::tmp_text::{numeric_text_runs, strip_tmp_tags, NumericTextRun};

#[test]
fn tmp_tags_do_not_split_contiguous_ascii_digits() {
    assert_eq!(
        numeric_text_runs("<color=#fff>12</color><b>34</b>"),
        vec![NumericTextRun {
            text: "1234".into(),
            plain_start: 0,
            plain_end: 4,
        }]
    );
}

#[test]
fn visible_symbols_and_newlines_split_runs_and_leading_zeroes_survive() {
    assert_eq!(
        numeric_text_runs("0012-34\n56"),
        vec![
            NumericTextRun {
                text: "0012".into(),
                plain_start: 0,
                plain_end: 4
            },
            NumericTextRun {
                text: "34".into(),
                plain_start: 5,
                plain_end: 7
            },
            NumericTextRun {
                text: "56".into(),
                plain_start: 8,
                plain_end: 10
            },
        ]
    );
}

#[test]
fn replaced_tags_count_as_the_characters_they_become() {
    // `<br>` is one line feed and `<nbsp>` one space, so the digits after
    // them sit at the indices the layout gives their glyphs.
    assert_eq!(
        numeric_text_runs("HP<br>100"),
        vec![NumericTextRun {
            text: "100".into(),
            plain_start: 3,
            plain_end: 6,
        }]
    );
    assert_eq!(
        numeric_text_runs("<nbsp>12"),
        vec![NumericTextRun {
            text: "12".into(),
            plain_start: 1,
            plain_end: 3,
        }]
    );
}

#[test]
fn literal_markup_keeps_its_characters() {
    assert_eq!(strip_tmp_tags("<noparse><b>1</b></noparse>2"), "<b>1</b>2");
    assert_eq!(strip_tmp_tags("a<br>b<zwsp>c"), "a\nb\u{200B}c");
    assert_eq!(strip_tmp_tags("<love>3"), "<love>3");
}

#[test]
fn visible_scalars_point_back_at_their_source() {
    let scalars = visible_scalars("a<br>b<nobr>c</nobr>");
    let summary: Vec<_> = scalars
        .iter()
        .map(|scalar| (scalar.ch, scalar.source.clone(), scalar.no_break))
        .collect();
    assert_eq!(
        summary,
        [
            ('a', 0..1, false),
            ('\n', 1..5, false),
            ('b', 5..6, false),
            ('c', 12..13, true)
        ]
    );
}

fn text(raw: &str) -> String {
    strip_tmp_tags(raw)
}

#[test]
fn unrecognised_or_malformed_tags_stay_in_the_text() {
    for raw in [
        "<(_ _)>",
        "<love>",
        "<color=foo>x",
        "</alpha>",
        "<color=#12345>x",
        "<alpha=#8>x",
        "I <3 you > me",
        "<Leo/need>",
        "<i angle=500>x",
        "<b a b>x",
        "<space=10%>x",
        "<cspace=10%>x",
        "<voffset=10%>x",
        "<width=1em>x",
        "<align=middle>x",
        "<font=Arial>x",
        "<sprite=0>",
        "<style=H1>x",
        "<gradient=Rainbow>x",
        "<table>",
        "<td>",
    ] {
        assert_eq!(text(raw), raw, "{raw:?}");
    }
}

#[test]
fn a_second_opening_bracket_restarts_the_tag() {
    assert_eq!(text("<a<b>x"), "<ax");
    assert_eq!(style_at_text("<a<b>x").counts.bold, 0);
    let chars: Vec<char> = "<a<b>x".chars().collect();
    let (tag, end) = scan_tag(&chars, 3).unwrap();
    assert_eq!(end, 4);
    let mut style = MarkupStyle::new(15);
    assert_ne!(style.apply(&tag, 15), StyleOutcome::Rejected);
    assert_eq!(style.counts.bold, 1);
}

#[test]
fn tag_names_match_all_lowercase_or_all_uppercase_only() {
    assert_eq!(text("<COLOR=red>x"), "x");
    assert_eq!(style_at_text("<COLOR=red>x").color.rgb, Some([255, 0, 0]));
    assert_eq!(text("<B>x"), "x");
    assert_eq!(style_at_text("<B>x").counts.bold, 1);
    for raw in ["<Color=red>x", "<Size=50>x", "<color=RED>x", "<Color=#ff0000>x"] {
        assert_eq!(text(raw), raw, "{raw:?}");
    }
}

#[test]
fn line_break_and_space_tags_are_replaced_in_any_case() {
    assert_eq!(text("a<br>b<BR>c<Br>d"), "a\nb\nc\nd");
    assert_eq!(text("a<NbSp>b<zwsp>c"), "a\u{00A0}b\u{200B}c");
}

#[test]
fn carriage_return_joiner_and_soft_hyphen_are_not_tags() {
    for raw in ["a<cr>b", "a<zwj>b", "a<shy>b"] {
        assert_eq!(text(raw), raw, "{raw:?}");
    }
}

/// The style in effect at the first character of `raw` that is not part of
/// an accepted tag.
fn style_at_text(raw: &str) -> MarkupStyle {
    let chars: Vec<char> = raw.chars().collect();
    let mut style = MarkupStyle::new(15);
    let mut index = 0;
    while index < chars.len() && chars[index] == '<' {
        match scan_tag(&chars, index + 1) {
            Some((tag, end)) => {
                if style.apply(&tag, 15) == StyleOutcome::Rejected {
                    break;
                }
                index = end + 1;
            }
            None => break,
        }
    }
    style
}

#[test]
fn hex_colours_are_counted_in_characters() {
    for raw in ["<alpha=#日>x", "<color=#日日>x", "<#日日>x", "<#é1>x"] {
        assert_eq!(text(raw), raw, "{raw:?}");
    }
    assert_eq!(text("<#é12>b"), "b");
    assert_eq!(style_at_text("<#é12>b").color.rgb, Some([255, 17, 34]));
    assert_eq!(text("<#FEF2EW>highlight"), "highlight");
    assert_eq!(style_at_text("<#FEF2EW>highlight").color.rgb, Some([0xFE, 0xF2, 0xEF]));
    assert_eq!(text("<color=#é1f>d"), "d");
    assert_eq!(style_at_text("<color=#é1f>d").color.rgb, Some([255, 17, 255]));
}

#[test]
fn named_colours_use_the_tmp_values() {
    let cases = [
        ("red", [255, 0, 0]),
        ("lightblue", [173, 216, 230]),
        ("blue", [0, 0, 255]),
        ("grey", [128, 128, 128]),
        ("black", [0, 0, 0]),
        ("green", [0, 255, 0]),
        ("white", [255, 255, 255]),
        ("orange", [255, 128, 0]),
        ("purple", [160, 32, 240]),
        ("yellow", [255, 235, 4]),
    ];
    for (name, rgb) in cases {
        let raw = format!("<color={name}>x");
        assert_eq!(text(&raw), "x", "{name}");
        let style = style_at_text(&raw);
        assert_eq!(style.color.rgb, Some(rgb), "{name}");
        assert_eq!(style.color.alpha, 255, "{name}");
    }
    assert_eq!(style_at_text("<color=\"red\">x").color.rgb, Some([255, 0, 0]));
}

#[test]
fn alignment_accepts_the_tmp_values() {
    assert_eq!(text("<align=center>AB</align>"), "AB");
    assert_eq!(style_at_text("<align=center>AB</align>").align, Some(InlineAlign::Center));
    assert_eq!(style_at_text("<align=justified>x").align, Some(InlineAlign::Justified));
}

#[test]
fn mark_colour_and_alpha_follow_the_attribute_forms() {
    assert_eq!(style_at_text("<mark=#FF000040>a").mark(), Some([0xFF, 0x00, 0x00, 0x40]));
    assert_eq!(style_at_text("<mark=#FF0000>a").mark(), Some([0xFF, 0x00, 0x00, 0xFF]));
    assert_eq!(style_at_text("<mark>a").mark(), Some([255, 255, 0, 64]));
    assert_eq!(style_at_text("<mark=#日1日1>a").mark(), Some([255, 255, 255, 255]));
    assert_eq!(style_at_text("<mark></mark>b").mark(), None);
}

#[test]
fn style_tags_open_and_close_their_effects() {
    let style = style_at_text("<i><u>x");
    assert_eq!(style.italic(), Some(15));
    assert_eq!(style.counts.underline, 1);
    assert_eq!(style_at_text("<i angle=20>x").italic(), Some(20));
    assert_eq!(style_at_text("<i></i>x").italic(), None);
    assert!(style_at_text("<nobr>x").no_break);
    assert!(style_at_text("<noparse><b>").no_parse);
    assert_eq!(style_at_text("<noparse><b>").counts.bold, 0);
}

#[test]
fn noparse_keeps_tags_literal_but_line_breaks_still_apply() {
    assert_eq!(text("<noparse><b></noparse>"), "<b>");
    assert_eq!(text("<noparse>a<br>b</noparse>"), "a\nb");
    assert_eq!(text("a</noparse>b"), "ab");
}

#[test]
fn resource_tags_accept_only_the_default_asset_and_style_closers_vanish() {
    assert_eq!(
        text("<font=default>a</font><material=Default>b</material>"),
        "ab"
    );
    assert_eq!(text("a</style>b"), "ab");
}

#[test]
fn numeric_and_valued_tags_are_accepted_with_their_units() {
    for raw in [
        "<size=40>A<size=+10>B<size=-5>C<size=150%>D<size=1.5em>E</size>F",
        "<cspace=0.5em>x",
        "<voffset=12px>x",
        "<mspace=10 duospace=1>a",
        "<line-height=50%>x",
        "<pos=50%>A<pos=2em>B",
        "<i angle=20>x",
        "<mark=#FF000040>a",
        "<align=justified>x",
        "<indent=100>A<indent=50%>B",
    ] {
        assert!(!text(raw).contains('<'), "{raw:?} -> {:?}", text(raw));
    }
    assert_eq!(text("<size=32767>x"), "x");
    assert_eq!(text("<size=32768>x"), "<size=32768>x");
    assert_eq!(text("<size=-32768>x"), "<size=-32768>x");
    assert_eq!(text("<size=-32769>x"), "x");
    assert_eq!(text("<i angle=180.5>x"), "x");
    assert_eq!(text("<i angle=181>x"), "<i angle=181>x");
    assert_eq!(text("<mark padding=1,2,3>a"), "<mark padding=1,2,3>a");
    assert_eq!(text("<mark padding=1,2,3,4>a"), "a");
}

#[test]
fn markup_free_text_is_its_own_visible_text() {
    let raw = "héllo 世界 > ok";
    assert_eq!(strip_tmp_tags(raw), raw);
    let scalars = visible_scalars(raw);
    assert_eq!(scalars.len(), raw.chars().count());
    for (scalar, (offset, ch)) in scalars.iter().zip(raw.char_indices()) {
        assert_eq!(scalar.ch, ch);
        assert_eq!(scalar.source, offset..offset + ch.len_utf8());
    }
}
