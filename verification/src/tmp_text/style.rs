//! The style a run of TextMesh Pro markup is drawn with, as far as it is
//! not a length: style counts, colour, highlight, italic angle, alignment,
//! letter case and the `<nobr>` / `<noparse>` switches, with the stacks
//! closing tags restore them from.
//!
//! [`MarkupStyle::apply`] reads one scanned tag. A tag whose effect is a
//! length or a caret movement is accepted or refused here, with its counts
//! updated; what it does to lengths is reported as a [`MeasureTag`] for the
//! layout to carry out.

use vstd::prelude::*;

use crate::tmp_text::markup::{
    is_length_tag, is_numeric_tag, after_no_break, after_no_parse, is_plain_named_group0, is_plain_named_group1, is_plain_named_group2,
    is_plain_named_group3, is_plain_named_group4, is_plain_named_group5, is_plain_named_tag, mark_rejects,
    named_tag_effect, tag_outcome, valued_tag_accepts, FlagEffect, attribute_color, attribute_color_spec, hex_color, hex_color_spec, hex_pair, hex_pair_spec, is_name,
    named_color, named_color_spec, padding_parameter_count, padding_parameter_count_spec, spec_is_name,
    tag_char_at_spec, tag_name_spec, tag_number_spec, tag_value_spec, tag_wf, DecimalNumber, ScannedTag, TagView,
    Unit, ValueType, NUMBER_SCALE,
};
use crate::unicode::chars_eq;

verus! {

/// Letter case applied to the characters of a run.
#[derive(Clone, Copy, Debug, PartialEq, Eq, Structural)]
pub enum CaseTransform {
    /// Characters are drawn as written.
    Unchanged,
    Upper,
    Lower,
    /// Lowercase letters are drawn as uppercase at a reduced size.
    SmallCaps,
}

/// `<align>` override for the lines a run starts.
#[derive(Clone, Copy, Debug, PartialEq, Eq, Structural)]
pub enum InlineAlign {
    Left,
    Center,
    Right,
    Justified,
    Flush,
}

/// A colour set by markup: the face colour, if any, and the alpha bound.
#[derive(Clone, Copy, Debug, PartialEq, Eq)]
pub struct HtmlColor {
    pub rgb: Option<[u8; 3]>,
    pub alpha: u8,
}

/// How many of each style tag are open.
#[derive(Clone, Copy, Debug, Default, PartialEq, Eq, Structural)]
pub struct StyleCounts {
    pub bold: u32,
    pub italic: u32,
    pub underline: u32,
    pub strikethrough: u32,
    pub highlight: u32,
    pub subscript: u32,
    pub superscript: u32,
    pub lowercase: u32,
    pub uppercase: u32,
    pub smallcaps: u32,
}

/// A stack that always keeps its bottom item, like the ones TextMesh Pro
/// restores closing tags from.
pub struct RestoreStack<T: Copy> {
    items: Vec<T>,
}

impl<T: Copy> View for RestoreStack<T> {
    type V = Seq<T>;

    closed spec fn view(&self) -> Seq<T> {
        self.items@
    }
}

/// The stack left and the item restored when an item is removed: the top
/// goes unless it is the bottom one, and the new top is restored.
pub open spec fn stack_removed<T>(items: Seq<T>) -> (Seq<T>, T) {
    let kept = if items.len() > 1 { items.drop_last() } else { items };
    (kept, kept.last())
}

impl<T: Copy> RestoreStack<T> {
    /// A stack holding only `default`.
    pub fn new(default: T) -> (r: Self)
        ensures
            r@ == seq![default],
    {
        let mut items: Vec<T> = Vec::new();
        items.push(default);
        RestoreStack { items }
    }

    /// Pushes `item`.
    pub fn add(&mut self, item: T)
        ensures
            final(self)@ == old(self)@.push(item),
    {
        self.items.push(item);
    }

    /// Pops the top unless it is the bottom item, and returns the new top.
    pub fn remove(&mut self) -> (r: T)
        requires
            old(self)@.len() >= 1,
        ensures
            (final(self)@, r) == stack_removed(old(self)@),
            final(self)@.len() >= 1,
    {
        if self.items.len() > 1 {
            self.items.pop();
        }
        self.items[self.items.len() - 1]
    }

    /// The top item.
    pub fn top(&self) -> (r: T)
        requires
            self@.len() >= 1,
        ensures
            r == self@.last(),
    {
        self.items[self.items.len() - 1]
    }
}

/// One more open style tag, saturating.
pub open spec fn count_add(count: u32) -> u32 {
    if count == u32::MAX { count } else { (count + 1) as u32 }
}

/// One fewer open style tag, saturating at zero.
pub open spec fn count_remove(count: u32) -> u32 {
    if count == 0 { 0 } else { (count - 1) as u32 }
}

/// `style_add`: one more open style tag.
pub fn style_add(count: &mut u32)
    ensures
        *final(count) == count_add(*old(count)),
{
    *count = count.saturating_add(1);
}

/// `style_remove`: one fewer open style tag.
pub fn style_remove(count: &mut u32)
    ensures
        *final(count) == count_remove(*old(count)),
{
    *count = count.saturating_sub(1);
}

/// What a tag does to a length or moves the caret, for the layout to carry
/// out with the tag's numbers.
#[derive(Clone, Copy, Debug, PartialEq, Eq, Structural)]
pub enum MeasureTag {
    /// `<sub>` or `<sup>` opened: scale the font and shift the baseline.
    OpenScript { superscript: bool },
    /// `</sub>` or `</sup>`: `active` when one was open, and the scale and
    /// shift are undone.
    CloseScript { superscript: bool, active: bool },
    CloseVerticalOffset,
    CloseSize,
    CloseCharacterSpacing,
    CloseMonospace,
    CloseIndent,
    CloseLineIndent,
    CloseLineHeight,
    CloseEffect,
    Position,
    VerticalOffset,
    Size,
    Space,
    CharacterSpacing,
    Monospace,
    Indent,
    LineIndent,
    LineHeight,
    Scale,
    Rotate,
}

/// What reading a tag did.
#[derive(Clone, Copy, Debug, PartialEq, Eq, Structural)]
pub enum StyleOutcome {
    /// The tag is not accepted: its characters stay in the text.
    Rejected,
    /// The tag is accepted and nothing else is left to do.
    Applied,
    /// The tag is accepted and does this to lengths or the caret.
    Measure(MeasureTag),
}

/// The non-length style of a run, and the stacks closing tags restore it
/// from.
pub struct MarkupStyle {
    pub counts: StyleCounts,
    pub italic_angle: i32,
    pub italic_angles: RestoreStack<i32>,
    pub color: HtmlColor,
    pub colors: RestoreStack<HtmlColor>,
    pub highlights: RestoreStack<Option<[u8; 4]>>,
    pub align: Option<InlineAlign>,
    pub aligns: RestoreStack<Option<InlineAlign>>,
    pub no_break: bool,
    pub no_parse: bool,
    /// A character has been drawn since the text began.
    pub characters_emitted: bool,
}

/// The contents of a [`MarkupStyle`].
pub struct MarkupStyleView {
    pub counts: StyleCounts,
    pub italic_angle: i32,
    pub italic_angles: Seq<i32>,
    pub color: HtmlColor,
    pub colors: Seq<HtmlColor>,
    pub highlights: Seq<Option<[u8; 4]>>,
    pub align: Option<InlineAlign>,
    pub aligns: Seq<Option<InlineAlign>>,
    pub no_break: bool,
    pub no_parse: bool,
    pub characters_emitted: bool,
}

/// Every restore stack of the style keeps its bottom item.
pub open spec fn style_wf(s: MarkupStyleView) -> bool {
    &&& s.italic_angles.len() >= 1
    &&& s.colors.len() >= 1
    &&& s.highlights.len() >= 1
    &&& s.aligns.len() >= 1
}

impl View for MarkupStyle {
    type V = MarkupStyleView;

    open spec fn view(&self) -> MarkupStyleView {
        MarkupStyleView {
            counts: self.counts,
            italic_angle: self.italic_angle,
            italic_angles: self.italic_angles@,
            color: self.color,
            colors: self.colors@,
            highlights: self.highlights@,
            align: self.align,
            aligns: self.aligns@,
            no_break: self.no_break,
            no_parse: self.no_parse,
            characters_emitted: self.characters_emitted,
        }
    }
}

/// The style a text starts with, for a face whose italic slant is
/// `italic_style`.
pub open spec fn initial_style(italic_style: i32) -> MarkupStyleView {
    let color = HtmlColor { rgb: None, alpha: 255 };
    MarkupStyleView {
        counts: StyleCounts {
            bold: 0,
            italic: 0,
            underline: 0,
            strikethrough: 0,
            highlight: 0,
            subscript: 0,
            superscript: 0,
            lowercase: 0,
            uppercase: 0,
            smallcaps: 0,
        },
        italic_angle: italic_style,
        italic_angles: seq![italic_style],
        color,
        colors: seq![color],
        highlights: seq![None],
        align: None,
        aligns: seq![None],
        no_break: false,
        no_parse: false,
        characters_emitted: false,
    }
}

/// `s` with `rgba` as its colour, pushed on the colour stack.
pub open spec fn with_color(s: MarkupStyleView, rgba: [u8; 4]) -> MarkupStyleView {
    let color = HtmlColor { rgb: Some([rgba[0], rgba[1], rgba[2]]), alpha: rgba[3] };
    MarkupStyleView { color, colors: s.colors.push(color), ..s }
}

pub open spec fn with_counts(s: MarkupStyleView, counts: StyleCounts) -> MarkupStyleView {
    MarkupStyleView { counts, ..s }
}

/// The effect of the tags that take no value; `None` for any other name.
pub open spec fn named_effect(s: MarkupStyleView, name: Seq<char>) -> Option<(MarkupStyleView, StyleOutcome)> {
    let c = s.counts;
    let applied = StyleOutcome::Applied;
    if spec_is_name(name, seq!['b']) {
        Some((with_counts(s, StyleCounts { bold: count_add(c.bold), ..c }), applied))
    } else if spec_is_name(name, seq!['/', 'b']) {
        Some((with_counts(s, StyleCounts { bold: count_remove(c.bold), ..c }), applied))
    } else if spec_is_name(name, seq!['/', 'i']) {
        let (angles, angle) = stack_removed(s.italic_angles);
        Some((
            MarkupStyleView {
                italic_angle: angle,
                italic_angles: angles,
                counts: StyleCounts { italic: count_remove(c.italic), ..c },
                ..s
            },
            applied,
        ))
    } else if spec_is_name(name, seq!['s']) {
        Some((with_counts(s, StyleCounts { strikethrough: count_add(c.strikethrough), ..c }), applied))
    } else if spec_is_name(name, seq!['/', 's']) {
        Some((with_counts(s, StyleCounts { strikethrough: count_remove(c.strikethrough), ..c }), applied))
    } else if spec_is_name(name, seq!['u']) {
        Some((with_counts(s, StyleCounts { underline: count_add(c.underline), ..c }), applied))
    } else if spec_is_name(name, seq!['/', 'u']) {
        Some((with_counts(s, StyleCounts { underline: count_remove(c.underline), ..c }), applied))
    } else if spec_is_name(name, seq!['/', 'm', 'a', 'r', 'k']) {
        let (highlights, _) = stack_removed(s.highlights);
        Some((
            MarkupStyleView { highlights, counts: StyleCounts { highlight: count_remove(c.highlight), ..c }, ..s },
            applied,
        ))
    } else if spec_is_name(name, seq!['s', 'u', 'b']) {
        Some((
            with_counts(s, StyleCounts { subscript: count_add(c.subscript), ..c }),
            StyleOutcome::Measure(MeasureTag::OpenScript { superscript: false }),
        ))
    } else if spec_is_name(name, seq!['s', 'u', 'p']) {
        Some((
            with_counts(s, StyleCounts { superscript: count_add(c.superscript), ..c }),
            StyleOutcome::Measure(MeasureTag::OpenScript { superscript: true }),
        ))
    } else if spec_is_name(name, seq!['/', 's', 'u', 'b']) {
        Some((
            with_counts(s, StyleCounts { subscript: count_remove(c.subscript), ..c }),
            StyleOutcome::Measure(MeasureTag::CloseScript { superscript: false, active: c.subscript > 0 }),
        ))
    } else if spec_is_name(name, seq!['/', 's', 'u', 'p']) {
        Some((
            with_counts(s, StyleCounts { superscript: count_remove(c.superscript), ..c }),
            StyleOutcome::Measure(MeasureTag::CloseScript { superscript: true, active: c.superscript > 0 }),
        ))
    } else {
        named_effect_more(s, name)
    }
}

/// Named tags that change nothing this style holds.
pub open spec fn is_inert_named_tag(name: Seq<char>) -> bool {
    spec_is_name(name, seq!['/', 'f', 'o', 'n', 't', '-', 'w', 'e', 'i', 'g', 'h', 't'])
        || spec_is_name(name, seq!['/', 'p', 'o', 's'])
        || spec_is_name(name, seq!['/', 'f', 'o', 'n', 't'])
        || spec_is_name(name, seq!['/', 'm', 'a', 't', 'e', 'r', 'i', 'a', 'l'])
        || spec_is_name(name, seq!['p', 'a', 'g', 'e'])
        || spec_is_name(name, seq!['/', 'a'])
        || spec_is_name(name, seq!['/', 'l', 'i', 'n', 'k'])
        || spec_is_name(name, seq!['/', 'g', 'r', 'a', 'd', 'i', 'e', 'n', 't'])
        || spec_is_name(name, seq!['a', 'c', 't', 'i', 'o', 'n'])
        || spec_is_name(name, seq!['/', 'a', 'c', 't', 'i', 'o', 'n'])
        || spec_is_name(name, seq!['/', 'w', 'i', 'd', 't', 'h'])
        || spec_is_name(name, seq!['/', 'm', 'a', 'r', 'g', 'i', 'n'])
        || spec_is_name(name, seq!['/', 't', 'a', 'b', 'l', 'e'])
        || spec_is_name(name, seq!['t', 'r'])
        || spec_is_name(name, seq!['/', 't', 'r'])
        || spec_is_name(name, seq!['t', 'h'])
        || spec_is_name(name, seq!['/', 't', 'h'])
}

pub open spec fn named_effect_more(s: MarkupStyleView, name: Seq<char>) -> Option<(MarkupStyleView, StyleOutcome)> {
    let c = s.counts;
    let applied = StyleOutcome::Applied;
    if is_inert_named_tag(name) {
        Some((s, applied))
    } else if spec_is_name(name, seq!['/', 'v', 'o', 'f', 'f', 's', 'e', 't']) {
        Some((s, StyleOutcome::Measure(MeasureTag::CloseVerticalOffset)))
    } else if spec_is_name(name, seq!['n', 'o', 'b', 'r']) {
        Some((MarkupStyleView { no_break: true, ..s }, applied))
    } else if spec_is_name(name, seq!['/', 'n', 'o', 'b', 'r']) {
        Some((MarkupStyleView { no_break: false, ..s }, applied))
    } else if spec_is_name(name, seq!['/', 's', 'i', 'z', 'e']) {
        Some((s, StyleOutcome::Measure(MeasureTag::CloseSize)))
    } else if spec_is_name(name, seq!['/', 'a', 'l', 'i', 'g', 'n']) {
        let (aligns, align) = stack_removed(s.aligns);
        Some((MarkupStyleView { align, aligns, ..s }, applied))
    } else if spec_is_name(name, seq!['/', 'm', 's', 'p', 'a', 'c', 'e']) {
        Some((s, StyleOutcome::Measure(MeasureTag::CloseMonospace)))
    } else if spec_is_name(name, seq!['/', 'c', 'o', 'l', 'o', 'r']) {
        let (colors, color) = stack_removed(s.colors);
        Some((MarkupStyleView { color, colors, ..s }, applied))
    } else if spec_is_name(name, seq!['/', 'i', 'n', 'd', 'e', 'n', 't']) {
        Some((s, StyleOutcome::Measure(MeasureTag::CloseIndent)))
    } else if spec_is_name(name, seq!['/', 'l', 'i', 'n', 'e', '-', 'i', 'n', 'd', 'e', 'n', 't']) {
        Some((s, StyleOutcome::Measure(MeasureTag::CloseLineIndent)))
    } else if spec_is_name(name, seq!['l', 'o', 'w', 'e', 'r', 'c', 'a', 's', 'e']) {
        Some((with_counts(s, StyleCounts { lowercase: count_add(c.lowercase), ..c }), applied))
    } else if spec_is_name(name, seq!['/', 'l', 'o', 'w', 'e', 'r', 'c', 'a', 's', 'e']) {
        Some((with_counts(s, StyleCounts { lowercase: count_remove(c.lowercase), ..c }), applied))
    } else if spec_is_name(name, seq!['a', 'l', 'l', 'c', 'a', 'p', 's']) || spec_is_name(
        name,
        seq!['u', 'p', 'p', 'e', 'r', 'c', 'a', 's', 'e'],
    ) {
        Some((with_counts(s, StyleCounts { uppercase: count_add(c.uppercase), ..c }), applied))
    } else if spec_is_name(name, seq!['/', 'a', 'l', 'l', 'c', 'a', 'p', 's']) || spec_is_name(
        name,
        seq!['/', 'u', 'p', 'p', 'e', 'r', 'c', 'a', 's', 'e'],
    ) {
        Some((with_counts(s, StyleCounts { uppercase: count_remove(c.uppercase), ..c }), applied))
    } else if spec_is_name(name, seq!['s', 'm', 'a', 'l', 'l', 'c', 'a', 'p', 's']) {
        Some((with_counts(s, StyleCounts { smallcaps: count_add(c.smallcaps), ..c }), applied))
    } else if spec_is_name(name, seq!['/', 's', 'm', 'a', 'l', 'l', 'c', 'a', 'p', 's']) {
        Some((with_counts(s, StyleCounts { smallcaps: count_remove(c.smallcaps), ..c }), applied))
    } else if spec_is_name(name, seq!['/', 'l', 'i', 'n', 'e', '-', 'h', 'e', 'i', 'g', 'h', 't']) {
        Some((s, StyleOutcome::Measure(MeasureTag::CloseLineHeight)))
    } else if spec_is_name(name, seq!['n', 'o', 'p', 'a', 'r', 's', 'e']) {
        Some((MarkupStyleView { no_parse: true, ..s }, applied))
    } else if spec_is_name(name, seq!['/', 's', 'c', 'a', 'l', 'e']) || spec_is_name(
        name,
        seq!['/', 'r', 'o', 't', 'a', 't', 'e'],
    ) {
        Some((s, StyleOutcome::Measure(MeasureTag::CloseEffect)))
    } else {
        None
    }
}

/// The integer part of a number, toward zero.
pub open spec fn truncated(n: DecimalNumber) -> int {
    let whole = (n.scaled / NUMBER_SCALE) as int;
    if n.negative { -whole } else { whole }
}

/// The `<mark>` colour the attributes from `k` on give, starting from
/// `highlight`; `None` when a `padding` does not have four parameters. The
/// scan stops at the first unnamed slot.
pub open spec fn mark_highlight(t: TagView, k: int, highlight: [u8; 4]) -> Option<[u8; 4]>
    decreases t.attributes.len() - k,
{
    if k < 0 || k >= t.attributes.len() {
        Some(highlight)
    } else {
        let a = t.attributes[k];
        if a.name.len() == 0 {
            Some(highlight)
        } else if spec_is_name(a.name, seq!['m', 'a', 'r', 'k']) {
            mark_highlight(
                t,
                k + 1,
                if a.value_type == ValueType::Color { attribute_color_spec(t, 0) } else { highlight },
            )
        } else if a.name == seq!['c', 'o', 'l', 'o', 'r'] {
            mark_highlight(t, k + 1, attribute_color_spec(t, k))
        } else if a.name == seq!['p', 'a', 'd', 'd', 'i', 'n', 'g'] && padding_parameter_count_spec(t, k) != 4 {
            None
        } else {
            mark_highlight(t, k + 1, highlight)
        }
    }
}

/// The alignment an `<align>` value names.
pub open spec fn align_value(v: Seq<char>) -> Option<InlineAlign> {
    if v == seq!['l', 'e', 'f', 't'] {
        Some(InlineAlign::Left)
    } else if v == seq!['r', 'i', 'g', 'h', 't'] {
        Some(InlineAlign::Right)
    } else if v == seq!['c', 'e', 'n', 't', 'e', 'r'] {
        Some(InlineAlign::Center)
    } else if v == seq!['j', 'u', 's', 't', 'i', 'f', 'i', 'e', 'd'] {
        Some(InlineAlign::Justified)
    } else if v == seq!['f', 'l', 'u', 's', 'h'] {
        Some(InlineAlign::Flush)
    } else {
        None
    }
}

/// A measure tag that needs its first number, and, when `length`, a unit
/// other than a percentage.
pub open spec fn measured(s: MarkupStyleView, t: TagView, length: bool, m: MeasureTag) -> (MarkupStyleView, StyleOutcome) {
    if tag_number_spec(t, 0) is Some && !(length && t.unit == Unit::Percentage) {
        (s, StyleOutcome::Measure(m))
    } else {
        (s, StyleOutcome::Rejected)
    }
}

/// An inert tag that needs its first number.
pub open spec fn numbered(s: MarkupStyleView, t: TagView) -> (MarkupStyleView, StyleOutcome) {
    if tag_number_spec(t, 0) is Some {
        (s, StyleOutcome::Applied)
    } else {
        (s, StyleOutcome::Rejected)
    }
}

/// The effect of the tags that read their first number.
pub open spec fn numeric_effect(s: MarkupStyleView, t: TagView) -> (MarkupStyleView, StyleOutcome) {
    let name = tag_name_spec(t);
    if spec_is_name(name, seq!['f', 'o', 'n', 't', '-', 'w', 'e', 'i', 'g', 'h', 't']) {
        numbered(s, t)
    } else if spec_is_name(name, seq!['p', 'o', 's']) {
        measured(s, t, false, MeasureTag::Position)
    } else if spec_is_name(name, seq!['s', 'i', 'z', 'e']) {
        measured(s, t, false, MeasureTag::Size)
    } else if spec_is_name(name, seq!['i', 'n', 'd', 'e', 'n', 't']) {
        measured(s, t, false, MeasureTag::Indent)
    } else if spec_is_name(name, seq!['l', 'i', 'n', 'e', '-', 'i', 'n', 'd', 'e', 'n', 't']) {
        measured(s, t, false, MeasureTag::LineIndent)
    } else if spec_is_name(name, seq!['m', 'a', 'r', 'g', 'i', 'n', '-', 'l', 'e', 'f', 't']) || spec_is_name(
        name,
        seq!['m', 'a', 'r', 'g', 'i', 'n', '-', 'r', 'i', 'g', 'h', 't'],
    ) {
        numbered(s, t)
    } else if spec_is_name(name, seq!['l', 'i', 'n', 'e', '-', 'h', 'e', 'i', 'g', 'h', 't']) {
        measured(s, t, false, MeasureTag::LineHeight)
    } else if spec_is_name(name, seq!['s', 'c', 'a', 'l', 'e']) {
        measured(s, t, false, MeasureTag::Scale)
    } else {
        measured(s, t, false, MeasureTag::Rotate)
    }
}

/// The effect of the tags that read a length in their first value.
pub open spec fn length_effect(s: MarkupStyleView, t: TagView) -> (MarkupStyleView, StyleOutcome) {
    let name = tag_name_spec(t);
    if spec_is_name(name, seq!['v', 'o', 'f', 'f', 's', 'e', 't']) {
        measured(s, t, true, MeasureTag::VerticalOffset)
    } else if spec_is_name(name, seq!['s', 'p', 'a', 'c', 'e']) {
        measured(s, t, true, MeasureTag::Space)
    } else if spec_is_name(name, seq!['c', 's', 'p', 'a', 'c', 'e']) {
        measured(s, t, true, MeasureTag::CharacterSpacing)
    } else {
        measured(s, t, true, MeasureTag::Monospace)
    }
}

/// The effect of the tags that read a value or may be refused.
pub open spec fn valued_effect(s: MarkupStyleView, t: TagView, italic_style: i32) -> (MarkupStyleView, StyleOutcome) {
    let name = tag_name_spec(t);
    let c = s.counts;
    if spec_is_name(name, seq!['i']) {
        let opened = with_counts(s, StyleCounts { italic: count_add(c.italic), ..c });
        if t.attributes.len() > 1 && spec_is_name(t.attributes[1].name, seq!['a', 'n', 'g', 'l', 'e']) {
            match tag_number_spec(t, 1) {
                Some(n) if n.scaled < 181 * NUMBER_SCALE => {
                    let angle = truncated(n) as i32;
                    (MarkupStyleView { italic_angle: angle, italic_angles: s.italic_angles.push(angle), ..opened }, StyleOutcome::Applied)
                },
                _ => (opened, StyleOutcome::Rejected),
            }
        } else {
            (
                MarkupStyleView { italic_angle: italic_style, italic_angles: s.italic_angles.push(italic_style), ..opened },
                StyleOutcome::Applied,
            )
        }
    } else if spec_is_name(name, seq!['m', 'a', 'r', 'k']) {
        let opened = with_counts(s, StyleCounts { highlight: count_add(c.highlight), ..c });
        match mark_highlight(t, 0, [255u8, 255u8, 0u8, 64u8]) {
            Some(h) => {
                let bounded = [h[0], h[1], h[2], if h[3] < s.color.alpha { h[3] } else { s.color.alpha }];
                (MarkupStyleView { highlights: s.highlights.push(Some(bounded)), ..opened }, StyleOutcome::Applied)
            },
            None => (opened, StyleOutcome::Rejected),
        }
    } else if is_numeric_tag(name) {
        numeric_effect(s, t)
    } else if is_length_tag(name) {
        length_effect(s, t)
    } else if spec_is_name(name, seq!['w', 'i', 'd', 't', 'h']) {
        if tag_number_spec(t, 0) is Some && t.unit != Unit::FontUnits {
            (s, StyleOutcome::Applied)
        } else {
            (s, StyleOutcome::Rejected)
        }
    } else if spec_is_name(name, seq!['f', 'o', 'n', 't']) || spec_is_name(name, seq!['m', 'a', 't', 'e', 'r', 'i', 'a', 'l']) {
        if tag_value_spec(t, 0) == seq!['d', 'e', 'f', 'a', 'u', 'l', 't'] || tag_value_spec(t, 0) == seq![
            'D',
            'e',
            'f',
            'a',
            'u',
            'l',
            't',
        ] {
            (s, StyleOutcome::Applied)
        } else {
            (s, StyleOutcome::Rejected)
        }
    } else if spec_is_name(name, seq!['a', 'l', 'p', 'h', 'a']) {
        if t.attributes[0].value_length != 3 {
            (s, StyleOutcome::Rejected)
        } else {
            let alpha = hex_pair_spec(tag_char_at_spec(t, 7), tag_char_at_spec(t, 8));
            (MarkupStyleView { color: HtmlColor { alpha, ..s.color }, ..s }, StyleOutcome::Applied)
        }
    } else if spec_is_name(name, seq!['l', 'i', 'n', 'k']) {
        (s, StyleOutcome::Applied)
    } else if spec_is_name(name, seq!['/', 'c', 's', 'p', 'a', 'c', 'e']) {
        (s, StyleOutcome::Measure(MeasureTag::CloseCharacterSpacing))
    } else {
        valued_effect_more(s, t)
    }
}

pub open spec fn valued_effect_more(s: MarkupStyleView, t: TagView) -> (MarkupStyleView, StyleOutcome) {
    let name = tag_name_spec(t);
    if spec_is_name(name, seq!['a', 'l', 'i', 'g', 'n']) {
        match align_value(tag_value_spec(t, 0)) {
            Some(a) => (MarkupStyleView { align: Some(a), aligns: s.aligns.push(Some(a)), ..s }, StyleOutcome::Applied),
            None => (s, StyleOutcome::Rejected),
        }
    } else if spec_is_name(name, seq!['c', 'o', 'l', 'o', 'r']) {
        let length = t.chars.len();
        if tag_char_at_spec(t, 6) == '#' && (length == 10 || length == 11 || length == 13 || length == 15) {
            (with_color(s, hex_color_spec(t.chars.subrange(7, length as int)).unwrap()), StyleOutcome::Applied)
        } else {
            match named_color_spec(tag_value_spec(t, 0)) {
                Some(rgb) => (with_color(s, [rgb[0], rgb[1], rgb[2], 255u8]), StyleOutcome::Applied),
                None => (s, StyleOutcome::Rejected),
            }
        }
    } else if spec_is_name(name, seq!['m', 'a', 'r', 'g', 'i', 'n']) {
        if t.attributes[0].value_type == ValueType::Number {
            numbered(s, t)
        } else if t.attributes[0].value_type != ValueType::Empty {
            (s, StyleOutcome::Rejected)
        } else {
            (s, StyleOutcome::Applied)
        }
    } else {
        (s, StyleOutcome::Rejected)
    }
}

/// What reading tag `t` does to style `s`, for a face whose italic slant is
/// `italic_style`.
pub open spec fn style_after_tag(s: MarkupStyleView, t: TagView, italic_style: i32) -> (MarkupStyleView, StyleOutcome) {
    let name = tag_name_spec(t);
    let closes_noparse = spec_is_name(name, seq!['/', 'n', 'o', 'p', 'a', 'r', 's', 'e']);
    let length = t.chars.len();
    if s.no_parse && !closes_noparse {
        (s, StyleOutcome::Rejected)
    } else if closes_noparse {
        (MarkupStyleView { no_parse: false, ..s }, StyleOutcome::Applied)
    } else if length > 0 && t.chars[0] == '#' && (length == 4 || length == 5 || length == 7 || length == 9) {
        (with_color(s, hex_color_spec(t.chars.subrange(1, length as int)).unwrap()), StyleOutcome::Applied)
    } else {
        match named_effect(s, name) {
            Some(r) => r,
            None => valued_effect(s, t, italic_style),
        }
    }
}

/// The letter case a style draws with: uppercase wins over lowercase, and
/// both over small capitals.
pub open spec fn case_of(c: StyleCounts) -> CaseTransform {
    if c.uppercase > 0 {
        CaseTransform::Upper
    } else if c.lowercase > 0 {
        CaseTransform::Lower
    } else if c.smallcaps > 0 {
        CaseTransform::SmallCaps
    } else {
        CaseTransform::Unchanged
    }
}

fn mark_color(tag: &ScannedTag) -> (r: Option<[u8; 4]>)
    requires
        tag_wf(tag@),
    ensures
        r == mark_highlight(tag@, 0, [255u8, 255u8, 0u8, 64u8]),
{
    let mut highlight: [u8; 4] = [255, 255, 0, 64];
    let mut k: usize = 0;
    while k < tag.attributes.len()
        invariant
            tag_wf(tag@),
            k <= tag@.attributes.len(),
            mark_highlight(tag@, 0, [255u8, 255u8, 0u8, 64u8]) == mark_highlight(tag@, k as int, highlight),
        decreases tag@.attributes.len() - k,
    {
        let attribute = &tag.attributes[k];
        assert(attribute@ == tag@.attributes[k as int]);
        let name = attribute.name.as_slice();
        if name.len() == 0 {
            return Some(highlight);
        }
        if is_name(name, &['m', 'a', 'r', 'k']) {
            if attribute.value_type == ValueType::Color {
                highlight = attribute_color(tag, 0);
            }
        } else if chars_eq(name, &['c', 'o', 'l', 'o', 'r']) {
            highlight = attribute_color(tag, k);
        } else if chars_eq(name, &['p', 'a', 'd', 'd', 'i', 'n', 'g']) && padding_parameter_count(tag, k) != 4 {
            return None;
        }
        k = k + 1;
    }
    Some(highlight)
}

fn align_of(v: &[char]) -> (r: Option<InlineAlign>)
    ensures
        r == align_value(v@),
{
    if chars_eq(v, &['l', 'e', 'f', 't']) {
        Some(InlineAlign::Left)
    } else if chars_eq(v, &['r', 'i', 'g', 'h', 't']) {
        Some(InlineAlign::Right)
    } else if chars_eq(v, &['c', 'e', 'n', 't', 'e', 'r']) {
        Some(InlineAlign::Center)
    } else if chars_eq(v, &['j', 'u', 's', 't', 'i', 'f', 'i', 'e', 'd']) {
        Some(InlineAlign::Justified)
    } else if chars_eq(v, &['f', 'l', 'u', 's', 'h']) {
        Some(InlineAlign::Flush)
    } else {
        None
    }
}

fn chars_from(v: &Vec<char>, from: usize) -> (r: Vec<char>)
    requires
        from <= v@.len(),
    ensures
        r@ == v@.subrange(from as int, v@.len() as int),
{
    let mut out: Vec<char> = Vec::new();
    let mut i = from;
    while i < v.len()
        invariant
            from <= i <= v@.len(),
            out@ == v@.subrange(from as int, i as int),
        decreases v.len() - i,
    {
        out.push(v[i]);
        i = i + 1;
        assert(out@ =~= v@.subrange(from as int, i as int));
    }
    out
}

impl MarkupStyle {
    /// The style a text starts with, for a face whose italic slant is
    /// `italic_style`.
    pub fn new(italic_style: i32) -> (r: Self)
        ensures
            r@ == initial_style(italic_style),
            style_wf(r@),
    {
        let color = HtmlColor { rgb: None, alpha: 255 };
        MarkupStyle {
            counts: StyleCounts {
                bold: 0,
                italic: 0,
                underline: 0,
                strikethrough: 0,
                highlight: 0,
                subscript: 0,
                superscript: 0,
                lowercase: 0,
                uppercase: 0,
                smallcaps: 0,
            },
            italic_angle: italic_style,
            italic_angles: RestoreStack::new(italic_style),
            color,
            colors: RestoreStack::new(color),
            highlights: RestoreStack::new(None),
            align: None,
            aligns: RestoreStack::new(None),
            no_break: false,
            no_parse: false,
            characters_emitted: false,
        }
    }

    fn set_color(&mut self, rgba: [u8; 4])
        requires
            style_wf(old(self)@),
        ensures
            style_wf(final(self)@),
            final(self)@ == with_color(old(self)@, rgba),
    {
        self.color = HtmlColor { rgb: Some([rgba[0], rgba[1], rgba[2]]), alpha: rgba[3] };
        let color = self.color;
        self.colors.add(color);
    }

    fn apply_named(&mut self, name: &[char]) -> (r: Option<StyleOutcome>)
        requires
            style_wf(old(self)@),
        ensures
            style_wf(final(self)@),
            match named_effect(old(self)@, name@) {
                Some((s, o)) => final(self)@ == s && r == Some(o),
                None => final(self)@ == old(self)@ && r is None,
            },
    {
        assert(['b']@ == seq!['b'] && ['s']@ == seq!['s'] && ['u']@ == seq!['u']);
        if is_name(name, &['b']) {
            style_add(&mut self.counts.bold);
        } else if is_name(name, &['/', 'b']) {
            style_remove(&mut self.counts.bold);
        } else if is_name(name, &['/', 'i']) {
            self.italic_angle = self.italic_angles.remove();
            style_remove(&mut self.counts.italic);
        } else if is_name(name, &['s']) {
            style_add(&mut self.counts.strikethrough);
        } else if is_name(name, &['/', 's']) {
            style_remove(&mut self.counts.strikethrough);
        } else if is_name(name, &['u']) {
            style_add(&mut self.counts.underline);
        } else if is_name(name, &['/', 'u']) {
            style_remove(&mut self.counts.underline);
        } else if is_name(name, &['/', 'm', 'a', 'r', 'k']) {
            self.highlights.remove();
            style_remove(&mut self.counts.highlight);
        } else if is_name(name, &['s', 'u', 'b']) {
            style_add(&mut self.counts.subscript);
            return Some(StyleOutcome::Measure(MeasureTag::OpenScript { superscript: false }));
        } else if is_name(name, &['s', 'u', 'p']) {
            style_add(&mut self.counts.superscript);
            return Some(StyleOutcome::Measure(MeasureTag::OpenScript { superscript: true }));
        } else if is_name(name, &['/', 's', 'u', 'b']) {
            let active = self.counts.subscript > 0;
            style_remove(&mut self.counts.subscript);
            return Some(StyleOutcome::Measure(MeasureTag::CloseScript { superscript: false, active }));
        } else if is_name(name, &['/', 's', 'u', 'p']) {
            let active = self.counts.superscript > 0;
            style_remove(&mut self.counts.superscript);
            return Some(StyleOutcome::Measure(MeasureTag::CloseScript { superscript: true, active }));
        } else {
            return self.apply_named_more(name);
        }
        Some(StyleOutcome::Applied)
    }

    fn apply_named_more(&mut self, name: &[char]) -> (r: Option<StyleOutcome>)
        requires
            style_wf(old(self)@),
        ensures
            style_wf(final(self)@),
            match named_effect_more(old(self)@, name@) {
                Some((s, o)) => final(self)@ == s && r == Some(o),
                None => final(self)@ == old(self)@ && r is None,
            },
    {
        if inert_named_tag(name) {
            Some(StyleOutcome::Applied)
        } else if is_name(name, &['/', 'v', 'o', 'f', 'f', 's', 'e', 't']) {
            Some(StyleOutcome::Measure(MeasureTag::CloseVerticalOffset))
        } else if is_name(name, &['n', 'o', 'b', 'r']) {
            self.no_break = true;
            Some(StyleOutcome::Applied)
        } else if is_name(name, &['/', 'n', 'o', 'b', 'r']) {
            self.no_break = false;
            Some(StyleOutcome::Applied)
        } else if is_name(name, &['/', 's', 'i', 'z', 'e']) {
            Some(StyleOutcome::Measure(MeasureTag::CloseSize))
        } else if is_name(name, &['/', 'a', 'l', 'i', 'g', 'n']) {
            self.align = self.aligns.remove();
            Some(StyleOutcome::Applied)
        } else if is_name(name, &['/', 'm', 's', 'p', 'a', 'c', 'e']) {
            Some(StyleOutcome::Measure(MeasureTag::CloseMonospace))
        } else if is_name(name, &['/', 'c', 'o', 'l', 'o', 'r']) {
            self.color = self.colors.remove();
            Some(StyleOutcome::Applied)
        } else if is_name(name, &['/', 'i', 'n', 'd', 'e', 'n', 't']) {
            Some(StyleOutcome::Measure(MeasureTag::CloseIndent))
        } else if is_name(name, &['/', 'l', 'i', 'n', 'e', '-', 'i', 'n', 'd', 'e', 'n', 't']) {
            Some(StyleOutcome::Measure(MeasureTag::CloseLineIndent))
        } else if is_name(name, &['l', 'o', 'w', 'e', 'r', 'c', 'a', 's', 'e']) {
            style_add(&mut self.counts.lowercase);
            Some(StyleOutcome::Applied)
        } else if is_name(name, &['/', 'l', 'o', 'w', 'e', 'r', 'c', 'a', 's', 'e']) {
            style_remove(&mut self.counts.lowercase);
            Some(StyleOutcome::Applied)
        } else if is_name(name, &['a', 'l', 'l', 'c', 'a', 'p', 's']) || is_name(
            name,
            &['u', 'p', 'p', 'e', 'r', 'c', 'a', 's', 'e'],
        ) {
            style_add(&mut self.counts.uppercase);
            Some(StyleOutcome::Applied)
        } else if is_name(name, &['/', 'a', 'l', 'l', 'c', 'a', 'p', 's']) || is_name(
            name,
            &['/', 'u', 'p', 'p', 'e', 'r', 'c', 'a', 's', 'e'],
        ) {
            style_remove(&mut self.counts.uppercase);
            Some(StyleOutcome::Applied)
        } else if is_name(name, &['s', 'm', 'a', 'l', 'l', 'c', 'a', 'p', 's']) {
            style_add(&mut self.counts.smallcaps);
            Some(StyleOutcome::Applied)
        } else if is_name(name, &['/', 's', 'm', 'a', 'l', 'l', 'c', 'a', 'p', 's']) {
            style_remove(&mut self.counts.smallcaps);
            Some(StyleOutcome::Applied)
        } else if is_name(name, &['/', 'l', 'i', 'n', 'e', '-', 'h', 'e', 'i', 'g', 'h', 't']) {
            Some(StyleOutcome::Measure(MeasureTag::CloseLineHeight))
        } else if is_name(name, &['n', 'o', 'p', 'a', 'r', 's', 'e']) {
            self.no_parse = true;
            Some(StyleOutcome::Applied)
        } else if is_name(name, &['/', 's', 'c', 'a', 'l', 'e']) || is_name(name, &['/', 'r', 'o', 't', 'a', 't', 'e']) {
            Some(StyleOutcome::Measure(MeasureTag::CloseEffect))
        } else {
            None
        }
    }

    fn apply_valued(&mut self, tag: &ScannedTag, italic_style: i32) -> (r: StyleOutcome)
        requires
            tag_wf(tag@),
            style_wf(old(self)@),
        ensures
            style_wf(final(self)@),
            (final(self)@, r) == valued_effect(old(self)@, tag@, italic_style),
    {
        let name = tag.name().as_slice();
        assert(['i']@ == seq!['i']);
        if is_name(name, &['i']) {
            style_add(&mut self.counts.italic);
            if tag.attributes.len() > 1 && is_name(tag.attributes[1].name.as_slice(), &['a', 'n', 'g', 'l', 'e']) {
                assert(tag.attributes[1].name@ == tag@.attributes[1].name);
                match tag.number(1) {
                    Some(n) => {
                        if n.scaled < 181 * NUMBER_SCALE {
                            let whole = (n.scaled / NUMBER_SCALE) as i32;
                            let angle = if n.negative { -whole } else { whole };
                            self.italic_angle = angle;
                            self.italic_angles.add(angle);
                            StyleOutcome::Applied
                        } else {
                            StyleOutcome::Rejected
                        }
                    },
                    None => StyleOutcome::Rejected,
                }
            } else {
                proof {
                    if tag@.attributes.len() > 1 {
                        assert(tag.attributes[1].name@ == tag@.attributes[1].name);
                    }
                }
                self.italic_angle = italic_style;
                self.italic_angles.add(italic_style);
                StyleOutcome::Applied
            }
        } else if is_name(name, &['m', 'a', 'r', 'k']) {
            style_add(&mut self.counts.highlight);
            match mark_color(tag) {
                Some(h) => {
                    let alpha = if h[3] < self.color.alpha { h[3] } else { self.color.alpha };
                    let bounded: [u8; 4] = [h[0], h[1], h[2], alpha];
                    self.highlights.add(Some(bounded));
                    StyleOutcome::Applied
                },
                None => StyleOutcome::Rejected,
            }
        } else if numeric_tag_name(name) {
            numeric_outcome(tag)
        } else if length_tag_name(name) {
            length_outcome(tag)
        } else if is_name(name, &['w', 'i', 'd', 't', 'h']) {
            if tag.number(0).is_some() && tag.unit != Unit::FontUnits {
                StyleOutcome::Applied
            } else {
                StyleOutcome::Rejected
            }
        } else if is_name(name, &['f', 'o', 'n', 't']) || is_name(name, &['m', 'a', 't', 'e', 'r', 'i', 'a', 'l']) {
            let v = tag.value(0);
            if chars_eq(v.as_slice(), &['d', 'e', 'f', 'a', 'u', 'l', 't']) || chars_eq(
                v.as_slice(),
                &['D', 'e', 'f', 'a', 'u', 'l', 't'],
            ) {
                StyleOutcome::Applied
            } else {
                StyleOutcome::Rejected
            }
        } else if is_name(name, &['a', 'l', 'p', 'h', 'a']) {
            assert(tag.attributes[0]@ == tag@.attributes[0]);
            if tag.attributes[0].value_length != 3 {
                StyleOutcome::Rejected
            } else {
                self.color.alpha = hex_pair(tag.char_at(7), tag.char_at(8));
                StyleOutcome::Applied
            }
        } else if is_name(name, &['l', 'i', 'n', 'k']) {
            StyleOutcome::Applied
        } else if is_name(name, &['/', 'c', 's', 'p', 'a', 'c', 'e']) {
            StyleOutcome::Measure(MeasureTag::CloseCharacterSpacing)
        } else {
            self.apply_valued_more(tag)
        }
    }

    fn apply_valued_more(&mut self, tag: &ScannedTag) -> (r: StyleOutcome)
        requires
            tag_wf(tag@),
            style_wf(old(self)@),
        ensures
            style_wf(final(self)@),
            (final(self)@, r) == valued_effect_more(old(self)@, tag@),
    {
        let name = tag.name().as_slice();
        if is_name(name, &['a', 'l', 'i', 'g', 'n']) {
            let v = tag.value(0);
            match align_of(v.as_slice()) {
                Some(a) => {
                    self.align = Some(a);
                    self.aligns.add(Some(a));
                    StyleOutcome::Applied
                },
                None => StyleOutcome::Rejected,
            }
        } else if is_name(name, &['c', 'o', 'l', 'o', 'r']) {
            let length = tag.chars.len();
            if tag.char_at(6) == '#' && (length == 10 || length == 11 || length == 13 || length == 15) {
                let digits = chars_from(&tag.chars, 7);
                match hex_color(digits.as_slice()) {
                    Some(rgba) => {
                        self.set_color(rgba);
                        StyleOutcome::Applied
                    },
                    None => StyleOutcome::Rejected,
                }
            } else {
                let v = tag.value(0);
                match named_color(v.as_slice()) {
                    Some(rgb) => {
                        self.set_color([rgb[0], rgb[1], rgb[2], 255]);
                        StyleOutcome::Applied
                    },
                    None => StyleOutcome::Rejected,
                }
            }
        } else if is_name(name, &['m', 'a', 'r', 'g', 'i', 'n']) {
            assert(tag.attributes[0]@ == tag@.attributes[0]);
            if tag.attributes[0].value_type == ValueType::Number {
                if tag.number(0).is_some() { StyleOutcome::Applied } else { StyleOutcome::Rejected }
            } else if tag.attributes[0].value_type != ValueType::Empty {
                StyleOutcome::Rejected
            } else {
                StyleOutcome::Applied
            }
        } else {
            StyleOutcome::Rejected
        }
    }

    /// Reads one scanned tag, for a face whose italic slant is
    /// `italic_style`: updates the style and reports what the tag did.
    pub fn apply(&mut self, tag: &ScannedTag, italic_style: i32) -> (r: StyleOutcome)
        requires
            tag_wf(tag@),
            style_wf(old(self)@),
        ensures
            style_wf(final(self)@),
            (final(self)@, r) == style_after_tag(old(self)@, tag@, italic_style),
    {
        let name = tag.name().as_slice();
        let closes_noparse = is_name(name, &['/', 'n', 'o', 'p', 'a', 'r', 's', 'e']);
        let length = tag.chars.len();
        if self.no_parse && !closes_noparse {
            return StyleOutcome::Rejected;
        }
        if closes_noparse {
            self.no_parse = false;
            return StyleOutcome::Applied;
        }
        if length > 0 && tag.chars[0] == '#' && (length == 4 || length == 5 || length == 7 || length == 9) {
            let digits = chars_from(&tag.chars, 1);
            match hex_color(digits.as_slice()) {
                Some(rgba) => {
                    self.set_color(rgba);
                    return StyleOutcome::Applied;
                },
                None => {},
            }
        }
        match self.apply_named(name) {
            Some(outcome) => outcome,
            None => self.apply_valued(tag, italic_style),
        }
    }

    /// The letter case the style draws with.
    pub fn case(&self) -> (r: CaseTransform)
        ensures
            r == case_of(self.counts),
    {
        if self.counts.uppercase > 0 {
            CaseTransform::Upper
        } else if self.counts.lowercase > 0 {
            CaseTransform::Lower
        } else if self.counts.smallcaps > 0 {
            CaseTransform::SmallCaps
        } else {
            CaseTransform::Unchanged
        }
    }

    /// The highlight the style draws: the most recent `<mark>` colour while
    /// one is open.
    pub fn mark(&self) -> (r: Option<[u8; 4]>)
        requires
            style_wf(self@),
        ensures
            r == (if self.counts.highlight > 0 { self@.highlights.last() } else { None }),
    {
        if self.counts.highlight > 0 {
            self.highlights.top()
        } else {
            None
        }
    }

    /// The italic slant the style draws with, while an `<i>` is open.
    pub fn italic(&self) -> (r: Option<i32>)
        ensures
            r == (if self.counts.italic > 0 { Some(self.italic_angle) } else { None }),
    {
        if self.counts.italic > 0 {
            Some(self.italic_angle)
        } else {
            None
        }
    }
}

fn inert_named_tag(name: &[char]) -> (r: bool)
    ensures
        r == is_inert_named_tag(name@),
{
    is_name(name, &['/', 'f', 'o', 'n', 't', '-', 'w', 'e', 'i', 'g', 'h', 't'])
        || is_name(name, &['/', 'p', 'o', 's'])
        || is_name(name, &['/', 'f', 'o', 'n', 't'])
        || is_name(name, &['/', 'm', 'a', 't', 'e', 'r', 'i', 'a', 'l'])
        || is_name(name, &['p', 'a', 'g', 'e'])
        || is_name(name, &['/', 'a'])
        || is_name(name, &['/', 'l', 'i', 'n', 'k'])
        || is_name(name, &['/', 'g', 'r', 'a', 'd', 'i', 'e', 'n', 't'])
        || is_name(name, &['a', 'c', 't', 'i', 'o', 'n'])
        || is_name(name, &['/', 'a', 'c', 't', 'i', 'o', 'n'])
        || is_name(name, &['/', 'w', 'i', 'd', 't', 'h'])
        || is_name(name, &['/', 'm', 'a', 'r', 'g', 'i', 'n'])
        || is_name(name, &['/', 't', 'a', 'b', 'l', 'e'])
        || is_name(name, &['t', 'r'])
        || is_name(name, &['/', 't', 'r'])
        || is_name(name, &['t', 'h'])
        || is_name(name, &['/', 't', 'h'])
}

fn numeric_tag_name(name: &[char]) -> (r: bool)
    ensures
        r == is_numeric_tag(name@),
{
    is_name(name, &['f', 'o', 'n', 't', '-', 'w', 'e', 'i', 'g', 'h', 't'])
        || is_name(name, &['p', 'o', 's'])
        || is_name(name, &['s', 'i', 'z', 'e'])
        || is_name(name, &['i', 'n', 'd', 'e', 'n', 't'])
        || is_name(name, &['l', 'i', 'n', 'e', '-', 'i', 'n', 'd', 'e', 'n', 't'])
        || is_name(name, &['m', 'a', 'r', 'g', 'i', 'n', '-', 'l', 'e', 'f', 't'])
        || is_name(name, &['m', 'a', 'r', 'g', 'i', 'n', '-', 'r', 'i', 'g', 'h', 't'])
        || is_name(name, &['l', 'i', 'n', 'e', '-', 'h', 'e', 'i', 'g', 'h', 't'])
        || is_name(name, &['s', 'c', 'a', 'l', 'e'])
        || is_name(name, &['r', 'o', 't', 'a', 't', 'e'])
}

fn length_tag_name(name: &[char]) -> (r: bool)
    ensures
        r == is_length_tag(name@),
{
    is_name(name, &['v', 'o', 'f', 'f', 's', 'e', 't'])
        || is_name(name, &['s', 'p', 'a', 'c', 'e'])
        || is_name(name, &['c', 's', 'p', 'a', 'c', 'e'])
        || is_name(name, &['m', 's', 'p', 'a', 'c', 'e'])
}

fn numeric_outcome(tag: &ScannedTag) -> (r: StyleOutcome)
    requires
        tag_wf(tag@),
    ensures
        forall|s: MarkupStyleView| #![auto] numeric_effect(s, tag@) == (s, r),
{
    let name = tag.name().as_slice();
    if is_name(name, &['f', 'o', 'n', 't', '-', 'w', 'e', 'i', 'g', 'h', 't']) {
        if tag.number(0).is_some() { StyleOutcome::Applied } else { StyleOutcome::Rejected }
    } else if is_name(name, &['p', 'o', 's']) {
        measure(tag, false, MeasureTag::Position)
    } else if is_name(name, &['s', 'i', 'z', 'e']) {
        measure(tag, false, MeasureTag::Size)
    } else if is_name(name, &['i', 'n', 'd', 'e', 'n', 't']) {
        measure(tag, false, MeasureTag::Indent)
    } else if is_name(name, &['l', 'i', 'n', 'e', '-', 'i', 'n', 'd', 'e', 'n', 't']) {
        measure(tag, false, MeasureTag::LineIndent)
    } else if is_name(name, &['m', 'a', 'r', 'g', 'i', 'n', '-', 'l', 'e', 'f', 't']) || is_name(
        name,
        &['m', 'a', 'r', 'g', 'i', 'n', '-', 'r', 'i', 'g', 'h', 't'],
    ) {
        if tag.number(0).is_some() { StyleOutcome::Applied } else { StyleOutcome::Rejected }
    } else if is_name(name, &['l', 'i', 'n', 'e', '-', 'h', 'e', 'i', 'g', 'h', 't']) {
        measure(tag, false, MeasureTag::LineHeight)
    } else if is_name(name, &['s', 'c', 'a', 'l', 'e']) {
        measure(tag, false, MeasureTag::Scale)
    } else {
        measure(tag, false, MeasureTag::Rotate)
    }
}

fn length_outcome(tag: &ScannedTag) -> (r: StyleOutcome)
    requires
        tag_wf(tag@),
    ensures
        forall|s: MarkupStyleView| #![auto] length_effect(s, tag@) == (s, r),
{
    let name = tag.name().as_slice();
    if is_name(name, &['v', 'o', 'f', 'f', 's', 'e', 't']) {
        measure(tag, true, MeasureTag::VerticalOffset)
    } else if is_name(name, &['s', 'p', 'a', 'c', 'e']) {
        measure(tag, true, MeasureTag::Space)
    } else if is_name(name, &['c', 's', 'p', 'a', 'c', 'e']) {
        measure(tag, true, MeasureTag::CharacterSpacing)
    } else {
        measure(tag, true, MeasureTag::Monospace)
    }
}

fn measure(tag: &ScannedTag, length: bool, m: MeasureTag) -> (r: StyleOutcome)
    requires
        tag_wf(tag@),
    ensures
        forall|s: MarkupStyleView| #![auto] measured(s, tag@, length, m) == (s, r),
{
    if tag.number(0).is_some() && !(length && tag.unit == Unit::Percentage) {
        StyleOutcome::Measure(m)
    } else {
        StyleOutcome::Rejected
    }
}

proof fn lemma_mark_scans_agree(t: TagView, k: int, highlight: [u8; 4])
    ensures
        (mark_highlight(t, k, highlight) is None) == mark_rejects(t, k),
    decreases t.attributes.len() - k,
{
    if 0 <= k < t.attributes.len() {
        let a = t.attributes[k];
        if a.name.len() > 0 {
            if spec_is_name(a.name, seq!['m', 'a', 'r', 'k']) {
                lemma_mark_scans_agree(
                    t,
                    k + 1,
                    if a.value_type == ValueType::Color { attribute_color_spec(t, 0) } else { highlight },
                );
            } else if a.name == seq!['c', 'o', 'l', 'o', 'r'] {
                lemma_mark_scans_agree(t, k + 1, attribute_color_spec(t, k));
            } else {
                lemma_mark_scans_agree(t, k + 1, highlight);
            }
        }
    }
}

proof fn lemma_name_starts(name: Seq<char>, lower: Seq<char>)
    requires
        spec_is_name(name, lower),
        lower.len() >= 2,
    ensures
        name.len() == lower.len(),
        name[0] == lower[0] || name[0] == crate::unicode::upper_ascii(lower[0]),
        name[1] == lower[1] || name[1] == crate::unicode::upper_ascii(lower[1]),
{
}

#[verifier::rlimit(50)]
proof fn lemma_named_agree(s: MarkupStyleView, name: Seq<char>)
    ensures
        (named_effect(s, name) is Some) == (named_tag_effect(name) is Some),
        named_effect(s, name) matches Some((after, outcome)) ==> {
            &&& outcome != StyleOutcome::Rejected
            &&& after.no_parse == after_no_parse(named_tag_effect(name).unwrap(), s.no_parse)
            &&& after.no_break == after_no_break(named_tag_effect(name).unwrap(), s.no_break)
        },
{
    assert(named_tag_effect(name) is Some ==> named_effect(s, name) is Some);
    assert(named_effect(s, name) is Some ==> named_tag_effect(name) is Some);
    if spec_is_name(name, seq!['n', 'o', 'b', 'r']) {
        lemma_name_starts(name, seq!['n', 'o', 'b', 'r']);
        assert(!is_plain_named_tag(name));
    } else if spec_is_name(name, seq!['/', 'n', 'o', 'b', 'r']) {
        lemma_name_starts(name, seq!['/', 'n', 'o', 'b', 'r']);
        assert(!is_plain_named_tag(name));
    } else if spec_is_name(name, seq!['n', 'o', 'p', 'a', 'r', 's', 'e']) {
        lemma_name_starts(name, seq!['n', 'o', 'p', 'a', 'r', 's', 'e']);
        assert(!is_plain_named_tag(name));
    }
}

proof fn lemma_valued_agree(s: MarkupStyleView, t: TagView, italic_style: i32)
    ensures
        (valued_effect(s, t, italic_style).1 == StyleOutcome::Rejected) == !valued_tag_accepts(t),
        valued_effect(s, t, italic_style).0.no_parse == s.no_parse,
        valued_effect(s, t, italic_style).0.no_break == s.no_break,
{
    lemma_mark_scans_agree(t, 0, [255u8, 255u8, 0u8, 64u8]);
    let length = t.chars.len();
    if length == 10 || length == 11 || length == 13 || length == 15 {
        assert(t.chars.subrange(7, length as int).len() == length - 7);
    }
}

/// The style and the visible text read markup the same way: a tag the
/// style refuses is exactly one the visible text keeps as characters, and
/// an accepted tag opens and closes `<noparse>` and `<nobr>` alike in both.
pub proof fn law_style_and_visible_text_agree_on_tags(s: MarkupStyleView, t: TagView, italic_style: i32)
    ensures
        ({
            let (after, outcome) = style_after_tag(s, t, italic_style);
            match tag_outcome(t, s.no_parse) {
                Some(e) => {
                    &&& outcome != StyleOutcome::Rejected
                    &&& after.no_parse == after_no_parse(e, s.no_parse)
                    &&& after.no_break == after_no_break(e, s.no_break)
                },
                None => outcome == StyleOutcome::Rejected && after.no_parse == s.no_parse && after.no_break
                    == s.no_break,
            }
        }),
{
    let name = tag_name_spec(t);
    let length = t.chars.len();
    if length == 4 || length == 5 || length == 7 || length == 9 {
        assert(t.chars.subrange(1, length as int).len() == length - 1);
    }
    lemma_named_agree(s, name);
    lemma_valued_agree(s, t, italic_style);
}

} // verus!
