//! Where TextMesh Pro may break a line.
//!
//! A line may break after white space, `-`, the zero width space and the soft
//! hyphen, unless the character is inside `<nobr>` or is one of the
//! non-breaking spaces and hyphens. Between CJK characters a line may break
//! anywhere except before a character that must not begin a line and after
//! one that must not end a line. Until a line has offered its first break
//! opportunity, it may also break between any two characters, so a word longer
//! than the width is split rather than overflowing.
//!
//! The two character tables are TextMesh Pro's default line-breaking rules.

use vstd::prelude::*;

use crate::tmp_text::markup::{
    law_visible_scalars_cover_whole_characters, visible_char_ranges, visible_scalars, visible_scalars_spec,
    VisibleScalar,
};
use crate::unicode::{byte_offset, char_offsets, lemma_byte_offset_strict, string_push};
use crate::unicode::{is_whitespace, is_whitespace_spec};

verus! {

/// Characters that must not end a line (opening brackets and the like).
pub const LEADING_CHARACTERS: &'static str = "([｛〔〈《「『【〘〖〝‘“｟«$—…‥〳〴〵\\［（{£¥\"々〇＄￥￦ #";
/// Characters that must not begin a line (closing brackets, sentence-ending
/// punctuation, small kana and the like).
pub const FOLLOWING_CHARACTERS: &'static str = ")]｝〕〉》」』】〙〗〟’”｠»ヽヾーァィゥェォッャュョヮヵヶぁぃぅぇぉっゃゅょゎゕゖㇰㇱㇲㇳㇴㇵㇶㇷㇸㇹㇺㇻㇼㇽㇾㇿ々〻‐゠–〜?!‼⁇⁈⁉・、%,.:;。！？］）：；＝}¢°\"†‡℃〆％，．";

/// `v` lists characters in strictly increasing order.
pub open spec fn strictly_sorted(v: Seq<char>) -> bool {
    forall|i: int, j: int| 0 <= i < j < v.len() ==> v[i] < v[j]
}

/// The characters of `source`, sorted and without repeats.
pub fn table(source: &str) -> (chars: Vec<char>)
    ensures
        strictly_sorted(chars@),
        forall|c: char| chars@.contains(c) <==> source@.contains(c),
{
    let mut chars: Vec<char> = Vec::new();
    for c in it: source.chars()
        invariant
            it.seq() == source@,
            strictly_sorted(chars@),
            forall|x: char| chars@.contains(x) <==> it.seq().take(it.index() as int).contains(x),
    {
        let ghost k = it.index();
        let ghost before = chars@;
        let ghost seen = it.seq().take(k as int);
        let ghost seen_now = it.seq().take(k + 1);
        let mut pos: usize = 0;
        while pos < chars.len() && chars[pos] < c
            invariant
                pos <= chars@.len(),
                chars@ == before,
                forall|i: int| 0 <= i < pos ==> chars@[i] < c,
            decreases chars.len() - pos,
        {
            pos = pos + 1;
        }
        proof {
            assert(seen_now =~= seen.push(c));
        }
        if pos < chars.len() && chars[pos] == c {
            proof {
                assert forall|x: char| chars@.contains(x) <==> seen_now.contains(x) by {
                    if seen_now.contains(x) && x == c {
                        assert(chars@[pos as int] == c);
                    }
                    if seen_now.contains(x) && x != c {
                        let j = choose|j: int| 0 <= j < seen_now.len() && seen_now[j] == x;
                        assert(seen[j] == x);
                    }
                    if chars@.contains(x) {
                        assert(seen.contains(x));
                        let j = choose|j: int| 0 <= j < seen.len() && seen[j] == x;
                        assert(seen_now[j] == x);
                    }
                }
            }
        } else {
            chars.insert(pos, c);
            proof {
                assert(chars@ == before.insert(pos as int, c));
                assert(chars@[pos as int] == c);
                assert forall|i: int, j: int| 0 <= i < j < chars@.len() implies chars@[i] < chars@[j] by {
                    if j < pos {
                        assert(chars@[i] == before[i] && chars@[j] == before[j]);
                    } else if i > pos {
                        assert(chars@[i] == before[i - 1] && chars@[j] == before[j - 1]);
                    } else if i == pos {
                        assert(chars@[j] == before[j - 1]);
                        assert(before[pos as int] >= c);
                        assert(before[pos as int] != c);
                        if j - 1 > pos {
                            assert(before[pos as int] < before[j - 1]);
                        }
                    } else {
                        assert(chars@[i] == before[i]);
                        assert(before[i] < c);
                        if j > pos {
                            assert(chars@[j] == before[j - 1]);
                            if j - 1 > i {
                                assert(before[i] < before[j - 1]);
                            }
                        }
                    }
                }
                assert forall|x: char| chars@.contains(x) <==> seen_now.contains(x) by {
                    if chars@.contains(x) {
                        let j = choose|j: int| 0 <= j < chars@.len() && chars@[j] == x;
                        if j == pos {
                            assert(seen_now[k as int] == x);
                        } else {
                            let jj = if j < pos { j } else { j - 1 };
                            assert(before[jj] == x);
                            assert(before.contains(x));
                            let t = choose|t: int| 0 <= t < seen.len() && seen[t] == x;
                            assert(seen_now[t] == x);
                        }
                    }
                    if seen_now.contains(x) {
                        let t = choose|t: int| 0 <= t < seen_now.len() && seen_now[t] == x;
                        if t == k {
                            assert(chars@[pos as int] == x);
                        } else {
                            assert(seen[t] == x);
                            assert(before.contains(x));
                            let j = choose|j: int| 0 <= j < before.len() && before[j] == x;
                            if j < pos {
                                assert(chars@[j] == x);
                            } else {
                                assert(chars@[j + 1] == x);
                            }
                        }
                    }
                }
            }
        }
    }
    proof {
        assert(source@.take(source@.len() as int) =~= source@);
    }
    chars
}

/// Whether `ch` occurs in the strictly sorted `chars`.
pub fn sorted_contains(chars: &Vec<char>, ch: char) -> (r: bool)
    requires
        strictly_sorted(chars@),
    ensures
        r == chars@.contains(ch),
{
    let mut low: usize = 0;
    let mut high: usize = chars.len();
    while low < high
        invariant
            low <= high <= chars@.len(),
            strictly_sorted(chars@),
            forall|i: int| 0 <= i < low ==> chars@[i] < ch,
            forall|i: int| high <= i < chars@.len() ==> chars@[i] > ch,
        decreases high - low,
    {
        let mid = low + (high - low) / 2;
        let value = chars[mid];
        if value == ch {
            return true;
        } else if value < ch {
            assert forall|i: int| 0 <= i <= mid implies chars@[i] < ch by {
                if i < mid {
                    assert(chars@[i] < chars@[mid as int]);
                }
            }
            low = mid + 1;
        } else {
            assert forall|i: int| mid <= i < chars@.len() implies chars@[i] > ch by {
                if i > mid {
                    assert(chars@[mid as int] < chars@[i]);
                }
            }
            high = mid;
        }
    }
    proof {
        if chars@.contains(ch) {
            let j = choose|j: int| 0 <= j < chars@.len() && chars@[j] == ch;
            assert(j < low || j >= high);
        }
    }
    false
}

/// Whether a line must not end with `ch`.
pub fn is_leading_character(ch: char) -> (r: bool)
    ensures
        r == LEADING_CHARACTERS@.contains(ch),
{
    let chars = table(LEADING_CHARACTERS);
    sorted_contains(&chars, ch)
}

/// Whether a line must not begin with `ch`.
pub fn is_following_character(ch: char) -> (r: bool)
    ensures
        r == FOLLOWING_CHARACTERS@.contains(ch),
{
    let chars = table(FOLLOWING_CHARACTERS);
    sorted_contains(&chars, ch)
}

pub open spec fn is_cjk_break_character_spec(ch: char) -> bool {
    let code = ch as u32;
    (0x1101 <= code && code <= 0x11FE) || (0xA961 <= code && code <= 0xA97E)
        || (0xAC01 <= code && code <= 0xD7FE) || (0x2E81 <= code && code <= 0x9FFE)
        || (0xF901 <= code && code <= 0xFAFE) || (0xFE31 <= code && code <= 0xFE4E)
        || (0xFF01 <= code && code <= 0xFFEE)
}

/// Whether `ch` is in the ranges where TextMesh Pro breaks between
/// characters: Hangul, CJK ideographs, compatibility forms and full-width
/// forms.
pub fn is_cjk_break_character(ch: char) -> (r: bool)
    ensures
        r == is_cjk_break_character_spec(ch),
{
    let code = ch as u32;
    (0x1101 <= code && code <= 0x11FE) || (0xA961 <= code && code <= 0xA97E)
        || (0xAC01 <= code && code <= 0xD7FE) || (0x2E81 <= code && code <= 0x9FFE)
        || (0xF901 <= code && code <= 0xFAFE) || (0xFE31 <= code && code <= 0xFE4E)
        || (0xFF01 <= code && code <= 0xFFEE)
}

pub open spec fn is_break_character_spec(ch: char) -> bool {
    (is_whitespace_spec(ch) || ch == '\u{200B}' || ch == '-' || ch == '\u{00AD}')
        && !(ch == '\u{00A0}' || ch == '\u{2007}' || ch == '\u{2011}' || ch == '\u{202F}' || ch == '\u{2060}')
}

/// Whether a line may break after `ch` because of the character itself.
pub fn is_break_character(ch: char) -> (r: bool)
    ensures
        r == is_break_character_spec(ch),
{
    (is_whitespace(ch) || ch == '\u{200B}' || ch == '-' || ch == '\u{00AD}')
        && !(ch == '\u{00A0}' || ch == '\u{2007}' || ch == '\u{2011}' || ch == '\u{202F}' || ch == '\u{2060}')
}

/// Whether a character too wide for the line forces a break. White space and
/// the zero-width controls may hang past the edge.
pub fn checks_width(ch: char) -> (r: bool)
    ensures
        r == !(is_whitespace_spec(ch) || ch == '\u{200B}' || ch == '\u{00AD}' || ch == '\u{0003}'),
{
    !(is_whitespace(ch) || ch == '\u{200B}' || ch == '\u{00AD}' || ch == '\u{0003}')
}

/// Where a line-breaking pass stands: the next character to place, where
/// the current line starts, the last break opportunity it offered and
/// whether it has offered one yet.
#[derive(Clone, Copy, Debug, PartialEq, Eq, Structural)]
pub struct LineBreakState {
    pub index: usize,
    pub line_start: usize,
    pub saved: Option<usize>,
    pub first_word: bool,
}

/// A pass over `len` characters may stand at `s`: the last opportunity lies
/// on the current line before the next character.
pub open spec fn break_state_wf(s: LineBreakState, len: int) -> bool {
    &&& len <= usize::MAX
    &&& s.line_start <= s.index <= len
    &&& match s.saved {
        Some(k) => s.line_start <= k < s.index,
        None => true,
    }
}

/// The break opportunities character `s.index` offers, given its scalar and
/// the next one: the state after the character is placed on the line.
pub open spec fn after_placing(s: LineBreakState, scalars: Seq<VisibleScalar>) -> LineBreakState {
    let i = s.index as int;
    let scalar = scalars[i];
    let ch = scalar.ch;
    let here = Some(s.index);
    let placed = if !scalar.no_break && is_break_character_spec(ch) {
        LineBreakState { saved: here, first_word: false, ..s }
    } else if !scalar.no_break && is_cjk_break_character_spec(ch) {
        let next_follows = i + 1 < scalars.len() && FOLLOWING_CHARACTERS@.contains(scalars[i + 1].ch);
        if !LEADING_CHARACTERS@.contains(ch) {
            let s1 = if !next_follows { LineBreakState { saved: here, first_word: false, ..s } } else { s };
            if s1.first_word { LineBreakState { saved: here, ..s1 } } else { s1 }
        } else if s.first_word && s.index == s.line_start {
            LineBreakState { saved: here, ..s }
        } else {
            s
        }
    } else if s.first_word {
        LineBreakState { saved: here, ..s }
    } else {
        s
    };
    LineBreakState { index: (s.index + 1) as usize, ..placed }
}

/// What placing the next character does to the line.
#[derive(Clone, Copy, Debug, PartialEq, Eq, Structural)]
pub enum LineBreakStep {
    /// The character is a hard line break; the next line starts after it.
    HardBreak,
    /// The line breaks after character `after`; placing resumes at the
    /// character after it, on a new line.
    Wrap { after: usize },
    /// The character is placed on the line.
    Placed,
}

/// One step of the pass: the character at `s.index`, which is a hard break
/// or not, and which overflows the line or not when placed.
pub open spec fn break_step(s: LineBreakState, scalars: Seq<VisibleScalar>, hard_break: bool, overflows: bool) -> (
    LineBreakState,
    LineBreakStep,
) {
    let next = (s.index + 1) as usize;
    if hard_break {
        (LineBreakState { index: next, line_start: next, saved: None, first_word: true }, LineBreakStep::HardBreak)
    } else if checks_width_spec(scalars[s.index as int].ch) && s.index != s.line_start && overflows {
        let after = match s.saved {
            Some(k) => k,
            None => (s.index - 1) as usize,
        };
        let resume = (after + 1) as usize;
        (
            LineBreakState { index: resume, line_start: resume, saved: None, first_word: true },
            LineBreakStep::Wrap { after },
        )
    } else {
        (after_placing(s, scalars), LineBreakStep::Placed)
    }
}

/// Whether a character too wide for the line forces a break.
pub open spec fn checks_width_spec(ch: char) -> bool {
    !(is_whitespace_spec(ch) || ch == '\u{200B}' || ch == '\u{00AD}' || ch == '\u{0003}')
}

/// Each step keeps the pass well formed and moves it forward.
pub proof fn lemma_step_progress(s: LineBreakState, scalars: Seq<VisibleScalar>, hard_break: bool, overflows: bool)
    requires
        break_state_wf(s, scalars.len() as int),
        s.index < scalars.len(),
    ensures
        ({
            let (t, _) = break_step(s, scalars, hard_break, overflows);
            &&& break_state_wf(t, scalars.len() as int)
            &&& (t.line_start > s.line_start || (t.line_start == s.line_start && t.index > s.index))
        }),
{
}

/// Places the character at `state.index`: `hard_break` tells whether it is a
/// hard line break and `overflows` whether the line overflows its width with
/// it. Returns what that did to the line.
pub fn line_break_step(state: &mut LineBreakState, scalars: &[VisibleScalar], hard_break: bool, overflows: bool) -> (r:
    LineBreakStep)
    requires
        break_state_wf(*old(state), scalars@.len() as int),
        old(state).index < scalars@.len(),
    ensures
        (*final(state), r) == break_step(*old(state), scalars@, hard_break, overflows),
        break_state_wf(*final(state), scalars@.len() as int),
{
    proof {
        lemma_step_progress(*state, scalars@, hard_break, overflows);
    }
    let n = scalars.len();
    let index = state.index;
    if hard_break {
        *state = LineBreakState { index: index + 1, line_start: index + 1, saved: None, first_word: true };
        return LineBreakStep::HardBreak;
    }
    let scalar = &scalars[index];
    if checks_width(scalar.ch) && index != state.line_start && overflows {
        let after = match state.saved {
            Some(k) => k,
            None => index - 1,
        };
        *state = LineBreakState { index: after + 1, line_start: after + 1, saved: None, first_word: true };
        return LineBreakStep::Wrap { after };
    }
    if !scalar.no_break && is_break_character(scalar.ch) {
        state.saved = Some(index);
        state.first_word = false;
    } else if !scalar.no_break && is_cjk_break_character(scalar.ch) {
        let next_follows = index + 1 < scalars.len() && is_following_character(scalars[index + 1].ch);
        if !is_leading_character(scalar.ch) {
            if !next_follows {
                state.saved = Some(index);
                state.first_word = false;
            }
            if state.first_word {
                state.saved = Some(index);
            }
        } else if state.first_word && index == state.line_start {
            state.saved = Some(index);
        }
    } else if state.first_word {
        state.saved = Some(index);
    }
    state.index = index + 1;
    LineBreakStep::Placed
}

/// `overflows` answers every question about a character `index` of the
/// `count` visible characters on a line that starts at `line_start` no later
/// than it, and always the same way; no other question is asked.
pub open spec fn overflow_oracle<F: Fn(usize, usize) -> bool>(overflows: F, count: int) -> bool {
    &&& forall|line_start: usize, index: usize|
        line_start <= index < count ==> call_requires(overflows, (line_start, index))
    &&& forall|line_start: usize, index: usize, r: bool|
        line_start <= index < count && #[trigger] call_ensures(overflows, (line_start, index), r) ==> (r
            == call_ensures(overflows, (line_start, index), true))
}

/// Whether placing character `index` overflows a line that starts at
/// `line_start`, as `overflows` answers.
pub open spec fn overflows_at<F: Fn(usize, usize) -> bool>(overflows: F, line_start: usize, index: usize) -> bool {
    call_ensures(overflows, (line_start, index), true)
}

/// The characters after which lines break when the pass goes on from `s`
/// to the end of `scalars`.
pub open spec fn breaks_from<F: Fn(usize, usize) -> bool>(
    scalars: Seq<VisibleScalar>,
    hard: Seq<bool>,
    overflows: F,
    s: LineBreakState,
) -> Seq<usize>
    decreases scalars.len() - s.line_start, scalars.len() - s.index,
    when break_state_wf(s, scalars.len() as int)
{
    if s.index >= scalars.len() {
        Seq::empty()
    } else {
        let (t, step) = break_step(s, scalars, hard[s.index as int], overflows_at(overflows, s.line_start, s.index));
        proof {
            lemma_step_progress(s, scalars, hard[s.index as int], overflows_at(overflows, s.line_start, s.index));
        }
        let rest = breaks_from(scalars, hard, overflows, t);
        match step {
            LineBreakStep::Wrap { after } => seq![after] + rest,
            _ => rest,
        }
    }
}

/// The state a pass starts from.
pub open spec fn pass_start() -> LineBreakState {
    LineBreakState { index: 0, line_start: 0, saved: None, first_word: true }
}

/// Indices after which a line breaks when `scalars` are laid out: character
/// `k` is a hard line break when `hard_breaks[k]`, and `overflows(line_start,
/// k)` tells whether placing character `k` on a line that starts at
/// `line_start` makes it wider than the width.
pub fn soft_breaks<F: Fn(usize, usize) -> bool>(scalars: &[VisibleScalar], hard_breaks: &[bool], overflows: F) -> (breaks:
    Vec<usize>)
    requires
        hard_breaks@.len() == scalars@.len(),
        overflow_oracle(overflows, scalars@.len() as int),
    ensures
        breaks@ == breaks_from(scalars@, hard_breaks@, overflows, pass_start()),
{
    let n = scalars.len();
    let mut state = LineBreakState { index: 0, line_start: 0, saved: None, first_word: true };
    let mut breaks: Vec<usize> = Vec::new();
    while state.index < scalars.len()
        invariant
            hard_breaks@.len() == scalars@.len(),
            overflow_oracle(overflows, scalars@.len() as int),
            break_state_wf(state, scalars@.len() as int),
            breaks@ + breaks_from(scalars@, hard_breaks@, overflows, state) == breaks_from(
                scalars@,
                hard_breaks@,
                overflows,
                pass_start(),
            ),
        decreases scalars@.len() - state.line_start, scalars@.len() - state.index,
    {
        let ghost before = state;
        let over = overflows(state.line_start, state.index);
        assert(over == overflows_at(overflows, before.line_start, before.index));
        let hard = hard_breaks[state.index];
        let step = line_break_step(&mut state, scalars, hard, over);
        proof {
            lemma_step_progress(before, scalars@, hard_breaks@[before.index as int], over);
        }
        match step {
            LineBreakStep::Wrap { after } => {
                let ghost old_breaks = breaks@;
                breaks.push(after);
                assert(breaks@ + breaks_from(scalars@, hard_breaks@, overflows, state) =~= old_breaks + (seq![after]
                    + breaks_from(scalars@, hard_breaks@, overflows, state)));
            },
            _ => {},
        }
    }
    assert(breaks@ + breaks_from(scalars@, hard_breaks@, overflows, state) =~= breaks@);
    breaks
}

/// A pass breaks each line at most once, in order: the characters it breaks
/// after are increasing, lie on or after the line it starts on and are
/// characters of the text.
pub proof fn law_breaks_are_increasing<F: Fn(usize, usize) -> bool>(
    scalars: Seq<VisibleScalar>,
    hard: Seq<bool>,
    overflows: F,
    s: LineBreakState,
)
    requires
        break_state_wf(s, scalars.len() as int),
    ensures
        ({
            let b = breaks_from(scalars, hard, overflows, s);
            &&& forall|i: int| 0 <= i < b.len() ==> s.line_start <= #[trigger] b[i] < scalars.len()
            &&& forall|i: int, j: int| 0 <= i < j < b.len() ==> b[i] < b[j]
        }),
    decreases scalars.len() - s.line_start, scalars.len() - s.index,
{
    if s.index < scalars.len() {
        let over = overflows_at(overflows, s.line_start, s.index);
        let (t, step) = break_step(s, scalars, hard[s.index as int], over);
        lemma_step_progress(s, scalars, hard[s.index as int], over);
        law_breaks_are_increasing(scalars, hard, overflows, t);
        let rest = breaks_from(scalars, hard, overflows, t);
        match step {
            LineBreakStep::Wrap { after } => {
                let b = seq![after] + rest;
                assert(b == breaks_from(scalars, hard, overflows, s));
                assert forall|i: int, j: int| 0 <= i < j < b.len() implies b[i] < b[j] by {
                    if i > 0 {
                        assert(b[i] == rest[i - 1]);
                    }
                    assert(b[j] == rest[j - 1]);
                }
                assert forall|i: int| 0 <= i < b.len() implies s.line_start <= #[trigger] b[i] < scalars.len() by {
                    if i > 0 {
                        assert(b[i] == rest[i - 1]);
                    }
                }
            },
            _ => {
                assert(rest == breaks_from(scalars, hard, overflows, s));
            },
        }
    }
}

/// `raw` with a line break inserted after each visible character listed in
/// `breaks` from the `k`-th on, copying from character `cursor`: the break
/// goes in front of the first character of the new line, and a soft hyphen
/// written as itself that a line breaks on is shown as `-`.
pub open spec fn wrapped_from(raw: Seq<char>, breaks: Seq<usize>, k: int, cursor: int) -> Seq<char>
    decreases breaks.len() - k,
{
    if k < 0 || k >= breaks.len() {
        raw.subrange(cursor, raw.len() as int)
    } else {
        let c = visible_char_ranges(raw);
        let a = breaks[k] as int;
        let insert = if a + 1 < c.len() { c[a + 1].0 } else { raw.len() as int };
        let hyphen = visible_scalars_spec(raw)[a].ch == '\u{00AD}' && raw.subrange(c[a].0, c[a].1) == seq!['\u{00AD}'];
        let line = if hyphen {
            raw.subrange(cursor, c[a].0) + seq!['-'] + raw.subrange(c[a].1, insert)
        } else {
            raw.subrange(cursor, insert)
        };
        line + seq!['\n'] + wrapped_from(raw, breaks, k + 1, insert)
    }
}

/// Breaks after visible characters `0..count`, in increasing order.
pub open spec fn valid_breaks(breaks: Seq<usize>, count: int) -> bool {
    &&& forall|i: int| 0 <= i < breaks.len() ==> #[trigger] breaks[i] < count
    &&& forall|i: int, j: int| 0 <= i < j < breaks.len() ==> breaks[i] < breaks[j]
}

fn char_index_of(offsets: &Vec<usize>, b: usize, Ghost(raw): Ghost<Seq<char>>, Ghost(i): Ghost<int>) -> (r: usize)
    requires
        offsets@.len() == raw.len() + 1,
        forall|t: int| 0 <= t <= raw.len() ==> offsets@[t] as nat == #[trigger] byte_offset(raw, t),
        0 <= i <= raw.len(),
        b == byte_offset(raw, i),
    ensures
        r == i,
{
    let mut t: usize = 0;
    while t < offsets.len() && offsets[t] < b
        invariant
            offsets@.len() == raw.len() + 1,
            forall|u: int| 0 <= u <= raw.len() ==> offsets@[u] as nat == #[trigger] byte_offset(raw, u),
            0 <= i <= raw.len(),
            b == byte_offset(raw, i),
            t <= i,
        decreases offsets.len() - t,
    {
        proof {
            if t == i {
                assert(offsets@[t as int] == b);
            }
        }
        t = t + 1;
        proof {
            if t > i {
                assert(false);
            }
        }
    }
    proof {
        if t < i {
            lemma_byte_offset_strict(raw, t as int, i);
        }
    }
    t
}

fn push_range(out: &mut String, chars: &Vec<char>, from: usize, to: usize)
    requires
        from <= to <= chars@.len(),
    ensures
        final(out)@ == old(out)@ + chars@.subrange(from as int, to as int),
{
    let mut i: usize = from;
    while i < to
        invariant
            from <= i <= to <= chars@.len(),
            out@ == old(out)@ + chars@.subrange(from as int, i as int),
        decreases to - i,
    {
        string_push(out, chars[i]);
        i = i + 1;
        assert(out@ =~= old(out)@ + chars@.subrange(from as int, i as int));
    }
}

/// Inserts line breaks into TMP markup after the visible characters listed
/// in `breaks`, without splitting tags.
#[verifier::rlimit(40)]
pub fn insert_line_breaks(raw: &str, breaks: &[usize]) -> (out: String)
    requires
        valid_breaks(breaks@, visible_scalars_spec(raw@).len() as int),
    ensures
        out@ == wrapped_from(raw@, breaks@, 0, 0),
{
    let (chars, offsets) = char_offsets(raw);
    let scalars = visible_scalars(raw);
    let ghost s = raw@;
    let ghost c = visible_char_ranges(s);
    proof {
        law_visible_scalars_cover_whole_characters(s);
    }
    let mut out = String::new();
    let mut cursor: usize = 0;
    let mut k: usize = 0;
    while k < breaks.len()
        invariant
            s == raw@,
            chars@ == s,
            offsets@.len() == s.len() + 1,
            forall|t: int| 0 <= t <= s.len() ==> offsets@[t] as nat == #[trigger] byte_offset(s, t),
            scalars@ == visible_scalars_spec(s),
            c == visible_char_ranges(s),
            c.len() == scalars@.len(),
            crate::tmp_text::markup::ordered_ranges(c, 0, s.len() as int),
            forall|t: int|
                0 <= t < scalars@.len() ==> {
                    &&& (#[trigger] scalars@[t]).source.start == byte_offset(s, c[t].0)
                    &&& scalars@[t].source.end == byte_offset(s, c[t].1)
                },
            valid_breaks(breaks@, scalars@.len() as int),
            k <= breaks@.len(),
            k > 0 ==> cursor == (if breaks@[k - 1] + 1 < c.len() { c[breaks@[k - 1] + 1].0 } else { s.len() as int }),
            k == 0 ==> cursor == 0,
            cursor <= s.len(),
            out@ + wrapped_from(s, breaks@, k as int, cursor as int) == wrapped_from(s, breaks@, 0, 0),
        decreases breaks.len() - k,
    {
        let a = breaks[k];
        let scalar = &scalars[a];
        let start = char_index_of(&offsets, scalar.source.start, Ghost(s), Ghost(c[a as int].0));
        let end = char_index_of(&offsets, scalar.source.end, Ghost(s), Ghost(c[a as int].1));
        let insert = if a < scalars.len() - 1 {
            char_index_of(&offsets, scalars[a + 1].source.start, Ghost(s), Ghost(c[a + 1].0))
        } else {
            chars.len()
        };
        proof {
            if k > 0 {
                let p = breaks@[k - 1] as int;
                assert(p < a);
                if p + 1 < a {
                    assert(c[p + 1].1 <= c[a as int].0);
                }
            }
            if a + 1 < c.len() {
                assert(c[a as int].1 <= c[a + 1].0);
            }
        }
        let hyphen = scalar.ch == '\u{00AD}' && end == start + 1 && chars[start] == '\u{00AD}';
        let ghost before = out@;
        proof {
            let piece = s.subrange(c[a as int].0, c[a as int].1);
            if end == start + 1 && chars@[start as int] == '\u{00AD}' {
                assert(piece =~= seq!['\u{00AD}']);
            }
            if piece == seq!['\u{00AD}'] {
                assert(piece.len() == 1);
                assert(piece[0] == s[start as int]);
            }
        }
        if hyphen {
            push_range(&mut out, &chars, cursor, start);
            string_push(&mut out, '-');
            push_range(&mut out, &chars, end, insert);
        } else {
            push_range(&mut out, &chars, cursor, insert);
        }
        string_push(&mut out, '\n');
        proof {
            assert(out@ + wrapped_from(s, breaks@, k + 1, insert as int) =~= before + wrapped_from(
                s,
                breaks@,
                k as int,
                cursor as int,
            ));
        }
        cursor = insert;
        k = k + 1;
    }
    push_range(&mut out, &chars, cursor, chars.len());
    out
}

/// Inserts soft line breaks into TMP markup without splitting tags.
///
/// `hard_breaks` holds one entry per visible character of `raw` as
/// [`visible_scalars`] reports them, set for a line feed; `overflows` is as
/// for [`soft_breaks`]. A break goes in front of the first character of the
/// new line; a soft hyphen the line breaks on is shown as `-`. The text is
/// refused when the entries do not match its visible characters.
pub fn wrap_markup<F: Fn(usize, usize) -> bool>(raw: &str, hard_breaks: &[bool], overflows: F) -> (r: Result<
    String,
    &'static str,
>)
    requires
        overflow_oracle(overflows, visible_scalars_spec(raw@).len() as int),
    ensures
        r is Err <==> hard_breaks@.len() != visible_scalars_spec(raw@).len(),
        r matches Ok(out) ==> out@ == wrapped_from(
            raw@,
            breaks_from(visible_scalars_spec(raw@), hard_breaks@, overflows, pass_start()),
            0,
            0,
        ),
        r matches Err(message) ==> message@ == "measured unit count does not match visible markup text"@,
{
    let scalars = visible_scalars(raw);
    if scalars.len() != hard_breaks.len() {
        return Err("measured unit count does not match visible markup text");
    }
    let breaks = soft_breaks(scalars.as_slice(), hard_breaks, overflows);
    proof {
        law_breaks_are_increasing(scalars@, hard_breaks@, overflows, pass_start());
    }
    Ok(insert_line_breaks(raw, breaks.as_slice()))
}


/// A line may break after a space, a tab, a hyphen-minus, the zero width
/// space and the soft hyphen outside `<nobr>`: placing one records a break
/// opportunity after it, and when the next character that takes width
/// overflows the line, the line breaks right after it.
pub proof fn law_spaces_and_hyphens_offer_breaks(s: LineBreakState, scalars: Seq<VisibleScalar>, overflows: bool)
    requires
        break_state_wf(s, scalars.len() as int),
        s.index + 1 < scalars.len(),
        !scalars[s.index as int].no_break,
        scalars[s.index as int].ch == ' ' || scalars[s.index as int].ch == '\t' || scalars[s.index as int].ch == '-'
            || scalars[s.index as int].ch == '\u{200B}' || scalars[s.index as int].ch == '\u{00AD}',
    ensures
        after_placing(s, scalars).saved == Some(s.index),
        after_placing(s, scalars).index == s.index + 1,
        after_placing(s, scalars).line_start == s.line_start,
        checks_width_spec(scalars[s.index + 1].ch) && overflows ==> break_step(
            after_placing(s, scalars),
            scalars,
            false,
            overflows,
        ).1 == (LineBreakStep::Wrap { after: s.index }),
{
}

/// The non-breaking space, figure space, non-breaking hyphen, narrow
/// non-breaking space and word joiner offer no break opportunity of their
/// own.
pub proof fn law_non_breaking_characters_offer_no_break(ch: char)
    requires
        ch == '\u{00A0}' || ch == '\u{2007}' || ch == '\u{2011}' || ch == '\u{202F}' || ch == '\u{2060}',
    ensures
        !is_break_character_spec(ch),
{
}

} // verus!
