//! TextMesh Pro text rules shared by every layout engine.
//!
//! [`markup`] reads the rich-text tags, [`line_breaking`] decides where lines
//! may wrap and [`glyph`] picks the glyph drawn for each character.
//! [`strip_tmp_tags`] and [`numeric_text_runs`] report the visible text the
//! same way the layout engines see it, so the character indices they produce
//! line up with laid-out glyphs.

pub mod glyph;
pub mod line_breaking;
pub mod markup;
pub mod style;

use vstd::prelude::*;

use crate::unicode::string_from_chars;
use markup::{is_ascii_digit, visible_scalars, visible_scalars_spec, VisibleScalar};

verus! {

/// A run of ASCII digits in the visible text, indexed by visible character.
#[derive(Clone, Debug, PartialEq, Eq)]
pub struct NumericTextRun {
    pub text: String,
    pub plain_start: u32,
    pub plain_end: u32,
}

/// The visible characters of `raw`.
pub open spec fn visible_text(raw: Seq<char>) -> Seq<char> {
    visible_scalars_spec(raw).map_values(|v: VisibleScalar| v.ch)
}

fn visible_chars(source: &str) -> (chars: Vec<char>)
    ensures
        chars@ == visible_text(source@),
{
    let scalars = visible_scalars(source);
    let mut chars: Vec<char> = Vec::new();
    let mut i: usize = 0;
    while i < scalars.len()
        invariant
            scalars@ == visible_scalars_spec(source@),
            i <= scalars@.len(),
            chars@ == visible_text(source@).take(i as int),
        decreases scalars.len() - i,
    {
        chars.push(scalars[i].ch);
        i = i + 1;
        assert(chars@ =~= visible_text(source@).take(i as int));
    }
    assert(chars@ =~= visible_text(source@));
    chars
}

/// The text left once markup is resolved: accepted tags removed, `<br>`,
/// `<nbsp>` and `<zwsp>` replaced by their characters, and anything that is
/// not a valid tag kept as written.
pub fn strip_tmp_tags(source: &str) -> (text: String)
    ensures
        text@ == visible_text(source@),
{
    let chars = visible_chars(source);
    string_from_chars(chars.as_slice())
}

/// Index just past the run of ASCII digits starting at `i`.
pub open spec fn digit_run_end(chars: Seq<char>, i: int) -> int
    decreases chars.len() - i,
{
    if 0 <= i < chars.len() && is_ascii_digit(chars[i]) {
        digit_run_end(chars, i + 1)
    } else {
        i
    }
}

/// The maximal runs of ASCII digits of `chars` from `cursor` on, as
/// character index ranges.
pub open spec fn digit_runs_from(chars: Seq<char>, cursor: int) -> Seq<(int, int)>
    decreases chars.len() - cursor,
{
    if cursor < 0 || cursor >= chars.len() {
        seq![]
    } else if !is_ascii_digit(chars[cursor]) {
        digit_runs_from(chars, cursor + 1)
    } else {
        let end = digit_run_end(chars, cursor);
        proof {
            lemma_digit_run_end(chars, cursor);
        }
        if end <= cursor {
            seq![]
        } else {
            seq![(cursor, end)] + digit_runs_from(chars, end)
        }
    }
}

pub open spec fn numeric_run_of(chars: Seq<char>, run: (int, int)) -> (Seq<char>, u32, u32) {
    (chars.subrange(run.0, run.1), run.0 as u32, run.1 as u32)
}

pub open spec fn run_view(r: NumericTextRun) -> (Seq<char>, u32, u32) {
    (r.text@, r.plain_start, r.plain_end)
}

pub proof fn lemma_digit_run_end(chars: Seq<char>, i: int)
    requires
        0 <= i <= chars.len(),
    ensures
        i <= digit_run_end(chars, i) <= chars.len(),
        forall|k: int| i <= k < digit_run_end(chars, i) ==> is_ascii_digit(#[trigger] chars[k]),
        digit_run_end(chars, i) < chars.len() ==> !is_ascii_digit(chars[digit_run_end(chars, i)]),
    decreases chars.len() - i,
{
    if i < chars.len() && is_ascii_digit(chars[i]) {
        lemma_digit_run_end(chars, i + 1);
    }
}

/// What the runs from `c` on are: each is a nonempty block of ASCII digits
/// with no digit just before or just after it, the blocks come in order with
/// a gap between them, and every digit from `c` on lies in one of them.
pub open spec fn maximal_digit_runs(chars: Seq<char>, runs: Seq<(int, int)>, c: int) -> bool {
    &&& forall|i: int|
        0 <= i < runs.len() ==> {
            let (s, e) = #[trigger] runs[i];
            &&& c <= s < e <= chars.len()
            &&& forall|k: int| s <= k < e ==> is_ascii_digit(#[trigger] chars[k])
            &&& s == 0 || !is_ascii_digit(chars[s - 1])
            &&& e == chars.len() || !is_ascii_digit(chars[e])
        }
    &&& forall|i: int, j: int| 0 <= i < j < runs.len() ==> (#[trigger] runs[i]).1 < (#[trigger] runs[j]).0
    &&& forall|k: int|
        c <= k < chars.len() && is_ascii_digit(#[trigger] chars[k]) ==> exists|i: int|
            0 <= i < runs.len() && (#[trigger] runs[i]).0 <= k < runs[i].1
}

proof fn lemma_digit_runs_from(chars: Seq<char>, c: int)
    requires
        0 <= c <= chars.len(),
        c == 0 || c == chars.len() || !is_ascii_digit(chars[c - 1]) || !is_ascii_digit(chars[c]),
    ensures
        maximal_digit_runs(chars, digit_runs_from(chars, c), c),
    decreases chars.len() - c,
{
    let runs = digit_runs_from(chars, c);
    if c >= chars.len() {
    } else if !is_ascii_digit(chars[c]) {
        lemma_digit_runs_from(chars, c + 1);
        assert(runs == digit_runs_from(chars, c + 1));
    } else {
        lemma_digit_run_end(chars, c);
        let end = digit_run_end(chars, c);
        assert(end > c);
        lemma_digit_runs_from(chars, end);
        let rest = digit_runs_from(chars, end);
        assert(runs == seq![(c, end)] + rest);
        assert forall|i: int| 0 < i < runs.len() implies (#[trigger] runs[i]).0 > end by {
            assert(runs[i] == rest[i - 1]);
            let s = rest[i - 1].0;
            assert(is_ascii_digit(chars[s]));
        }
        assert forall|i: int, j: int| 0 <= i < j < runs.len() implies (#[trigger] runs[i]).1 < (#[trigger] runs[j]).0 by {
            if i > 0 {
                assert(runs[i] == rest[i - 1] && runs[j] == rest[j - 1]);
            }
        }
        assert forall|k: int| c <= k < chars.len() && is_ascii_digit(#[trigger] chars[k]) implies exists|i: int|
            0 <= i < runs.len() && (#[trigger] runs[i]).0 <= k < runs[i].1 by {
            if k < end {
                assert(runs[0] == (c, end));
            } else {
                if k == end {
                    assert(false);
                }
                let i = choose|i: int| 0 <= i < rest.len() && (#[trigger] rest[i]).0 <= k < rest[i].1;
                assert(runs[i + 1] == rest[i]);
            }
        }
        assert forall|i: int| 0 <= i < runs.len() implies {
            let (s, e) = #[trigger] runs[i];
            &&& c <= s < e <= chars.len()
            &&& forall|k: int| s <= k < e ==> is_ascii_digit(#[trigger] chars[k])
            &&& s == 0 || !is_ascii_digit(chars[s - 1])
            &&& e == chars.len() || !is_ascii_digit(chars[e])
        } by {
            if i > 0 {
                assert(runs[i] == rest[i - 1]);
            }
        }
    }
}

/// The runs that [`numeric_text_runs`] reports are exactly the maximal
/// blocks of ASCII digits of the visible text: each is a nonempty block of
/// digits with no digit just before or just after it, they come in order
/// and apart, and every digit of the text lies in one of them.
pub proof fn law_numeric_runs_are_the_maximal_digit_runs(chars: Seq<char>)
    ensures
        maximal_digit_runs(chars, digit_runs_from(chars, 0), 0),
{
    lemma_digit_runs_from(chars, 0);
}

/// Runs of ASCII digits in the visible text, indexed by visible character.
pub fn numeric_text_runs(source: &str) -> (runs: Vec<NumericTextRun>)
    ensures
        runs@.map_values(|r: NumericTextRun| run_view(r))
            == digit_runs_from(visible_text(source@), 0).map_values(|run: (int, int)| numeric_run_of(visible_text(source@), run)),
{
    let chars = visible_chars(source);
    let ghost text = visible_text(source@);
    let ghost all = digit_runs_from(text, 0).map_values(|run: (int, int)| numeric_run_of(text, run));
    let mut runs: Vec<NumericTextRun> = Vec::new();
    let mut cursor: usize = 0;
    while cursor < chars.len()
        invariant
            chars@ == text,
            cursor <= chars@.len(),
            all == digit_runs_from(text, 0).map_values(|run: (int, int)| numeric_run_of(text, run)),
            runs@.map_values(|r: NumericTextRun| run_view(r))
                + digit_runs_from(text, cursor as int).map_values(|run: (int, int)| numeric_run_of(text, run)) == all,
        decreases chars@.len() - cursor,
    {
        if !('0' <= chars[cursor] && chars[cursor] <= '9') {
            proof {
                assert(digit_runs_from(text, cursor as int) == digit_runs_from(text, cursor + 1));
            }
            cursor = cursor + 1;
            continue;
        }
        let start = cursor;
        proof {
            lemma_digit_run_end(text, start as int);
        }
        while cursor < chars.len() && '0' <= chars[cursor] && chars[cursor] <= '9'
            invariant
                chars@ == text,
                start < cursor || start == cursor,
                cursor <= chars@.len(),
                digit_run_end(text, start as int) == digit_run_end(text, cursor as int),
            decreases chars@.len() - cursor,
        {
            cursor = cursor + 1;
        }
        let mut piece: Vec<char> = Vec::new();
        let mut k = start;
        while k < cursor
            invariant
                start <= k <= cursor <= chars@.len(),
                piece@ == chars@.subrange(start as int, k as int),
            decreases cursor - k,
        {
            piece.push(chars[k]);
            k = k + 1;
            assert(piece@ =~= chars@.subrange(start as int, k as int));
        }
        let run = NumericTextRun {
            text: string_from_chars(piece.as_slice()),
            plain_start: start as u32,
            plain_end: cursor as u32,
        };
        proof {
            assert(digit_run_end(text, start as int) == cursor as int);
            let ghost rest = digit_runs_from(text, cursor as int);
            assert(digit_runs_from(text, start as int) == seq![(start as int, cursor as int)] + rest);
            assert(run_view(run) == numeric_run_of(text, (start as int, cursor as int)));
            assert((seq![(start as int, cursor as int)] + rest).map_values(|run: (int, int)| numeric_run_of(text, run))
                =~= seq![numeric_run_of(text, (start as int, cursor as int))]
                + rest.map_values(|run: (int, int)| numeric_run_of(text, run)));
            assert(runs@.push(run).map_values(|r: NumericTextRun| run_view(r))
                =~= runs@.map_values(|r: NumericTextRun| run_view(r)).push(run_view(run)));
        }
        runs.push(run);
        proof {
            assert(runs@.map_values(|r: NumericTextRun| run_view(r))
                + digit_runs_from(text, cursor as int).map_values(|run: (int, int)| numeric_run_of(text, run)) =~= all);
        }
    }
    proof {
        assert(digit_runs_from(text, cursor as int).map_values(|run: (int, int)| numeric_run_of(text, run)) =~= Seq::<(Seq<char>, u32, u32)>::empty());
        assert(runs@.map_values(|r: NumericTextRun| run_view(r)) =~= all);
    }
    runs
}

} // verus!
