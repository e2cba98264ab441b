//! Small string operations that the master-data and profile rules share:
//! comparison, prefixes, trimming, ASCII case folding and decimal digits.

use vstd::prelude::*;

use crate::unicode::{is_whitespace, is_whitespace_spec, string_push};

verus! {

broadcast use vstd::string::group_string_axioms;

/// The characters of `s`.
pub fn str_chars(s: &str) -> (chars: Vec<char>)
    ensures
        chars@ == s@,
{
    let mut chars: Vec<char> = Vec::new();
    for c in it: s.chars()
        invariant
            it.seq() == s@,
            chars@ == it.seq().take(it.index() as int),
    {
        let ghost k = it.index();
        chars.push(c);
        assert(chars@ =~= it.seq().take(k + 1));
    }
    assert(s@.take(s@.len() as int) =~= s@);
    chars
}

/// Whether two strings hold the same characters.
pub fn str_eq(a: &str, b: &str) -> (r: bool)
    ensures
        r == (a@ == b@),
{
    let x = str_chars(a);
    let y = str_chars(b);
    crate::unicode::chars_eq(x.as_slice(), y.as_slice())
}

/// Whether the characters of `v` are those of `s`.
pub fn chars_eq_str(v: &[char], s: &str) -> (r: bool)
    ensures
        r == (v@ == s@),
{
    let y = str_chars(s);
    crate::unicode::chars_eq(v, y.as_slice())
}

/// `str::starts_with` for a string prefix.
pub open spec fn has_prefix(s: Seq<char>, prefix: Seq<char>) -> bool {
    prefix.len() <= s.len() && s.subrange(0, prefix.len() as int) == prefix
}

/// `str::starts_with`.
pub fn str_starts_with(s: &str, prefix: &str) -> (r: bool)
    ensures
        r == has_prefix(s@, prefix@),
{
    let x = str_chars(s);
    let p = str_chars(prefix);
    if p.len() > x.len() {
        return false;
    }
    let mut i: usize = 0;
    while i < p.len()
        invariant
            p@ == prefix@,
            x@ == s@,
            p@.len() <= x@.len(),
            i <= p@.len(),
            forall|j: int| 0 <= j < i ==> x@[j] == p@[j],
        decreases p.len() - i,
    {
        if x[i] != p[i] {
            assert(s@.subrange(0, prefix@.len() as int)[i as int] != prefix@[i as int]);
            return false;
        }
        i = i + 1;
    }
    assert(s@.subrange(0, prefix@.len() as int) =~= prefix@);
    true
}

/// Index of the first character of `s` at or after `i` that is not white
/// space (`s.len()` when there is none).
pub open spec fn first_non_space(s: Seq<char>, i: int) -> int
    decreases s.len() - i,
{
    if i >= s.len() || !is_whitespace_spec(s[i]) {
        i
    } else {
        first_non_space(s, i + 1)
    }
}

/// One past the last character of `s` before `j` that is not white space
/// (`0` when there is none).
pub open spec fn last_non_space_end(s: Seq<char>, j: int) -> int
    decreases j,
{
    if j <= 0 || !is_whitespace_spec(s[j - 1]) {
        j
    } else {
        last_non_space_end(s, j - 1)
    }
}

/// `str::trim`: `s` without leading and trailing white space.
pub open spec fn trim_spec(s: Seq<char>) -> Seq<char> {
    let start = first_non_space(s, 0);
    let end = last_non_space_end(s, s.len() as int);
    if start >= end {
        Seq::empty()
    } else {
        s.subrange(start, end)
    }
}

/// `char::to_ascii_lowercase`.
pub open spec fn lower_ascii(c: char) -> char {
    if 'A' <= c && c <= 'Z' {
        ((c as u32) + 32) as char
    } else {
        c
    }
}

/// `char::to_ascii_lowercase`.
pub fn to_ascii_lower(c: char) -> (r: char)
    ensures
        r == lower_ascii(c),
{
    if 'A' <= c && c <= 'Z' {
        let b = c as u8;
        (b + 32) as char
    } else {
        c
    }
}

/// `str::to_ascii_lowercase` on a character sequence.
pub open spec fn lower_ascii_seq(s: Seq<char>) -> Seq<char> {
    s.map_values(|c: char| lower_ascii(c))
}

/// `s.trim().to_ascii_lowercase()` as a character vector.
pub fn trimmed_lower(s: &str) -> (r: Vec<char>)
    ensures
        r@ == lower_ascii_seq(trim_spec(s@)),
{
    let chars = str_chars(s);
    let ghost cs = s@;
    let mut start: usize = 0;
    while start < chars.len() && is_whitespace(chars[start])
        invariant
            chars@ == cs,
            start <= cs.len(),
            first_non_space(cs, 0) == first_non_space(cs, start as int),
        decreases chars.len() - start,
    {
        start = start + 1;
    }
    let mut end: usize = chars.len();
    while end > 0 && is_whitespace(chars[end - 1])
        invariant
            chars@ == cs,
            end <= cs.len(),
            last_non_space_end(cs, cs.len() as int) == last_non_space_end(cs, end as int),
        decreases end,
    {
        end = end - 1;
    }
    assert(start as int == first_non_space(cs, 0));
    assert(end as int == last_non_space_end(cs, cs.len() as int));
    let mut out: Vec<char> = Vec::new();
    if start < end {
        let mut i: usize = start;
        while i < end
            invariant
                chars@ == cs,
                start <= i <= end <= cs.len(),
                out@ == lower_ascii_seq(cs.subrange(start as int, i as int)),
            decreases end - i,
        {
            out.push(to_ascii_lower(chars[i]));
            i = i + 1;
            assert(out@ =~= lower_ascii_seq(cs.subrange(start as int, i as int)));
        }
    } else {
        assert(out@ =~= lower_ascii_seq(Seq::<char>::empty()));
    }
    out
}

/// Decimal digits of `n`, most significant first, with no leading zero
/// (`"0"` for zero).
pub open spec fn decimal_digits(n: nat) -> Seq<char>
    decreases n,
{
    if n < 10 {
        seq![digit_char(n)]
    } else {
        decimal_digits(n / 10).push(digit_char(n % 10))
    }
}

/// The ASCII digit for `d` (`d < 10`).
pub open spec fn digit_char(d: nat) -> char {
    (('0' as u32) + d) as char
}

/// How `format!("{n:0w$}")` writes an integer: a minus sign for a negative
/// one, then the digits, padded with zeros in between to `width` characters.
pub open spec fn padded_decimal(n: int, width: nat) -> Seq<char> {
    let digits = decimal_digits(if n < 0 { (-n) as nat } else { n as nat });
    let sign: Seq<char> = if n < 0 { seq!['-'] } else { Seq::empty() };
    let pad = if sign.len() + digits.len() < width {
        (width - sign.len() - digits.len()) as nat
    } else {
        0
    };
    sign + Seq::new(pad, |_i: int| '0') + digits
}

/// The decimal digits of `n`.
pub fn digits_of(n: u64) -> (digits: Vec<char>)
    ensures
        digits@ == decimal_digits(n as nat),
    decreases n,
{
    if n < 10 {
        let c = (n as u8 + 48) as char;
        let mut v: Vec<char> = Vec::new();
        v.push(c);
        assert(v@ =~= decimal_digits(n as nat));
        v
    } else {
        let mut v = digits_of(n / 10);
        let c = ((n % 10) as u8 + 48) as char;
        v.push(c);
        v
    }
}

/// Appends the characters of `chars` to `s`.
pub fn push_chars(s: &mut String, chars: &[char])
    ensures
        final(s)@ == old(s)@ + chars@,
{
    let mut i: usize = 0;
    while i < chars.len()
        invariant
            i <= chars@.len(),
            s@ == old(s)@ + chars@.take(i as int),
        decreases chars.len() - i,
    {
        string_push(s, chars[i]);
        i = i + 1;
        assert(s@ =~= old(s)@ + chars@.take(i as int));
    }
    assert(chars@.take(chars@.len() as int) =~= chars@);
}

/// Appends `n` as `format!("{n:0width$}")` writes it.
pub fn push_padded_decimal(s: &mut String, n: i64, width: usize)
    requires
        n > i64::MIN,
    ensures
        final(s)@ == old(s)@ + padded_decimal(n as int, width as nat),
{
    let magnitude: u64 = if n < 0 { (-n) as u64 } else { n as u64 };
    let digits = digits_of(magnitude);
    let ghost start = s@;
    let mut used: usize = 0;
    if n < 0 {
        string_push(s, '-');
        used = 1;
    }
    let ghost signed = s@;
    let mut pad: usize = 0;
    if digits.len() < width && used < width - digits.len() {
        pad = width - digits.len() - used;
    }
    let mut i: usize = 0;
    while i < pad
        invariant
            i <= pad,
            s@ == signed + Seq::new(i as nat, |_k: int| '0'),
        decreases pad - i,
    {
        string_push(s, '0');
        i = i + 1;
        assert(s@ =~= signed + Seq::new(i as nat, |_k: int| '0'));
    }
    push_chars(s, digits.as_slice());
    proof {
        let sign: Seq<char> = if n < 0 { seq!['-'] } else { Seq::empty() };
        assert(signed =~= start + sign);
        assert(s@ =~= start + padded_decimal(n as int, width as nat));
    }
}

proof fn lemma_first_non_space(s: Seq<char>, i: int)
    requires
        0 <= i <= s.len(),
    ensures
        i <= first_non_space(s, i) <= s.len(),
        first_non_space(s, i) < s.len() ==> !is_whitespace_spec(s[first_non_space(s, i)]),
    decreases s.len() - i,
{
    if i < s.len() && is_whitespace_spec(s[i]) {
        lemma_first_non_space(s, i + 1);
    }
}

proof fn lemma_last_non_space_end(s: Seq<char>, j: int)
    requires
        0 <= j <= s.len(),
    ensures
        0 <= last_non_space_end(s, j) <= j,
        last_non_space_end(s, j) > 0 ==> !is_whitespace_spec(s[last_non_space_end(s, j) - 1]),
    decreases j,
{
    if j > 0 && is_whitespace_spec(s[j - 1]) {
        lemma_last_non_space_end(s, j - 1);
    }
}

/// A string that neither starts nor ends with white space is its own trim.
proof fn lemma_trim_of_trimmed(s: Seq<char>)
    requires
        s.len() > 0 ==> !is_whitespace_spec(s[0]) && !is_whitespace_spec(s[s.len() - 1]),
    ensures
        trim_spec(s) == s,
{
    if s.len() > 0 {
        assert(first_non_space(s, 0) == 0);
        assert(last_non_space_end(s, s.len() as int) == s.len());
        assert(s.subrange(0, s.len() as int) =~= s);
    } else {
        assert(trim_spec(s) =~= s);
    }
}

/// Lowercasing keeps a character's white-space class.
proof fn lemma_lower_keeps_space(c: char)
    ensures
        is_whitespace_spec(lower_ascii(c)) == is_whitespace_spec(c),
        lower_ascii(lower_ascii(c)) == lower_ascii(c),
{
}

/// Trimming and lowercasing a trimmed, lowercased string changes nothing.
pub proof fn lemma_trim_lower_is_stable(s: Seq<char>)
    ensures
        lower_ascii_seq(trim_spec(lower_ascii_seq(trim_spec(s)))) == lower_ascii_seq(trim_spec(s)),
{
    let t = trim_spec(s);
    lemma_first_non_space(s, 0);
    lemma_last_non_space_end(s, s.len() as int);
    let l = lower_ascii_seq(t);
    if l.len() > 0 {
        lemma_lower_keeps_space(t[0]);
        lemma_lower_keeps_space(t[t.len() - 1]);
    }
    lemma_trim_of_trimmed(l);
    assert forall|i: int| 0 <= i < l.len() implies lower_ascii(l[i]) == l[i] by {
        lemma_lower_keeps_space(t[i]);
    }
    assert(lower_ascii_seq(l) =~= l);
}

/// A word of lowercase ASCII letters is its own trimmed, lowercased form.
pub proof fn lemma_plain_lower_word(w: Seq<char>)
    requires
        forall|i: int| 0 <= i < w.len() ==> 'a' <= #[trigger] w[i] <= 'z',
    ensures
        lower_ascii_seq(trim_spec(w)) == w,
{
    lemma_trim_of_trimmed(w);
    assert(lower_ascii_seq(w) =~= w);
}

} // verus!
