//! Character-level facts the text rules rely on: UTF-8 widths and byte
//! offsets, and the character classes TextMesh Pro tests with.

use vstd::prelude::*;
use vstd::utf8::*;

verus! {

broadcast use vstd::string::group_string_axioms;

/// Bytes the UTF-8 encoding of `c` takes.
pub open spec fn utf8_width(c: char) -> nat {
    encode_scalar(c as u32).len()
}

/// Byte offset of the character at index `i` of `s`, i.e. the length of the
/// UTF-8 encoding of the first `i` characters.
pub open spec fn byte_offset(s: Seq<char>, i: int) -> nat {
    encode_utf8(s.take(i)).len()
}

proof fn lemma_encode_concat(a: Seq<char>, b: Seq<char>)
    ensures
        encode_utf8(a + b) == encode_utf8(a) + encode_utf8(b),
    decreases a.len(),
{
    if a.len() == 0 {
        assert(a + b =~= b);
        assert(encode_utf8(a) =~= Seq::<u8>::empty());
        assert(encode_utf8(a) + encode_utf8(b) =~= encode_utf8(b));
    } else {
        assert((a + b).drop_first() =~= a.drop_first() + b);
        assert((a + b)[0] == a[0]);
        lemma_encode_concat(a.drop_first(), b);
        assert(encode_utf8(a + b) =~= encode_utf8(a) + encode_utf8(b));
    }
}

/// One more character moves the byte offset by that character's width.
pub proof fn lemma_byte_offset_step(s: Seq<char>, i: int)
    requires
        0 <= i < s.len(),
    ensures
        byte_offset(s, i + 1) == byte_offset(s, i) + utf8_width(s[i]),
{
    assert(s.take(i + 1) =~= s.take(i) + seq![s[i]]);
    lemma_encode_concat(s.take(i), seq![s[i]]);
    assert(seq![s[i]].drop_first() =~= Seq::<char>::empty());
    assert(encode_utf8(Seq::<char>::empty()) =~= Seq::<u8>::empty());
    assert(encode_utf8(seq![s[i]]) =~= encode_scalar(s[i] as u32));
}

/// Byte offsets grow with the character index.
pub proof fn lemma_byte_offset_mono(s: Seq<char>, i: int, j: int)
    requires
        0 <= i <= j <= s.len(),
    ensures
        byte_offset(s, i) <= byte_offset(s, j),
{
    assert(s.take(j) =~= s.take(i) + s.subrange(i, j));
    lemma_encode_concat(s.take(i), s.subrange(i, j));
}

/// The byte length of `s`, which is the byte offset past its last character.
pub fn byte_len(s: &str) -> (n: usize)
    ensures
        n as nat == byte_offset(s@, s@.len() as int),
        n == s.len(),
{
    broadcast use vstd::slice::axiom_spec_len;
    assert(s@.take(s@.len() as int) =~= s@);
    s.as_bytes().len()
}

/// `char::len_utf8`: the number of bytes `c` takes in UTF-8.
pub fn len_utf8(c: char) -> (n: usize)
    ensures
        n == utf8_width(c),
        1 <= n <= 4,
{
    let v = c as u32;
    if v <= 0x7F {
        1
    } else if v <= 0x7FF {
        2
    } else if v <= 0xFFFF && !(0xD800 <= v && v <= 0xDFFF) {
        3
    } else {
        4
    }
}

/// The characters of `raw` and the byte offset of each, with the length of
/// `raw` as the offset one past the last character.
pub fn char_offsets(raw: &str) -> (r: (Vec<char>, Vec<usize>))
    ensures
        r.0@ == raw@,
        r.1.len() == raw@.len() + 1,
        forall|i: int| 0 <= i <= raw@.len() ==> r.1[i] as nat == #[trigger] byte_offset(raw@, i),
        r.1[raw@.len() as int] == raw.len(),
{
    let mut chars: Vec<char> = Vec::new();
    let mut offsets: Vec<usize> = Vec::new();
    offsets.push(0);
    let total = byte_len(raw);
    proof {
        assert(raw@.take(0) =~= Seq::<char>::empty());
        assert(encode_utf8(Seq::<char>::empty()) =~= Seq::<u8>::empty());
    }
    let ghost s = raw@;
    for c in it: raw.chars()
        invariant
            it.seq() == s,
            s == raw@,
            total as nat == byte_offset(s, s.len() as int),
            total == raw.len(),
            chars@ == s.take(it.index() as int),
            offsets.len() == it.index() + 1,
            forall|i: int| 0 <= i <= it.index() ==> offsets[i] as nat == #[trigger] byte_offset(s, i),
    {
        let ghost k = it.index();
        let last = offsets[offsets.len() - 1];
        let w = len_utf8(c);
        proof {
            lemma_byte_offset_step(s, k as int);
            lemma_byte_offset_mono(s, k as int + 1, s.len() as int);
        }
        chars.push(c);
        offsets.push(last + w);
        assert(chars@ =~= s.take(k as int + 1));
    }
    assert(chars@ =~= raw@);
    (chars, offsets)
}

/// `char::to_ascii_uppercase`.
pub open spec fn upper_ascii(c: char) -> char {
    if 'a' <= c && c <= 'z' {
        ((c as u32) - 32) as char
    } else {
        c
    }
}

/// `char::to_ascii_uppercase`.
pub fn to_ascii_upper(c: char) -> (r: char)
    ensures
        r == upper_ascii(c),
{
    if 'a' <= c && c <= 'z' {
        let b = c as u8;
        (b - 32) as char
    } else {
        c
    }
}

/// Whether two character slices hold the same characters.
pub fn chars_eq(a: &[char], b: &[char]) -> (r: bool)
    ensures
        r == (a@ == b@),
{
    if a.len() != b.len() {
        return false;
    }
    let mut i: usize = 0;
    while i < a.len()
        invariant
            a@.len() == b@.len(),
            i <= a@.len(),
            forall|j: int| 0 <= j < i ==> a@[j] == b@[j],
        decreases a.len() - i,
    {
        if a[i] != b[i] {
            return false;
        }
        i = i + 1;
    }
    assert(a@ =~= b@);
    true
}

/// Calls `String::push`; trusted to append `c`, as std documents it.
#[verifier::external_body]
pub(crate) fn string_push(s: &mut String, c: char)
    ensures
        final(s)@ == old(s)@.push(c),
{
    s.push(c);
}

/// A `String` holding exactly the characters of `chars`.
pub fn string_from_chars(chars: &[char]) -> (s: String)
    ensures
        s@ == chars@,
{
    let mut s = String::new();
    let mut i: usize = 0;
    while i < chars.len()
        invariant
            i <= chars@.len(),
            s@ == chars@.take(i as int),
        decreases chars.len() - i,
    {
        string_push(&mut s, chars[i]);
        i = i + 1;
        assert(s@ =~= chars@.take(i as int));
    }
    assert(chars@.take(chars@.len() as int) =~= chars@);
    s
}

/// `char::is_whitespace`: the Unicode `White_Space` property.
pub open spec fn is_whitespace_spec(c: char) -> bool {
    let v = c as u32;
    (0x09 <= v && v <= 0x0D) || v == 0x20 || v == 0x85 || v == 0xA0 || v == 0x1680
        || (0x2000 <= v && v <= 0x200A) || v == 0x2028 || v == 0x2029 || v == 0x202F
        || v == 0x205F || v == 0x3000
}

/// `char::is_whitespace`.
pub fn is_whitespace(c: char) -> (r: bool)
    ensures
        r == is_whitespace_spec(c),
{
    let v = c as u32;
    (0x09 <= v && v <= 0x0D) || v == 0x20 || v == 0x85 || v == 0xA0 || v == 0x1680
        || (0x2000 <= v && v <= 0x200A) || v == 0x2028 || v == 0x2029 || v == 0x202F
        || v == 0x205F || v == 0x3000
}

/// `char::is_control`: the general category `Cc`.
pub open spec fn is_control_spec(c: char) -> bool {
    let v = c as u32;
    v <= 0x1F || (0x7F <= v && v <= 0x9F)
}

/// `char::is_control`.
pub fn is_control(c: char) -> (r: bool)
    ensures
        r == is_control_spec(c),
{
    let v = c as u32;
    v <= 0x1F || (0x7F <= v && v <= 0x9F)
}

/// Byte offsets grow strictly with the character index.
pub proof fn lemma_byte_offset_strict(s: Seq<char>, i: int, j: int)
    requires
        0 <= i < j <= s.len(),
    ensures
        byte_offset(s, i) < byte_offset(s, j),
    decreases j - i,
{
    lemma_byte_offset_step(s, j - 1);
    assert(utf8_width(s[j - 1]) >= 1);
    if i < j - 1 {
        lemma_byte_offset_strict(s, i, j - 1);
    }
}

} // verus!
