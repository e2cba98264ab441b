//! TextMesh Pro rich-text markup.
//!
//! [`visible_scalars`] lists the characters the markup leaves in the text
//! together with the source bytes each one came from. A `<...>` sequence that
//! TextMesh Pro would not accept as a tag stays in the text as literal
//! characters.
//!
//! Tag names match in all-lowercase or all-uppercase form only, and named
//! colours and alignment values in lowercase only. `<br>`, `<nbsp>` and
//! `<zwsp>` are replaced by their characters before any tag is read, in any
//! letter case and even inside `<noparse>`.

use std::ops::Range;
use vstd::prelude::*;

use crate::unicode::{byte_offset, char_offsets, chars_eq, to_ascii_upper, upper_ascii};

verus! {

/// A character of the text once the pre-markup replacements are made, with
/// the byte range of the source that produced it.
#[derive(Clone, Copy, Debug, PartialEq, Eq)]
pub struct SourceScalar {
    pub ch: char,
    pub start: usize,
    pub end: usize,
}

/// Characters that end the name a replacement tag is matched by.
pub open spec fn is_replacement_name_stop(c: char) -> bool {
    c == '>' || c == '=' || c == ' '
}

/// Up to `limit` characters from `j` that precede the first `>`, `=` or
/// space, in ASCII upper case.
pub open spec fn replacement_name_from(chars: Seq<char>, j: int, limit: nat) -> Seq<char>
    decreases limit,
{
    if limit == 0 || j < 0 || j >= chars.len() || is_replacement_name_stop(chars[j]) {
        seq![]
    } else {
        seq![upper_ascii(chars[j])] + replacement_name_from(chars, j + 1, (limit - 1) as nat)
    }
}

/// The replacement a `<` at `i` starts: the character it becomes (none for
/// `</style>`) and the number of characters it consumes.
pub open spec fn replacement(chars: Seq<char>, i: int) -> Option<(Option<char>, int)> {
    if !(0 <= i < chars.len()) || chars[i] != '<' {
        None
    } else {
        let name = replacement_name_from(chars, i + 1, 16);
        if name == seq!['B', 'R'] {
            Some((Some('\n'), 4))
        } else if name == seq!['N', 'B', 'S', 'P'] {
            Some((Some('\u{00A0}'), 6))
        } else if name == seq!['Z', 'W', 'S', 'P'] {
            Some((Some('\u{200B}'), 6))
        } else if name == seq!['/', 'S', 'T', 'Y', 'L', 'E'] {
            Some((None, 8))
        } else {
            None
        }
    }
}

pub open spec fn source_scalar(s: Seq<char>, ch: char, from: int, to: int) -> SourceScalar {
    SourceScalar { ch, start: byte_offset(s, from) as usize, end: byte_offset(s, to) as usize }
}

/// The pre-markup characters of `s` from character index `i` on.
pub open spec fn preprocess_from(s: Seq<char>, i: int) -> Seq<SourceScalar>
    decreases s.len() - i,
{
    if i < 0 || i >= s.len() {
        seq![]
    } else {
        match replacement(s, i) {
            Some((replaced, length)) => {
                let end = if i + length < s.len() { i + length } else { s.len() as int };
                if end <= i {
                    seq![]
                } else {
                    match replaced {
                        Some(c) => seq![source_scalar(s, c, i, end)] + preprocess_from(s, end),
                        None => preprocess_from(s, end),
                    }
                }
            },
            None => seq![source_scalar(s, s[i], i, i + 1)] + preprocess_from(s, i + 1),
        }
    }
}

/// The name a replacement tag starting at `index` is matched by.
fn replacement_name(chars: &Vec<char>, index: usize) -> (name: Vec<char>)
    requires
        index < chars.len(),
    ensures
        name@ == replacement_name_from(chars@, index + 1, 16),
{
    let mut name: Vec<char> = Vec::new();
    let mut j: usize = index + 1;
    let mut limit: usize = 16;
    while limit > 0 && j < chars.len() && !(chars[j] == '>' || chars[j] == '=' || chars[j] == ' ')
        invariant
            index < j <= chars@.len(),
            limit <= 16,
            name@ + replacement_name_from(chars@, j as int, limit as nat)
                == replacement_name_from(chars@, index + 1, 16),
        decreases limit,
    {
        let c = to_ascii_upper(chars[j]);
        proof {
            assert(name@.push(c) + replacement_name_from(chars@, j + 1, (limit - 1) as nat)
                =~= name@ + replacement_name_from(chars@, j as int, limit as nat));
        }
        name.push(c);
        j = j + 1;
        limit = limit - 1;
    }
    assert(name@ + replacement_name_from(chars@, j as int, limit as nat) =~= name@);
    name
}

/// The replacement a `<` at `index` starts.
fn replacement_at(chars: &Vec<char>, index: usize) -> (r: Option<(Option<char>, usize)>)
    requires
        index < chars.len(),
    ensures
        r matches Some((c, n)) ==> replacement(chars@, index as int) == Some((c, n as int)),
        r is None ==> replacement(chars@, index as int) is None,
{
    if chars[index] != '<' {
        return None;
    }
    let name = replacement_name(chars, index);
    if chars_eq(name.as_slice(), &['B', 'R']) {
        Some((Some('\n'), 4))
    } else if chars_eq(name.as_slice(), &['N', 'B', 'S', 'P']) {
        Some((Some('\u{00A0}'), 6))
    } else if chars_eq(name.as_slice(), &['Z', 'W', 'S', 'P']) {
        Some((Some('\u{200B}'), 6))
    } else if chars_eq(name.as_slice(), &['/', 'S', 'T', 'Y', 'L', 'E']) {
        Some((None, 8))
    } else {
        None
    }
}

/// Replaces the tags TextMesh Pro resolves before reading any markup. The
/// name is matched case-insensitively up to the first `>`, `=` or space, and
/// the replacement always consumes the tag's nominal length.
pub fn preprocess(raw: &str) -> (out: Vec<SourceScalar>)
    ensures
        out@ == preprocess_from(raw@, 0),
{
    let (chars, offsets) = char_offsets(raw);
    let ghost s = raw@;
    let mut out: Vec<SourceScalar> = Vec::new();
    let mut index: usize = 0;
    while index < chars.len()
        invariant
            chars@ == s,
            offsets.len() == s.len() + 1,
            forall|i: int| 0 <= i <= s.len() ==> offsets[i] as nat == #[trigger] byte_offset(s, i),
            index <= s.len(),
            out@ + preprocess_from(s, index as int) == preprocess_from(s, 0),
        decreases s.len() - index,
    {
        let ch = chars[index];
        if ch == '<' {
            let replaced = replacement_at(&chars, index);
            if let Some((character, length)) = replaced {
                let end = if length < chars.len() - index { index + length } else { chars.len() };
                match character {
                    Some(c) => {
                        let scalar = SourceScalar { ch: c, start: offsets[index], end: offsets[end] };
                        proof {
                            assert(scalar == source_scalar(s, c, index as int, end as int));
                            assert(out@.push(scalar) + preprocess_from(s, end as int)
                                =~= out@ + preprocess_from(s, index as int));
                        }
                        out.push(scalar);
                    },
                    None => {},
                }
                index = end;
                continue;
            }
        }
        let scalar = SourceScalar { ch, start: offsets[index], end: offsets[index + 1] };
        proof {
            assert(scalar == source_scalar(s, ch, index as int, index + 1));
            assert(out@.push(scalar) + preprocess_from(s, index + 1)
                =~= out@ + preprocess_from(s, index as int));
        }
        out.push(scalar);
        index = index + 1;
    }
    assert(out@ + preprocess_from(s, index as int) =~= out@);
    out
}


/// Longest tag body read before a `<` is taken literally.
pub const MAX_TAG_CHARS: usize = 128;
/// Attribute slots one tag may fill.
pub const MAX_TAG_ATTRIBUTES: usize = 8;

/// How the value of an attribute is being read.
#[derive(Clone, Copy, Debug, PartialEq, Eq, Structural)]
pub enum ValueType {
    Empty,
    Number,
    Color,
    Text,
}

/// Unit a numeric value was written in.
#[derive(Clone, Copy, Debug, PartialEq, Eq, Structural)]
pub enum Unit {
    Pixels,
    FontUnits,
    Percentage,
}

/// One attribute slot of a tag: its name and where its value lies in the
/// tag's characters.
#[derive(Debug)]
pub struct Attribute {
    pub name: Vec<char>,
    pub value_type: ValueType,
    pub value_start: usize,
    pub value_length: usize,
}

/// The mathematical content of an [`Attribute`].
pub struct AttributeView {
    pub name: Seq<char>,
    pub value_type: ValueType,
    pub value_start: int,
    pub value_length: int,
}

impl View for Attribute {
    type V = AttributeView;

    open spec fn view(&self) -> AttributeView {
        AttributeView {
            name: self.name@,
            value_type: self.value_type,
            value_start: self.value_start as int,
            value_length: self.value_length as int,
        }
    }
}

impl Attribute {
    pub fn empty() -> (a: Self)
        ensures
            a@ == empty_attribute(),
    {
        Attribute { name: Vec::new(), value_type: ValueType::Empty, value_start: 0, value_length: 0 }
    }
}

pub open spec fn empty_attribute() -> AttributeView {
    AttributeView { name: seq![], value_type: ValueType::Empty, value_start: 0, value_length: 0 }
}

/// A tag read by [`scan_tag`]: its characters, its attribute slots and the
/// unit of the most recent value, which is what the tags read.
pub struct ScannedTag {
    pub chars: Vec<char>,
    pub attributes: Vec<Attribute>,
    pub unit: Unit,
}

pub struct TagView {
    pub chars: Seq<char>,
    pub attributes: Seq<AttributeView>,
    pub unit: Unit,
}

impl View for ScannedTag {
    type V = TagView;

    open spec fn view(&self) -> TagView {
        TagView {
            chars: self.chars@,
            attributes: attribute_views(self.attributes@),
            unit: self.unit,
        }
    }
}

/// Everything the tag reader carries from one character to the next.
pub struct ScanState {
    pub tag: Seq<char>,
    pub attributes: Seq<AttributeView>,
    pub current: int,
    pub flag: int,
    pub value_type: ValueType,
    pub unit: Unit,
    pub name_set: bool,
}

pub open spec fn initial_scan_state() -> ScanState {
    ScanState {
        tag: seq![],
        attributes: seq![empty_attribute()],
        current: 0,
        flag: 0,
        value_type: ValueType::Empty,
        unit: Unit::Pixels,
        name_set: false,
    }
}

pub open spec fn starts_number(c: char) -> bool {
    c == '+' || c == '-' || c == '.' || ('0' <= c && c <= '9')
}

pub open spec fn with_value(a: AttributeView, value_type: ValueType, start: int, length: int) -> AttributeView {
    AttributeView { name: a.name, value_type, value_start: start, value_length: length }
}

/// Reading `ch` while a value is open (`flag` 1): the attribute, the flag,
/// the value type, the unit and whether the next attribute slot opens.
pub open spec fn value_step(a: AttributeView, value_type: ValueType, unit: Unit, ch: char, count: int) -> (AttributeView, int, ValueType, Unit, bool) {
    match value_type {
        ValueType::Empty => {
            let vt = if starts_number(ch) {
                ValueType::Number
            } else if ch == '#' {
                ValueType::Color
            } else {
                ValueType::Text
            };
            if ch == '"' {
                (with_value(a, vt, count, a.value_length), 1, vt, Unit::Pixels, false)
            } else {
                (with_value(a, vt, count - 1, a.value_length + 1), 1, vt, Unit::Pixels, false)
            }
        },
        ValueType::Number => {
            if ch == 'p' || ch == 'e' || ch == '%' || ch == ' ' {
                let u = if ch == 'e' {
                    Unit::FontUnits
                } else if ch == '%' {
                    Unit::Percentage
                } else {
                    Unit::Pixels
                };
                (a, 2, ValueType::Empty, u, true)
            } else {
                (with_value(a, a.value_type, a.value_start, a.value_length + 1), 1, value_type, unit, false)
            }
        },
        ValueType::Color => {
            if ch != ' ' {
                (with_value(a, a.value_type, a.value_start, a.value_length + 1), 1, value_type, unit, false)
            } else {
                (a, 2, ValueType::Empty, Unit::Pixels, true)
            }
        },
        ValueType::Text => {
            if ch != '"' {
                (with_value(a, a.value_type, a.value_start, a.value_length + 1), 1, value_type, unit, false)
            } else {
                (a, 2, ValueType::Empty, Unit::Pixels, true)
            }
        },
    }
}

/// Reads one character of a tag body; `None` when it makes the characters
/// unable to form a tag.
pub open spec fn scan_step(s: ScanState, ch: char) -> Option<ScanState> {
    let tag = s.tag.push(ch);
    let count = tag.len() as int;
    let (attrs1, flag1, vt1, unit1, next1) = if s.flag == 1 {
        let (a, f, v, u, n) = value_step(s.attributes[s.current], s.value_type, s.unit, ch, count);
        (s.attributes.update(s.current, a), f, v, u, n)
    } else {
        (s.attributes, s.flag, s.value_type, s.unit, false)
    };
    let flag2 = if ch == '=' { 1 } else { flag1 };
    let space_name = flag2 == 0 && ch == ' ';
    if space_name && s.name_set {
        None
    } else {
        let name_set3 = if space_name { true } else { s.name_set };
        let flag3 = if space_name { 2 } else { flag2 };
        let vt3 = if space_name { ValueType::Empty } else { vt1 };
        let unit3 = if space_name { Unit::Pixels } else { unit1 };
        let next3 = space_name || next1;
        if next3 && s.current + 1 >= MAX_TAG_ATTRIBUTES {
            None
        } else {
            let current4 = if next3 { s.current + 1 } else { s.current };
            let attrs4 = if next3 { attrs1.push(empty_attribute()) } else { attrs1 };
            let attrs5 = if flag3 == 0 {
                let a = attrs4[current4];
                attrs4.update(current4, AttributeView { name: a.name.push(ch), value_type: a.value_type, value_start: a.value_start, value_length: a.value_length })
            } else {
                attrs4
            };
            let flag6 = if flag3 == 2 && ch == ' ' { 0 } else { flag3 };
            Some(ScanState {
                tag,
                attributes: attrs5,
                current: current4,
                flag: flag6,
                value_type: vt3,
                unit: unit3,
                name_set: name_set3,
            })
        }
    }
}

/// Reads a tag body from `index` on in state `s`: the final state and the
/// index of the closing `>`, or `None`.
pub open spec fn scan_from(chars: Seq<char>, index: int, s: ScanState) -> Option<(ScanState, int)>
    decreases chars.len() - index,
{
    if index < 0 || index >= chars.len() || chars[index] == '\0' || s.tag.len() >= MAX_TAG_CHARS
        || chars[index] == '<' {
        None
    } else if chars[index] == '>' {
        Some((s, index))
    } else {
        match scan_step(s, chars[index]) {
            None => None,
            Some(next) => scan_from(chars, index + 1, next),
        }
    }
}

/// The tag whose body starts at `start` (just after a `<`) and the index of
/// its closing `>`, or `None` when the characters cannot form a tag.
pub open spec fn scan_tag_spec(chars: Seq<char>, start: int) -> Option<(TagView, int)> {
    match scan_from(chars, start, initial_scan_state()) {
        Some((s, end)) => Some((TagView { chars: s.tag, attributes: s.attributes, unit: s.unit }, end)),
        None => None,
    }
}

/// What every tag [`scan_tag`] returns satisfies: at most
/// [`MAX_TAG_CHARS`] characters, one to [`MAX_TAG_ATTRIBUTES`] attribute
/// slots, and value ranges that start inside the tag.
pub open spec fn tag_wf(t: TagView) -> bool {
    &&& t.chars.len() <= MAX_TAG_CHARS
    &&& 1 <= t.attributes.len() <= MAX_TAG_ATTRIBUTES
    &&& forall|k: int| 0 <= k < t.attributes.len() ==> {
        &&& 0 <= #[trigger] t.attributes[k].value_start <= t.chars.len()
        &&& 0 <= t.attributes[k].value_length <= t.chars.len()
    }
}

pub open spec fn scan_wf(s: ScanState) -> bool {
    &&& 0 <= s.current < MAX_TAG_ATTRIBUTES
    &&& s.attributes.len() == s.current + 1
    &&& 0 <= s.flag <= 2
    &&& s.tag.len() <= MAX_TAG_CHARS
    &&& forall|k: int| 0 <= k < s.attributes.len() ==> {
        &&& 0 <= #[trigger] s.attributes[k].value_start <= s.tag.len()
        &&& 0 <= s.attributes[k].value_length <= s.tag.len()
    }
}

proof fn lemma_scan_step_wf(s: ScanState, ch: char)
    requires
        scan_wf(s),
        s.tag.len() < MAX_TAG_CHARS,
    ensures
        scan_step(s, ch) matches Some(n) ==> scan_wf(n),
{
    if let Some(n) = scan_step(s, ch) {
        let count = s.tag.len() + 1int;
        let attrs1 = if s.flag == 1 {
            let (a, f, v, u, nx) = value_step(s.attributes[s.current], s.value_type, s.unit, ch, count);
            s.attributes.update(s.current, a)
        } else {
            s.attributes
        };
        assert forall|k: int| 0 <= k < attrs1.len() implies {
            &&& 0 <= #[trigger] attrs1[k].value_start <= count
            &&& 0 <= attrs1[k].value_length <= count
        } by {
            assert(0 <= s.attributes[k].value_start <= s.tag.len());
        }
        assert forall|k: int| 0 <= k < n.attributes.len() implies {
            &&& 0 <= #[trigger] n.attributes[k].value_start <= n.tag.len()
            &&& 0 <= n.attributes[k].value_length <= n.tag.len()
        } by {
            if k < attrs1.len() {
                assert(0 <= attrs1[k].value_start <= count);
            }
        }
    }
}

/// Reading a character while a value is open; see [`value_step`].
fn value_phase(attribute: &mut Attribute, value_type: ValueType, unit: Unit, ch: char, count: usize) -> (r: (u8, ValueType, Unit, bool))
    requires
        1 <= count <= MAX_TAG_CHARS,
        old(attribute).value_length < count,
    ensures
        ({
            let (a, f, v, u, n) = value_step(old(attribute)@, value_type, unit, ch, count as int);
            final(attribute)@ == a && r.0 as int == f && r.1 == v && r.2 == u && r.3 == n
        }),
{
    match value_type {
        ValueType::Empty => {
            let vt = if ch == '+' || ch == '-' || ch == '.' || ('0' <= ch && ch <= '9') {
                ValueType::Number
            } else if ch == '#' {
                ValueType::Color
            } else {
                ValueType::Text
            };
            if ch == '"' {
                attribute.value_start = count;
            } else {
                attribute.value_start = count - 1;
                attribute.value_length = attribute.value_length + 1;
            }
            attribute.value_type = vt;
            (1, vt, Unit::Pixels, false)
        },
        ValueType::Number => {
            if ch == 'p' || ch == 'e' || ch == '%' || ch == ' ' {
                let u = if ch == 'e' {
                    Unit::FontUnits
                } else if ch == '%' {
                    Unit::Percentage
                } else {
                    Unit::Pixels
                };
                (2, ValueType::Empty, u, true)
            } else {
                attribute.value_length = attribute.value_length + 1;
                (1, value_type, unit, false)
            }
        },
        ValueType::Color => {
            if ch != ' ' {
                attribute.value_length = attribute.value_length + 1;
                (1, value_type, unit, false)
            } else {
                (2, ValueType::Empty, Unit::Pixels, true)
            }
        },
        ValueType::Text => {
            if ch != '"' {
                attribute.value_length = attribute.value_length + 1;
                (1, value_type, unit, false)
            } else {
                (2, ValueType::Empty, Unit::Pixels, true)
            }
        },
    }
}

pub open spec fn attribute_views(attributes: Seq<Attribute>) -> Seq<AttributeView> {
    attributes.map_values(|a: Attribute| a@)
}

/// Reads the tag body starting after a `<`. Returns the tag and the index of
/// its closing `>`, or `None` when the characters cannot form a tag.
pub fn scan_tag(chars: &Vec<char>, start: usize) -> (r: Option<(ScannedTag, usize)>)
    ensures
        match r {
            Some((tag, end)) => {
                &&& scan_tag_spec(chars@, start as int) == Some((tag@, end as int))
                &&& tag_wf(tag@)
                &&& start <= end < chars@.len()
            },
            None => scan_tag_spec(chars@, start as int) is None,
        },
{
    if start >= chars.len() {
        return None;
    }
    let mut tag: Vec<char> = Vec::new();
    let mut attributes: Vec<Attribute> = Vec::new();
    attributes.push(Attribute::empty());
    let mut current: usize = 0;
    let mut flag: u8 = 0;
    let mut value_type = ValueType::Empty;
    let mut unit = Unit::Pixels;
    let mut name_set = false;
    let mut index = start;
    let ghost init = initial_scan_state();
    proof {
        assert(attribute_views(attributes@) =~= init.attributes);
        assert(tag@ =~= init.tag);
    }
    while index < chars.len() && chars[index] != '\0' && tag.len() < MAX_TAG_CHARS && chars[index] != '<'
        invariant
            scan_wf(ScanState {
                tag: tag@,
                attributes: attribute_views(attributes@),
                current: current as int,
                flag: flag as int,
                value_type,
                unit,
                name_set,
            }),
            scan_from(chars@, start as int, init) == scan_from(chars@, index as int, ScanState {
                tag: tag@,
                attributes: attribute_views(attributes@),
                current: current as int,
                flag: flag as int,
                value_type,
                unit,
                name_set,
            }),
            start <= index <= chars.len(),
            init == initial_scan_state(),
        decreases chars.len() - index,
    {
        let ghost st = ScanState {
            tag: tag@,
            attributes: attribute_views(attributes@),
            current: current as int,
            flag: flag as int,
            value_type,
            unit,
            name_set,
        };
        let ch = chars[index];
        if ch == '>' {
            let scanned = ScannedTag { chars: tag, attributes, unit };
            proof {
                assert(scan_from(chars@, index as int, st) == Some((st, index as int)));
                assert(scanned@.attributes == st.attributes);
                assert(scanned@ == TagView { chars: st.tag, attributes: st.attributes, unit: st.unit });
                assert(scan_from(chars@, start as int, initial_scan_state()) == Some((st, index as int)));
                assert(scan_tag_spec(chars@, start as int) == Some((scanned@, index as int)));
                assert(scan_wf(st));
                assert forall|k: int| 0 <= k < scanned@.attributes.len() implies {
                    &&& 0 <= #[trigger] scanned@.attributes[k].value_start <= scanned@.chars.len()
                    &&& 0 <= scanned@.attributes[k].value_length <= scanned@.chars.len()
                } by {
                    assert(scanned@.attributes[k] == st.attributes[k]);
                }
                assert(tag_wf(scanned@));
            }
            return Some((scanned, index));
        }
        tag.push(ch);
        let count = tag.len();
        let mut next_attribute = false;
        let ghost attrs1 = st.attributes;
        if flag == 1 {
            proof {
                assert(st.attributes[current as int] == attributes@[current as int]@);
                assert(0 <= st.attributes[current as int].value_length <= st.tag.len());
            }
            let (f, v, u, n) = value_phase(&mut attributes[current], value_type, unit, ch, count);
            flag = f;
            value_type = v;
            unit = u;
            next_attribute = n;
            proof {
                attrs1 = attribute_views(attributes@);
                let (a, f2, v2, u2, n2) = value_step(st.attributes[st.current], st.value_type, st.unit, ch, count as int);
                assert(attrs1 =~= st.attributes.update(st.current, a));
            }
        }
        if ch == '=' {
            flag = 1;
        }
        if flag == 0 && ch == ' ' {
            if name_set {
                proof {
                    assert(scan_step(st, ch) is None);
                    assert(scan_from(chars@, index as int, st) is None);
                }
                return None;
            }
            name_set = true;
            flag = 2;
            value_type = ValueType::Empty;
            unit = Unit::Pixels;
            next_attribute = true;
        }
        if next_attribute {
            if current + 1 >= MAX_TAG_ATTRIBUTES {
                proof {
                    assert(scan_step(st, ch) is None);
                    assert(scan_from(chars@, index as int, st) is None);
                }
                return None;
            }
            current = current + 1;
            attributes.push(Attribute::empty());
        }
        let ghost attrs4 = attribute_views(attributes@);
        proof {
            assert(attrs4 =~= if next_attribute { attrs1.push(empty_attribute()) } else { attrs1 });
        }
        if flag == 0 {
            attributes[current].name.push(ch);
            proof {
                let a = attrs4[current as int];
                assert(attribute_views(attributes@) =~= attrs4.update(current as int, AttributeView { name: a.name.push(ch), value_type: a.value_type, value_start: a.value_start, value_length: a.value_length }));
            }
        }
        if flag == 2 && ch == ' ' {
            flag = 0;
        }
        proof {
            let nx = ScanState {
                tag: tag@,
                attributes: attribute_views(attributes@),
                current: current as int,
                flag: flag as int,
                value_type,
                unit,
                name_set,
            };
            lemma_scan_step_wf(st, ch);
            assert(scan_step(st, ch) == Some(nx));
        }
        index = index + 1;
    }
    None
}


/// Scale of the fixed-point magnitudes the number reader produces: nine
/// fractional decimal digits are kept, later ones are ignored.
pub const NUMBER_SCALE: u64 = 1_000_000_000;
/// Scaled magnitude at which the integer part stops growing; every larger
/// value reads the same way.
pub const NUMBER_CAP: u64 = 1_000_000_000_000_000;

/// A number read from a tag value: its sign and its magnitude times
/// [`NUMBER_SCALE`].
#[derive(Clone, Copy, Debug, PartialEq, Eq, Structural)]
pub struct DecimalNumber {
    pub negative: bool,
    pub scaled: u64,
}

pub open spec fn is_ascii_digit(c: char) -> bool {
    '0' <= c && c <= '9'
}

pub open spec fn digit_value(c: char) -> nat {
    ((c as u32) - ('0' as u32)) as nat
}

/// TextMesh Pro's number reader from `index` to `end`: digits and `.`
/// accumulate, a `,` ends the value, and every other character is skipped.
/// `place` is the scaled weight of the next fractional digit.
pub open spec fn read_digits(chars: Seq<char>, index: int, end: int, integer: bool, place: nat, acc: nat) -> nat
    decreases end - index,
{
    if index < 0 || index >= end || index >= chars.len() {
        acc
    } else {
        let ch = chars[index];
        if ch == '.' {
            read_digits(chars, index + 1, end, false, (NUMBER_SCALE / 10) as nat, acc)
        } else if is_ascii_digit(ch) {
            if integer {
                let v = (acc * 10 + digit_value(ch) * NUMBER_SCALE) as nat;
                read_digits(chars, index + 1, end, true, place, if v > NUMBER_CAP { NUMBER_CAP as nat } else { v })
            } else {
                read_digits(chars, index + 1, end, false, place / 10, acc + digit_value(ch) * place)
            }
        } else if ch == ',' {
            acc
        } else {
            read_digits(chars, index + 1, end, integer, place, acc)
        }
    }
}

/// The number a value of `length` characters at `start` holds, or `None`
/// for a missing value (`start` 0) and for one above 32767 or equal to
/// -32768, the values TextMesh Pro's reader rejects.
pub open spec fn read_number(chars: Seq<char>, start: int, length: int) -> Option<DecimalNumber> {
    if start == 0 {
        None
    } else {
        let end = if start + length < chars.len() { start + length } else { chars.len() as int };
        let negative = 0 <= start < chars.len() && chars[start] == '-';
        let signed = 0 <= start < chars.len() && (chars[start] == '+' || chars[start] == '-');
        let first = if signed { start + 1 } else { start };
        let scaled = read_digits(chars, first, end, true, (NUMBER_SCALE / 10) as nat, 0);
        if (negative && scaled == 32768 * NUMBER_SCALE) || (!negative && scaled > 32767 * NUMBER_SCALE) {
            None
        } else {
            Some(DecimalNumber { negative, scaled: scaled as u64 })
        }
    }
}

/// Reads the number a value holds; see [`read_number`].
pub fn convert_to_number(chars: &Vec<char>, start: usize, length: usize) -> (r: Option<DecimalNumber>)
    requires
        chars@.len() <= MAX_TAG_CHARS,
        start <= chars@.len(),
        length <= chars@.len(),
    ensures
        r == read_number(chars@, start as int, length as int),
{
    if start == 0 {
        return None;
    }
    let end = if start + length < chars.len() { start + length } else { chars.len() };
    let mut index = start;
    let mut negative = false;
    if start < chars.len() {
        if chars[start] == '+' {
            index = index + 1;
        } else if chars[start] == '-' {
            negative = true;
            index = index + 1;
        }
    }
    let mut integer = true;
    let mut place: u64 = NUMBER_SCALE / 10;
    let mut acc: u64 = 0;
    let ghost first = index as int;
    let mut stopped = false;
    while index < end && !stopped
        invariant
            stopped ==> index < end && chars@[index as int] == ',',
            start <= index,
            end <= chars@.len() <= MAX_TAG_CHARS,
            place <= NUMBER_SCALE / 10,
            integer ==> acc <= NUMBER_CAP,
            acc <= NUMBER_CAP + index * NUMBER_SCALE,
            read_digits(chars@, first, end as int, true, (NUMBER_SCALE / 10) as nat, 0)
                == read_digits(chars@, index as int, end as int, integer, place as nat, acc as nat),
        decreases end - index, if stopped { 0int } else { 1int },
    {
        let ch = chars[index];
        if ch == '.' {
            integer = false;
            place = NUMBER_SCALE / 10;
        } else if '0' <= ch && ch <= '9' {
            let d = (ch as u8 - 48) as u64;
            assert(d as nat == digit_value(ch));
            if integer {
                let v = acc * 10 + d * NUMBER_SCALE;
                acc = if v > NUMBER_CAP { NUMBER_CAP } else { v };
            } else {
                assert(d * place <= 9 * (NUMBER_SCALE / 10)) by (nonlinear_arith)
                    requires d <= 9, place <= NUMBER_SCALE / 10;
                acc = acc + d * place;
                place = place / 10;
            }
        }
        if ch == ',' {
            stopped = true;
        } else {
            index = index + 1;
        }
    }
    assert(acc as nat == read_digits(chars@, first, end as int, true, (NUMBER_SCALE / 10) as nat, 0));
    if (negative && acc == 32768 * NUMBER_SCALE) || (!negative && acc > 32767 * NUMBER_SCALE) {
        None
    } else {
        Some(DecimalNumber { negative, scaled: acc })
    }
}


/// Value of a hex digit; anything that is not one reads as 15.
pub open spec fn hex_nibble_spec(c: char) -> u8 {
    if '0' <= c && c <= '9' {
        ((c as u32) - 48) as u8
    } else if 'a' <= c && c <= 'f' {
        ((c as u32) - 87) as u8
    } else if 'A' <= c && c <= 'F' {
        ((c as u32) - 55) as u8
    } else {
        15
    }
}

pub fn hex_nibble(ch: char) -> (r: u8)
    ensures
        r == hex_nibble_spec(ch),
        r < 16,
{
    if '0' <= ch && ch <= '9' {
        ch as u8 - 48
    } else if 'a' <= ch && ch <= 'f' {
        ch as u8 - 87
    } else if 'A' <= ch && ch <= 'F' {
        ch as u8 - 55
    } else {
        15
    }
}

pub open spec fn hex_pair_spec(high: char, low: char) -> u8 {
    (hex_nibble_spec(high) * 16 + hex_nibble_spec(low)) as u8
}

pub fn hex_pair(high: char, low: char) -> (r: u8)
    ensures
        r == hex_pair_spec(high, low),
{
    hex_nibble(high) * 16 + hex_nibble(low)
}

/// RGBA from the characters of a short (3 or 4) or long (6 or 8) hex
/// colour; the characters follow the `#`.
pub open spec fn hex_color_spec(d: Seq<char>) -> Option<[u8; 4]> {
    if d.len() == 3 {
        Some([hex_pair_spec(d[0], d[0]), hex_pair_spec(d[1], d[1]), hex_pair_spec(d[2], d[2]), 255u8])
    } else if d.len() == 4 {
        Some([hex_pair_spec(d[0], d[0]), hex_pair_spec(d[1], d[1]), hex_pair_spec(d[2], d[2]), hex_pair_spec(d[3], d[3])])
    } else if d.len() == 6 {
        Some([hex_pair_spec(d[0], d[1]), hex_pair_spec(d[2], d[3]), hex_pair_spec(d[4], d[5]), 255u8])
    } else if d.len() == 8 {
        Some([hex_pair_spec(d[0], d[1]), hex_pair_spec(d[2], d[3]), hex_pair_spec(d[4], d[5]), hex_pair_spec(d[6], d[7])])
    } else {
        None
    }
}

/// RGBA from the characters of a short or long hex colour. `digits` holds
/// the characters after the `#`.
pub fn hex_color(digits: &[char]) -> (r: Option<[u8; 4]>)
    ensures
        r == hex_color_spec(digits@),
{
    let n = digits.len();
    if n == 3 {
        Some([hex_pair(digits[0], digits[0]), hex_pair(digits[1], digits[1]), hex_pair(digits[2], digits[2]), 255])
    } else if n == 4 {
        Some([hex_pair(digits[0], digits[0]), hex_pair(digits[1], digits[1]), hex_pair(digits[2], digits[2]), hex_pair(digits[3], digits[3])])
    } else if n == 6 {
        Some([hex_pair(digits[0], digits[1]), hex_pair(digits[2], digits[3]), hex_pair(digits[4], digits[5]), 255])
    } else if n == 8 {
        Some([hex_pair(digits[0], digits[1]), hex_pair(digits[2], digits[3]), hex_pair(digits[4], digits[5]), hex_pair(digits[6], digits[7])])
    } else {
        None
    }
}

/// The TextMesh Pro colour names, lowercase only.
pub open spec fn named_color_spec(name: Seq<char>) -> Option<[u8; 3]> {
    if name == seq!['r', 'e', 'd'] {
        Some([255u8, 0u8, 0u8])
    } else if name == seq!['l', 'i', 'g', 'h', 't', 'b', 'l', 'u', 'e'] {
        Some([173u8, 216u8, 230u8])
    } else if name == seq!['b', 'l', 'u', 'e'] {
        Some([0u8, 0u8, 255u8])
    } else if name == seq!['g', 'r', 'e', 'y'] {
        Some([128u8, 128u8, 128u8])
    } else if name == seq!['b', 'l', 'a', 'c', 'k'] {
        Some([0u8, 0u8, 0u8])
    } else if name == seq!['g', 'r', 'e', 'e', 'n'] {
        Some([0u8, 255u8, 0u8])
    } else if name == seq!['w', 'h', 'i', 't', 'e'] {
        Some([255u8, 255u8, 255u8])
    } else if name == seq!['o', 'r', 'a', 'n', 'g', 'e'] {
        Some([255u8, 128u8, 0u8])
    } else if name == seq!['p', 'u', 'r', 'p', 'l', 'e'] {
        Some([160u8, 32u8, 240u8])
    } else if name == seq!['y', 'e', 'l', 'l', 'o', 'w'] {
        Some([255u8, 235u8, 4u8])
    } else {
        None
    }
}

pub fn named_color(name: &[char]) -> (r: Option<[u8; 3]>)
    ensures
        r == named_color_spec(name@),
{
    if chars_eq(name, &['r', 'e', 'd']) {
        Some([255, 0, 0])
    } else if chars_eq(name, &['l', 'i', 'g', 'h', 't', 'b', 'l', 'u', 'e']) {
        Some([173, 216, 230])
    } else if chars_eq(name, &['b', 'l', 'u', 'e']) {
        Some([0, 0, 255])
    } else if chars_eq(name, &['g', 'r', 'e', 'y']) {
        Some([128, 128, 128])
    } else if chars_eq(name, &['b', 'l', 'a', 'c', 'k']) {
        Some([0, 0, 0])
    } else if chars_eq(name, &['g', 'r', 'e', 'e', 'n']) {
        Some([0, 255, 0])
    } else if chars_eq(name, &['w', 'h', 'i', 't', 'e']) {
        Some([255, 255, 255])
    } else if chars_eq(name, &['o', 'r', 'a', 'n', 'g', 'e']) {
        Some([255, 128, 0])
    } else if chars_eq(name, &['p', 'u', 'r', 'p', 'l', 'e']) {
        Some([160, 32, 240])
    } else if chars_eq(name, &['y', 'e', 'l', 'l', 'o', 'w']) {
        Some([255, 235, 4])
    } else {
        None
    }
}

/// Whether a tag or attribute name is `lower` written in all-lowercase or
/// all-uppercase letters.
pub open spec fn spec_is_name(name: Seq<char>, lower: Seq<char>) -> bool {
    name == lower || name == lower.map_values(|c: char| upper_ascii(c))
}

pub fn is_name(name: &[char], lower: &[char]) -> (r: bool)
    ensures
        r == spec_is_name(name@, lower@),
{
    let ghost up = lower@.map_values(|c: char| upper_ascii(c));
    if name.len() != lower.len() {
        assert(name@.len() != up.len());
        return false;
    }
    let mut same = true;
    let mut upper = true;
    let mut i: usize = 0;
    while i < name.len()
        invariant
            name@.len() == lower@.len(),
            up == lower@.map_values(|c: char| upper_ascii(c)),
            i <= name@.len(),
            same == (forall|j: int| 0 <= j < i ==> name@[j] == lower@[j]),
            upper == (forall|j: int| 0 <= j < i ==> name@[j] == up[j]),
        decreases name.len() - i,
    {
        if name[i] != lower[i] {
            same = false;
        }
        assert(up[i as int] == upper_ascii(lower@[i as int]));
        if name[i] != to_ascii_upper(lower[i]) {
            upper = false;
        }
        i = i + 1;
    }
    proof {
        if same {
            assert(name@ =~= lower@);
        } else {
            let j = choose|j: int| 0 <= j < name@.len() && name@[j] != lower@[j];
            assert(name@[j] != lower@[j]);
        }
        if upper {
            assert(name@ =~= up);
        } else {
            let j = choose|j: int| 0 <= j < name@.len() && name@[j] != up[j];
            assert(name@[j] != up[j]);
        }
    }
    same || upper
}

/// The characters of the value of attribute `index`.
pub open spec fn tag_value_spec(t: TagView, index: int) -> Seq<char> {
    let a = t.attributes[index];
    let end = if a.value_start + a.value_length < t.chars.len() { a.value_start + a.value_length } else { t.chars.len() as int };
    let begin = if a.value_start < end { a.value_start } else { end };
    t.chars.subrange(begin, end)
}

pub open spec fn tag_number_spec(t: TagView, index: int) -> Option<DecimalNumber> {
    read_number(t.chars, t.attributes[index].value_start, t.attributes[index].value_length)
}

pub open spec fn tag_char_at_spec(t: TagView, index: int) -> char {
    if 0 <= index < t.chars.len() { t.chars[index] } else { '\0' }
}

pub open spec fn tag_name_spec(t: TagView) -> Seq<char> {
    t.attributes[0].name
}

impl ScannedTag {
    /// The tag name.
    pub fn name(&self) -> (r: &Vec<char>)
        requires
            tag_wf(self@),
        ensures
            r@ == tag_name_spec(self@),
    {
        &self.attributes[0].name
    }

    /// The characters of the value of attribute `index`.
    pub fn value(&self, index: usize) -> (r: Vec<char>)
        requires
            tag_wf(self@),
            index < self@.attributes.len(),
        ensures
            r@ == tag_value_spec(self@, index as int),
    {
        let attribute = &self.attributes[index];
        assert(attribute@ == self@.attributes[index as int]);
        assert(0 <= self@.attributes[index as int].value_start <= self@.chars.len());
        let end = if attribute.value_start + attribute.value_length < self.chars.len() {
            attribute.value_start + attribute.value_length
        } else {
            self.chars.len()
        };
        let begin = if attribute.value_start < end { attribute.value_start } else { end };
        let mut out: Vec<char> = Vec::new();
        let mut i = begin;
        while i < end
            invariant
                begin <= i <= end <= self.chars@.len(),
                out@ == self.chars@.subrange(begin as int, i as int),
            decreases end - i,
        {
            out.push(self.chars[i]);
            i = i + 1;
            assert(out@ =~= self.chars@.subrange(begin as int, i as int));
        }
        out
    }

    /// The number attribute `index` holds.
    pub fn number(&self, index: usize) -> (r: Option<DecimalNumber>)
        requires
            tag_wf(self@),
            index < self@.attributes.len(),
        ensures
            r == tag_number_spec(self@, index as int),
    {
        let attribute = &self.attributes[index];
        assert(attribute@ == self@.attributes[index as int]);
        assert(0 <= self@.attributes[index as int].value_start <= self@.chars.len());
        convert_to_number(&self.chars, attribute.value_start, attribute.value_length)
    }

    /// The character at `index`, or `'\0'` past the end.
    pub fn char_at(&self, index: usize) -> (r: char)
        ensures
            r == tag_char_at_spec(self@, index as int),
    {
        if index < self.chars.len() {
            self.chars[index]
        } else {
            '\0'
        }
    }
}

/// An attribute colour: `#RRGGBB` or `#RRGGBBAA`, anything else is white.
pub open spec fn attribute_color_spec(t: TagView, index: int) -> [u8; 4] {
    let value = tag_value_spec(t, index);
    if value.len() == 7 || value.len() == 9 {
        match hex_color_spec(value.subrange(1, value.len() as int)) {
            Some(c) => c,
            None => [255u8, 255u8, 255u8, 255u8],
        }
    } else {
        [255u8, 255u8, 255u8, 255u8]
    }
}

pub fn attribute_color(tag: &ScannedTag, index: usize) -> (r: [u8; 4])
    requires
        tag_wf(tag@),
        index < tag@.attributes.len(),
    ensures
        r == attribute_color_spec(tag@, index as int),
{
    let value = tag.value(index);
    if value.len() == 7 || value.len() == 9 {
        let digits = slice_from(&value, 1);
        match hex_color(digits.as_slice()) {
            Some(c) => c,
            None => [255; 4],
        }
    } else {
        [255; 4]
    }
}

/// The characters of `v` from `from` on.
fn slice_from(v: &Vec<char>, from: usize) -> (r: Vec<char>)
    requires
        from <= v@.len(),
    ensures
        r@ == v@.subrange(from as int, v@.len() as int),
{
    let mut out: Vec<char> = Vec::new();
    let mut i = from;
    while i < v.len()
        invariant
            from <= i <= v@.len(),
            out@ == v@.subrange(from as int, i as int),
        decreases v.len() - i,
    {
        out.push(v[i]);
        i = i + 1;
        assert(out@ =~= v@.subrange(from as int, i as int));
    }
    out
}

pub open spec fn count_char(s: Seq<char>, c: char) -> nat
    decreases s.len(),
{
    if s.len() == 0 {
        0
    } else {
        count_char(s.drop_last(), c) + if s.last() == c { 1nat } else { 0nat }
    }
}

/// The number of comma-separated parts of the value of attribute `index`;
/// 0 for an empty value.
pub open spec fn padding_parameter_count_spec(t: TagView, index: int) -> nat {
    let value = tag_value_spec(t, index);
    if value.len() == 0 { 0 } else { count_char(value, ',') + 1 }
}

pub fn padding_parameter_count(tag: &ScannedTag, index: usize) -> (r: usize)
    requires
        tag_wf(tag@),
        index < tag@.attributes.len(),
    ensures
        r == padding_parameter_count_spec(tag@, index as int),
{
    let value = tag.value(index);
    if value.len() == 0 {
        return 0;
    }
    let mut commas: usize = 0;
    let mut i: usize = 0;
    while i < value.len()
        invariant
            i <= value@.len() <= MAX_TAG_CHARS,
            commas == count_char(value@.take(i as int), ','),
            commas <= i,
        decreases value.len() - i,
    {
        assert(value@.take(i + 1).drop_last() =~= value@.take(i as int));
        if value[i] == ',' {
            commas = commas + 1;
        }
        i = i + 1;
    }
    assert(value@.take(value@.len() as int) =~= value@);
    commas + 1
}


/// What an accepted tag does to the two markup switches the visible text
/// depends on.
#[derive(Clone, Copy, Debug, PartialEq, Eq, Structural)]
pub enum FlagEffect {
    Keep,
    EnterNoParse,
    LeaveNoParse,
    EnterNoBreak,
    LeaveNoBreak,
}

/// Tags accepted whatever their value, that touch neither switch.
pub open spec fn is_plain_named_tag(name: Seq<char>) -> bool {
    is_plain_named_group0(name)
        || is_plain_named_group1(name)
        || is_plain_named_group2(name)
        || is_plain_named_group3(name)
        || is_plain_named_group4(name)
        || is_plain_named_group5(name)
}

pub open spec fn is_plain_named_group0(name: Seq<char>) -> bool {
    spec_is_name(name, seq!['b'])
        || spec_is_name(name, seq!['/', 'b'])
        || spec_is_name(name, seq!['/', 'i'])
        || spec_is_name(name, seq!['s'])
        || spec_is_name(name, seq!['/', 's'])
        || spec_is_name(name, seq!['u'])
        || spec_is_name(name, seq!['/', 'u'])
        || spec_is_name(name, seq!['/', 'm', 'a', 'r', 'k'])
}

fn plain_named_group0(name: &[char]) -> (r: bool)
    ensures
        r == is_plain_named_group0(name@),
{
    assert(['b']@ == seq!['b'] && ['s']@ == seq!['s'] && ['u']@ == seq!['u']);
    is_name(name, &['b'])
        || is_name(name, &['/', 'b'])
        || is_name(name, &['/', 'i'])
        || is_name(name, &['s'])
        || is_name(name, &['/', 's'])
        || is_name(name, &['u'])
        || is_name(name, &['/', 'u'])
        || is_name(name, &['/', 'm', 'a', 'r', 'k'])
}

pub open spec fn is_plain_named_group1(name: Seq<char>) -> bool {
    spec_is_name(name, seq!['s', 'u', 'b'])
        || spec_is_name(name, seq!['s', 'u', 'p'])
        || spec_is_name(name, seq!['/', 's', 'u', 'b'])
        || spec_is_name(name, seq!['/', 's', 'u', 'p'])
        || spec_is_name(name, seq!['/', 'f', 'o', 'n', 't', '-', 'w', 'e', 'i', 'g', 'h', 't'])
        || spec_is_name(name, seq!['/', 'p', 'o', 's'])
        || spec_is_name(name, seq!['/', 'f', 'o', 'n', 't'])
        || spec_is_name(name, seq!['/', 'm', 'a', 't', 'e', 'r', 'i', 'a', 'l'])
}

fn plain_named_group1(name: &[char]) -> (r: bool)
    ensures
        r == is_plain_named_group1(name@),
{
    is_name(name, &['s', 'u', 'b'])
        || is_name(name, &['s', 'u', 'p'])
        || is_name(name, &['/', 's', 'u', 'b'])
        || is_name(name, &['/', 's', 'u', 'p'])
        || is_name(name, &['/', 'f', 'o', 'n', 't', '-', 'w', 'e', 'i', 'g', 'h', 't'])
        || is_name(name, &['/', 'p', 'o', 's'])
        || is_name(name, &['/', 'f', 'o', 'n', 't'])
        || is_name(name, &['/', 'm', 'a', 't', 'e', 'r', 'i', 'a', 'l'])
}

pub open spec fn is_plain_named_group2(name: Seq<char>) -> bool {
    spec_is_name(name, seq!['/', 'v', 'o', 'f', 'f', 's', 'e', 't'])
        || spec_is_name(name, seq!['p', 'a', 'g', 'e'])
        || spec_is_name(name, seq!['/', 'a'])
        || spec_is_name(name, seq!['/', 'l', 'i', 'n', 'k'])
        || spec_is_name(name, seq!['/', 'g', 'r', 'a', 'd', 'i', 'e', 'n', 't'])
        || spec_is_name(name, seq!['a', 'c', 't', 'i', 'o', 'n'])
        || spec_is_name(name, seq!['/', 'a', 'c', 't', 'i', 'o', 'n'])
        || spec_is_name(name, seq!['/', 'w', 'i', 'd', 't', 'h'])
}

fn plain_named_group2(name: &[char]) -> (r: bool)
    ensures
        r == is_plain_named_group2(name@),
{
    is_name(name, &['/', 'v', 'o', 'f', 'f', 's', 'e', 't'])
        || is_name(name, &['p', 'a', 'g', 'e'])
        || is_name(name, &['/', 'a'])
        || is_name(name, &['/', 'l', 'i', 'n', 'k'])
        || is_name(name, &['/', 'g', 'r', 'a', 'd', 'i', 'e', 'n', 't'])
        || is_name(name, &['a', 'c', 't', 'i', 'o', 'n'])
        || is_name(name, &['/', 'a', 'c', 't', 'i', 'o', 'n'])
        || is_name(name, &['/', 'w', 'i', 'd', 't', 'h'])
}

pub open spec fn is_plain_named_group3(name: Seq<char>) -> bool {
    spec_is_name(name, seq!['/', 'm', 'a', 'r', 'g', 'i', 'n'])
        || spec_is_name(name, seq!['/', 't', 'a', 'b', 'l', 'e'])
        || spec_is_name(name, seq!['t', 'r'])
        || spec_is_name(name, seq!['/', 't', 'r'])
        || spec_is_name(name, seq!['t', 'h'])
        || spec_is_name(name, seq!['/', 't', 'h'])
        || spec_is_name(name, seq!['/', 's', 'i', 'z', 'e'])
        || spec_is_name(name, seq!['/', 'a', 'l', 'i', 'g', 'n'])
}

fn plain_named_group3(name: &[char]) -> (r: bool)
    ensures
        r == is_plain_named_group3(name@),
{
    is_name(name, &['/', 'm', 'a', 'r', 'g', 'i', 'n'])
        || is_name(name, &['/', 't', 'a', 'b', 'l', 'e'])
        || is_name(name, &['t', 'r'])
        || is_name(name, &['/', 't', 'r'])
        || is_name(name, &['t', 'h'])
        || is_name(name, &['/', 't', 'h'])
        || is_name(name, &['/', 's', 'i', 'z', 'e'])
        || is_name(name, &['/', 'a', 'l', 'i', 'g', 'n'])
}

pub open spec fn is_plain_named_group4(name: Seq<char>) -> bool {
    spec_is_name(name, seq!['/', 'm', 's', 'p', 'a', 'c', 'e'])
        || spec_is_name(name, seq!['/', 'c', 'o', 'l', 'o', 'r'])
        || spec_is_name(name, seq!['/', 'i', 'n', 'd', 'e', 'n', 't'])
        || spec_is_name(name, seq!['/', 'l', 'i', 'n', 'e', '-', 'i', 'n', 'd', 'e', 'n', 't'])
        || spec_is_name(name, seq!['l', 'o', 'w', 'e', 'r', 'c', 'a', 's', 'e'])
        || spec_is_name(name, seq!['/', 'l', 'o', 'w', 'e', 'r', 'c', 'a', 's', 'e'])
        || spec_is_name(name, seq!['a', 'l', 'l', 'c', 'a', 'p', 's'])
        || spec_is_name(name, seq!['u', 'p', 'p', 'e', 'r', 'c', 'a', 's', 'e'])
}

fn plain_named_group4(name: &[char]) -> (r: bool)
    ensures
        r == is_plain_named_group4(name@),
{
    is_name(name, &['/', 'm', 's', 'p', 'a', 'c', 'e'])
        || is_name(name, &['/', 'c', 'o', 'l', 'o', 'r'])
        || is_name(name, &['/', 'i', 'n', 'd', 'e', 'n', 't'])
        || is_name(name, &['/', 'l', 'i', 'n', 'e', '-', 'i', 'n', 'd', 'e', 'n', 't'])
        || is_name(name, &['l', 'o', 'w', 'e', 'r', 'c', 'a', 's', 'e'])
        || is_name(name, &['/', 'l', 'o', 'w', 'e', 'r', 'c', 'a', 's', 'e'])
        || is_name(name, &['a', 'l', 'l', 'c', 'a', 'p', 's'])
        || is_name(name, &['u', 'p', 'p', 'e', 'r', 'c', 'a', 's', 'e'])
}

pub open spec fn is_plain_named_group5(name: Seq<char>) -> bool {
    spec_is_name(name, seq!['/', 'a', 'l', 'l', 'c', 'a', 'p', 's'])
        || spec_is_name(name, seq!['/', 'u', 'p', 'p', 'e', 'r', 'c', 'a', 's', 'e'])
        || spec_is_name(name, seq!['s', 'm', 'a', 'l', 'l', 'c', 'a', 'p', 's'])
        || spec_is_name(name, seq!['/', 's', 'm', 'a', 'l', 'l', 'c', 'a', 'p', 's'])
        || spec_is_name(name, seq!['/', 'l', 'i', 'n', 'e', '-', 'h', 'e', 'i', 'g', 'h', 't'])
        || spec_is_name(name, seq!['/', 's', 'c', 'a', 'l', 'e'])
        || spec_is_name(name, seq!['/', 'r', 'o', 't', 'a', 't', 'e'])
}

fn plain_named_group5(name: &[char]) -> (r: bool)
    ensures
        r == is_plain_named_group5(name@),
{
    is_name(name, &['/', 'a', 'l', 'l', 'c', 'a', 'p', 's'])
        || is_name(name, &['/', 'u', 'p', 'p', 'e', 'r', 'c', 'a', 's', 'e'])
        || is_name(name, &['s', 'm', 'a', 'l', 'l', 'c', 'a', 'p', 's'])
        || is_name(name, &['/', 's', 'm', 'a', 'l', 'l', 'c', 'a', 'p', 's'])
        || is_name(name, &['/', 'l', 'i', 'n', 'e', '-', 'h', 'e', 'i', 'g', 'h', 't'])
        || is_name(name, &['/', 's', 'c', 'a', 'l', 'e'])
        || is_name(name, &['/', 'r', 'o', 't', 'a', 't', 'e'])
}

fn plain_named_tag(name: &[char]) -> (r: bool)
    ensures
        r == is_plain_named_tag(name@),
{
    plain_named_group0(name)
        || plain_named_group1(name)
        || plain_named_group2(name)
        || plain_named_group3(name)
        || plain_named_group4(name)
        || plain_named_group5(name)
}

/// Tags accepted whatever their value.
pub open spec fn named_tag_effect(name: Seq<char>) -> Option<FlagEffect> {
    if spec_is_name(name, seq!['n', 'o', 'b', 'r']) {
        Some(FlagEffect::EnterNoBreak)
    } else if spec_is_name(name, seq!['/', 'n', 'o', 'b', 'r']) {
        Some(FlagEffect::LeaveNoBreak)
    } else if spec_is_name(name, seq!['n', 'o', 'p', 'a', 'r', 's', 'e']) {
        Some(FlagEffect::EnterNoParse)
    } else if is_plain_named_tag(name) {
        Some(FlagEffect::Keep)
    } else {
        None
    }
}

fn named_effect(name: &[char]) -> (r: Option<FlagEffect>)
    ensures
        r == named_tag_effect(name@),
{
    if is_name(name, &['n', 'o', 'b', 'r']) {
        Some(FlagEffect::EnterNoBreak)
    } else if is_name(name, &['/', 'n', 'o', 'b', 'r']) {
        Some(FlagEffect::LeaveNoBreak)
    } else if is_name(name, &['n', 'o', 'p', 'a', 'r', 's', 'e']) {
        Some(FlagEffect::EnterNoParse)
    } else if plain_named_tag(name) {
        Some(FlagEffect::Keep)
    } else {
        None
    }
}

/// Tags accepted when their first value is a number.
pub open spec fn is_numeric_tag(name: Seq<char>) -> bool {
    spec_is_name(name, seq!['f', 'o', 'n', 't', '-', 'w', 'e', 'i', 'g', 'h', 't'])
        || spec_is_name(name, seq!['p', 'o', 's'])
        || spec_is_name(name, seq!['s', 'i', 'z', 'e'])
        || spec_is_name(name, seq!['i', 'n', 'd', 'e', 'n', 't'])
        || spec_is_name(name, seq!['l', 'i', 'n', 'e', '-', 'i', 'n', 'd', 'e', 'n', 't'])
        || spec_is_name(name, seq!['m', 'a', 'r', 'g', 'i', 'n', '-', 'l', 'e', 'f', 't'])
        || spec_is_name(name, seq!['m', 'a', 'r', 'g', 'i', 'n', '-', 'r', 'i', 'g', 'h', 't'])
        || spec_is_name(name, seq!['l', 'i', 'n', 'e', '-', 'h', 'e', 'i', 'g', 'h', 't'])
        || spec_is_name(name, seq!['s', 'c', 'a', 'l', 'e'])
        || spec_is_name(name, seq!['r', 'o', 't', 'a', 't', 'e'])
}

fn numeric_tag(name: &[char]) -> (r: bool)
    ensures
        r == is_numeric_tag(name@),
{
    is_name(name, &['f', 'o', 'n', 't', '-', 'w', 'e', 'i', 'g', 'h', 't'])
        || is_name(name, &['p', 'o', 's'])
        || is_name(name, &['s', 'i', 'z', 'e'])
        || is_name(name, &['i', 'n', 'd', 'e', 'n', 't'])
        || is_name(name, &['l', 'i', 'n', 'e', '-', 'i', 'n', 'd', 'e', 'n', 't'])
        || is_name(name, &['m', 'a', 'r', 'g', 'i', 'n', '-', 'l', 'e', 'f', 't'])
        || is_name(name, &['m', 'a', 'r', 'g', 'i', 'n', '-', 'r', 'i', 'g', 'h', 't'])
        || is_name(name, &['l', 'i', 'n', 'e', '-', 'h', 'e', 'i', 'g', 'h', 't'])
        || is_name(name, &['s', 'c', 'a', 'l', 'e'])
        || is_name(name, &['r', 'o', 't', 'a', 't', 'e'])
}

/// Tags accepted when their first value is a number that is not a
/// percentage.
pub open spec fn is_length_tag(name: Seq<char>) -> bool {
    spec_is_name(name, seq!['v', 'o', 'f', 'f', 's', 'e', 't'])
        || spec_is_name(name, seq!['s', 'p', 'a', 'c', 'e'])
        || spec_is_name(name, seq!['c', 's', 'p', 'a', 'c', 'e'])
        || spec_is_name(name, seq!['m', 's', 'p', 'a', 'c', 'e'])
}

fn length_tag(name: &[char]) -> (r: bool)
    ensures
        r == is_length_tag(name@),
{
    is_name(name, &['v', 'o', 'f', 'f', 's', 'e', 't'])
        || is_name(name, &['s', 'p', 'a', 'c', 'e'])
        || is_name(name, &['c', 's', 'p', 'a', 'c', 'e'])
        || is_name(name, &['m', 's', 'p', 'a', 'c', 'e'])
}

/// The `<mark>` attributes from `k` on hold a `padding` that does not have
/// four parameters; the scan stops at the first unnamed slot.
pub open spec fn mark_rejects(t: TagView, k: int) -> bool
    decreases t.attributes.len() - k,
{
    if k < 0 || k >= t.attributes.len() {
        false
    } else {
        let name = t.attributes[k].name;
        if name.len() == 0 {
            false
        } else if spec_is_name(name, seq!['m', 'a', 'r', 'k']) || name == seq!['c', 'o', 'l', 'o', 'r'] {
            mark_rejects(t, k + 1)
        } else if name == seq!['p', 'a', 'd', 'd', 'i', 'n', 'g'] && padding_parameter_count_spec(t, k) != 4 {
            true
        } else {
            mark_rejects(t, k + 1)
        }
    }
}

/// An `<i>` tag is accepted unless its `angle` attribute is missing a number
/// or holds one whose integer part lies outside -180..=180.
pub open spec fn italic_accepts(t: TagView) -> bool {
    if t.attributes.len() > 1 && spec_is_name(t.attributes[1].name, seq!['a', 'n', 'g', 'l', 'e']) {
        match tag_number_spec(t, 1) {
            Some(n) => n.scaled < 181 * NUMBER_SCALE,
            None => false,
        }
    } else {
        true
    }
}

/// Whether a tag that needs a valid value has one.
pub open spec fn valued_tag_accepts(t: TagView) -> bool {
    let name = tag_name_spec(t);
    if spec_is_name(name, seq!['i']) {
        italic_accepts(t)
    } else if spec_is_name(name, seq!['m', 'a', 'r', 'k']) {
        !mark_rejects(t, 0)
    } else if is_numeric_tag(name) {
        tag_number_spec(t, 0) is Some
    } else if is_length_tag(name) {
        tag_number_spec(t, 0) is Some && t.unit != Unit::Percentage
    } else if spec_is_name(name, seq!['w', 'i', 'd', 't', 'h']) {
        tag_number_spec(t, 0) is Some && t.unit != Unit::FontUnits
    } else if spec_is_name(name, seq!['f', 'o', 'n', 't']) || spec_is_name(name, seq!['m', 'a', 't', 'e', 'r', 'i', 'a', 'l']) {
        tag_value_spec(t, 0) == seq!['d', 'e', 'f', 'a', 'u', 'l', 't'] || tag_value_spec(t, 0) == seq!['D', 'e', 'f', 'a', 'u', 'l', 't']
    } else if spec_is_name(name, seq!['a', 'l', 'p', 'h', 'a']) {
        t.attributes[0].value_length == 3
    } else if spec_is_name(name, seq!['l', 'i', 'n', 'k']) || spec_is_name(name, seq!['/', 'c', 's', 'p', 'a', 'c', 'e']) {
        true
    } else if spec_is_name(name, seq!['a', 'l', 'i', 'g', 'n']) {
        let v = tag_value_spec(t, 0);
        v == seq!['l', 'e', 'f', 't'] || v == seq!['r', 'i', 'g', 'h', 't'] || v == seq!['c', 'e', 'n', 't', 'e', 'r']
            || v == seq!['j', 'u', 's', 't', 'i', 'f', 'i', 'e', 'd'] || v == seq!['f', 'l', 'u', 's', 'h']
    } else if spec_is_name(name, seq!['c', 'o', 'l', 'o', 'r']) {
        (tag_char_at_spec(t, 6) == '#' && (t.chars.len() == 10 || t.chars.len() == 11 || t.chars.len() == 13 || t.chars.len() == 15))
            || named_color_spec(tag_value_spec(t, 0)) is Some
    } else if spec_is_name(name, seq!['m', 'a', 'r', 'g', 'i', 'n']) {
        if t.attributes[0].value_type == ValueType::Number {
            tag_number_spec(t, 0) is Some
        } else {
            t.attributes[0].value_type == ValueType::Empty
        }
    } else {
        false
    }
}

/// What TextMesh Pro does with a scanned tag while `<noparse>` is or is not
/// open: `None` leaves it in the text as literal characters.
pub open spec fn tag_outcome(t: TagView, no_parse: bool) -> Option<FlagEffect> {
    let name = tag_name_spec(t);
    if no_parse && !spec_is_name(name, seq!['/', 'n', 'o', 'p', 'a', 'r', 's', 'e']) {
        None
    } else if spec_is_name(name, seq!['/', 'n', 'o', 'p', 'a', 'r', 's', 'e']) {
        Some(FlagEffect::LeaveNoParse)
    } else if t.chars.len() > 0 && t.chars[0] == '#' && (t.chars.len() == 4 || t.chars.len() == 5 || t.chars.len() == 7 || t.chars.len() == 9) {
        Some(FlagEffect::Keep)
    } else if named_tag_effect(name) is Some {
        named_tag_effect(name)
    } else if valued_tag_accepts(t) {
        Some(FlagEffect::Keep)
    } else {
        None
    }
}

fn mark_scan(tag: &ScannedTag) -> (rejects: bool)
    requires
        tag_wf(tag@),
    ensures
        rejects == mark_rejects(tag@, 0),
{
    let mut k: usize = 0;
    while k < tag.attributes.len()
        invariant
            tag_wf(tag@),
            k <= tag@.attributes.len(),
            mark_rejects(tag@, 0) == mark_rejects(tag@, k as int),
        decreases tag@.attributes.len() - k,
    {
        let name = &tag.attributes[k].name;
        assert(name@ == tag@.attributes[k as int].name);
        if name.len() == 0 {
            return false;
        }
        if is_name(name.as_slice(), &['m', 'a', 'r', 'k']) || chars_eq(name.as_slice(), &['c', 'o', 'l', 'o', 'r']) {
        } else if chars_eq(name.as_slice(), &['p', 'a', 'd', 'd', 'i', 'n', 'g']) && padding_parameter_count(tag, k) != 4 {
            return true;
        }
        k = k + 1;
    }
    false
}

fn italic_check(tag: &ScannedTag) -> (r: bool)
    requires
        tag_wf(tag@),
    ensures
        r == italic_accepts(tag@),
{
    if tag.attributes.len() > 1 && is_name(tag.attributes[1].name.as_slice(), &['a', 'n', 'g', 'l', 'e']) {
        assert(tag.attributes[1].name@ == tag@.attributes[1].name);
        match tag.number(1) {
            Some(n) => n.scaled < 181 * NUMBER_SCALE,
            None => false,
        }
    } else {
        proof {
            if tag@.attributes.len() > 1 {
                assert(tag.attributes[1].name@ == tag@.attributes[1].name);
            }
        }
        true
    }
}

fn valued_accepts(tag: &ScannedTag) -> (r: bool)
    requires
        tag_wf(tag@),
    ensures
        r == valued_tag_accepts(tag@),
{
    let name = tag.name().as_slice();
    assert(['i']@ == seq!['i']);
    if is_name(name, &['i']) {
        italic_check(tag)
    } else if is_name(name, &['m', 'a', 'r', 'k']) {
        !mark_scan(tag)
    } else if numeric_tag(name) {
        tag.number(0).is_some()
    } else if length_tag(name) {
        tag.number(0).is_some() && tag.unit != Unit::Percentage
    } else if is_name(name, &['w', 'i', 'd', 't', 'h']) {
        tag.number(0).is_some() && tag.unit != Unit::FontUnits
    } else if is_name(name, &['f', 'o', 'n', 't']) || is_name(name, &['m', 'a', 't', 'e', 'r', 'i', 'a', 'l']) {
        let v = tag.value(0);
        chars_eq(v.as_slice(), &['d', 'e', 'f', 'a', 'u', 'l', 't']) || chars_eq(v.as_slice(), &['D', 'e', 'f', 'a', 'u', 'l', 't'])
    } else if is_name(name, &['a', 'l', 'p', 'h', 'a']) {
        assert(tag.attributes[0]@ == tag@.attributes[0]);
        tag.attributes[0].value_length == 3
    } else if is_name(name, &['l', 'i', 'n', 'k']) || is_name(name, &['/', 'c', 's', 'p', 'a', 'c', 'e']) {
        true
    } else if is_name(name, &['a', 'l', 'i', 'g', 'n']) {
        let v = tag.value(0);
        let v = v.as_slice();
        chars_eq(v, &['l', 'e', 'f', 't']) || chars_eq(v, &['r', 'i', 'g', 'h', 't']) || chars_eq(v, &['c', 'e', 'n', 't', 'e', 'r'])
            || chars_eq(v, &['j', 'u', 's', 't', 'i', 'f', 'i', 'e', 'd']) || chars_eq(v, &['f', 'l', 'u', 's', 'h'])
    } else if is_name(name, &['c', 'o', 'l', 'o', 'r']) {
        let length = tag.chars.len();
        if tag.char_at(6) == '#' && (length == 10 || length == 11 || length == 13 || length == 15) {
            true
        } else {
            let v = tag.value(0);
            named_color(v.as_slice()).is_some()
        }
    } else if is_name(name, &['m', 'a', 'r', 'g', 'i', 'n']) {
        assert(tag.attributes[0]@ == tag@.attributes[0]);
        if tag.attributes[0].value_type == ValueType::Number {
            tag.number(0).is_some()
        } else {
            tag.attributes[0].value_type == ValueType::Empty
        }
    } else {
        false
    }
}

/// What TextMesh Pro does with a scanned tag; see [`tag_outcome`].
pub fn apply_tag(tag: &ScannedTag, no_parse: bool) -> (r: Option<FlagEffect>)
    requires
        tag_wf(tag@),
    ensures
        r == tag_outcome(tag@, no_parse),
{
    let name = tag.name().as_slice();
    let closes_noparse = is_name(name, &['/', 'n', 'o', 'p', 'a', 'r', 's', 'e']);
    if no_parse && !closes_noparse {
        None
    } else if closes_noparse {
        Some(FlagEffect::LeaveNoParse)
    } else if tag.chars.len() > 0 && tag.chars[0] == '#' && (tag.chars.len() == 4 || tag.chars.len() == 5 || tag.chars.len() == 7 || tag.chars.len() == 9) {
        Some(FlagEffect::Keep)
    } else {
        let named = named_effect(name);
        if named.is_some() {
            named
        } else if valued_accepts(tag) {
            Some(FlagEffect::Keep)
        } else {
            None
        }
    }
}


/// A character the markup leaves in the text.
#[derive(Debug, PartialEq, Eq)]
pub struct VisibleScalar {
    pub ch: char,
    /// Byte range of the source that produced it: the character itself, or
    /// the whole `<br>`, `<nbsp>` or `<zwsp>` tag.
    pub source: Range<usize>,
    /// Inside `<nobr>`.
    pub no_break: bool,
}

pub open spec fn pre_chars(pre: Seq<SourceScalar>) -> Seq<char> {
    pre.map_values(|p: SourceScalar| p.ch)
}

pub open spec fn after_no_parse(e: FlagEffect, no_parse: bool) -> bool {
    match e {
        FlagEffect::EnterNoParse => true,
        FlagEffect::LeaveNoParse => false,
        _ => no_parse,
    }
}

pub open spec fn after_no_break(e: FlagEffect, no_break: bool) -> bool {
    match e {
        FlagEffect::EnterNoBreak => true,
        FlagEffect::LeaveNoBreak => false,
        _ => no_break,
    }
}

/// A tag ends at a `>` after the index it starts at.
pub proof fn lemma_scan_from_bounds(chars: Seq<char>, index: int, s: ScanState)
    ensures
        scan_from(chars, index, s) matches Some((_, end)) ==> index <= end < chars.len(),
    decreases chars.len() - index,
{
    if !(index < 0 || index >= chars.len() || chars[index] == '\0' || s.tag.len() >= MAX_TAG_CHARS
        || chars[index] == '<') && chars[index] != '>' {
        if let Some(next) = scan_step(s, chars[index]) {
            lemma_scan_from_bounds(chars, index + 1, next);
        }
    }
}

/// The tag a `<` at `index` opens and what it does, when TextMesh Pro
/// accepts it: the index of its `>` and its effect.
pub open spec fn accepted_tag_at(chars: Seq<char>, index: int, no_parse: bool) -> Option<(int, FlagEffect)> {
    if 0 <= index < chars.len() && chars[index] == '<' {
        match scan_tag_spec(chars, index + 1) {
            Some((t, end)) => match tag_outcome(t, no_parse) {
                Some(e) => Some((end, e)),
                None => None,
            },
            None => None,
        }
    } else {
        None
    }
}

pub proof fn lemma_accepted_tag_bounds(chars: Seq<char>, index: int, no_parse: bool)
    ensures
        accepted_tag_at(chars, index, no_parse) matches Some((end, _)) ==> index < end < chars.len(),
{
    lemma_scan_from_bounds(chars, index + 1, initial_scan_state());
}

pub open spec fn visible_scalar_of(p: SourceScalar, no_break: bool) -> VisibleScalar {
    VisibleScalar { ch: p.ch, source: Range { start: p.start, end: p.end }, no_break }
}

/// The visible characters of the pre-markup characters from `index` on, with
/// `<noparse>` and `<nobr>` open or not.
pub open spec fn visible_from(pre: Seq<SourceScalar>, index: int, no_parse: bool, no_break: bool) -> Seq<VisibleScalar>
    decreases pre.len() - index,
{
    if index < 0 || index >= pre.len() {
        seq![]
    } else {
        match accepted_tag_at(pre_chars(pre), index, no_parse) {
            Some((end, e)) => {
                proof {
                    lemma_accepted_tag_bounds(pre_chars(pre), index, no_parse);
                }
                visible_from(pre, end + 1, after_no_parse(e, no_parse), after_no_break(e, no_break))
            },
            None => seq![visible_scalar_of(pre[index], no_break)] + visible_from(pre, index + 1, no_parse, no_break),
        }
    }
}

/// The characters the markup leaves in `raw`, in order.
pub open spec fn visible_scalars_spec(raw: Seq<char>) -> Seq<VisibleScalar> {
    visible_from(preprocess_from(raw, 0), 0, false, false)
}

/// The characters the markup leaves in the text, in order.
pub fn visible_scalars(raw: &str) -> (scalars: Vec<VisibleScalar>)
    ensures
        scalars@ == visible_scalars_spec(raw@),
{
    let pre = preprocess(raw);
    let mut chars: Vec<char> = Vec::new();
    let mut k: usize = 0;
    while k < pre.len()
        invariant
            k <= pre@.len(),
            chars@ == pre_chars(pre@).take(k as int),
        decreases pre.len() - k,
    {
        chars.push(pre[k].ch);
        k = k + 1;
        assert(chars@ =~= pre_chars(pre@).take(k as int));
    }
    assert(chars@ =~= pre_chars(pre@));
    let mut scalars: Vec<VisibleScalar> = Vec::new();
    let mut no_parse = false;
    let mut no_break = false;
    let mut index: usize = 0;
    while index < chars.len()
        invariant
            chars@ == pre_chars(pre@),
            pre@ == preprocess_from(raw@, 0),
            index <= chars@.len(),
            scalars@ + visible_from(pre@, index as int, no_parse, no_break)
                == visible_from(pre@, 0, false, false),
        decreases chars@.len() - index,
    {
        let mut accepted: Option<(usize, FlagEffect)> = None;
        if chars[index] == '<' {
            if let Some((tag, end)) = scan_tag(&chars, index + 1) {
                if let Some(effect) = apply_tag(&tag, no_parse) {
                    accepted = Some((end, effect));
                }
            }
        }
        match accepted {
            Some((end, effect)) => {
                proof {
                    assert(accepted_tag_at(chars@, index as int, no_parse) == Some((end as int, effect)));
                }
                match effect {
                    FlagEffect::EnterNoParse => no_parse = true,
                    FlagEffect::LeaveNoParse => no_parse = false,
                    FlagEffect::EnterNoBreak => no_break = true,
                    FlagEffect::LeaveNoBreak => no_break = false,
                    FlagEffect::Keep => {},
                }
                index = end + 1;
            },
            None => {
                proof {
                    assert(accepted_tag_at(chars@, index as int, no_parse) is None);
                }
                let p = pre[index];
                let scalar = VisibleScalar { ch: p.ch, source: Range { start: p.start, end: p.end }, no_break };
                proof {
                    assert(scalar == visible_scalar_of(pre@[index as int], no_break));
                    assert(scalars@.push(scalar) + visible_from(pre@, index + 1, no_parse, no_break)
                        =~= scalars@ + visible_from(pre@, index as int, no_parse, no_break));
                }
                scalars.push(scalar);
                index = index + 1;
            },
        }
    }
    assert(scalars@ + visible_from(pre@, index as int, no_parse, no_break) =~= scalars@);
    scalars
}

/// Without a `<`, every character is its own pre-markup character.
proof fn lemma_preprocess_plain(s: Seq<char>, i: int)
    requires
        0 <= i <= s.len(),
        forall|k: int| 0 <= k < s.len() ==> s[k] != '<',
    ensures
        preprocess_from(s, i).len() == s.len() - i,
        forall|k: int|
            0 <= k < s.len() - i ==> #[trigger] preprocess_from(s, i)[k] == source_scalar(s, s[i + k], i + k, i + k + 1),
    decreases s.len() - i,
{
    if i < s.len() {
        lemma_preprocess_plain(s, i + 1);
        assert(replacement(s, i) is None);
        let rest = preprocess_from(s, i + 1);
        assert forall|k: int| 0 <= k < s.len() - i implies #[trigger] preprocess_from(s, i)[k] == source_scalar(
            s,
            s[i + k],
            i + k,
            i + k + 1,
        ) by {
            if k > 0 {
                assert(preprocess_from(s, i)[k] == rest[k - 1]);
            }
        }
    }
}

/// Without a `<`, every pre-markup character from `index` on is visible.
proof fn lemma_visible_plain(pre: Seq<SourceScalar>, index: int)
    requires
        0 <= index <= pre.len(),
        forall|k: int| 0 <= k < pre.len() ==> (#[trigger] pre[k]).ch != '<',
    ensures
        visible_from(pre, index, false, false).len() == pre.len() - index,
        forall|k: int|
            0 <= k < pre.len() - index ==> #[trigger] visible_from(pre, index, false, false)[k] == visible_scalar_of(
                pre[index + k],
                false,
            ),
    decreases pre.len() - index,
{
    if index < pre.len() {
        lemma_visible_plain(pre, index + 1);
        assert(pre_chars(pre)[index] == pre[index].ch);
        assert(accepted_tag_at(pre_chars(pre), index, false) is None);
        let rest = visible_from(pre, index + 1, false, false);
        assert forall|k: int| 0 <= k < pre.len() - index implies #[trigger] visible_from(pre, index, false, false)[k]
            == visible_scalar_of(pre[index + k], false) by {
            if k > 0 {
                assert(visible_from(pre, index, false, false)[k] == rest[k - 1]);
            }
        }
    }
}

/// Text without markup is its own visible text: each character is visible,
/// outside `<nobr>`, and points back at its own bytes.
pub proof fn law_markup_free_text_is_its_own_visible_text(raw: Seq<char>)
    requires
        forall|k: int| 0 <= k < raw.len() ==> raw[k] != '<',
    ensures
        visible_scalars_spec(raw).len() == raw.len(),
        forall|k: int|
            0 <= k < raw.len() ==> #[trigger] visible_scalars_spec(raw)[k] == visible_scalar_of(
                source_scalar(raw, raw[k], k, k + 1),
                false,
            ),
{
    lemma_preprocess_plain(raw, 0);
    let pre = preprocess_from(raw, 0);
    assert forall|k: int| 0 <= k < pre.len() implies (#[trigger] pre[k]).ch != '<' by {
        assert(pre[k] == source_scalar(raw, raw[0 + k], 0 + k, 0 + k + 1));
    }
    lemma_visible_plain(pre, 0);
    assert forall|k: int| 0 <= k < raw.len() implies #[trigger] visible_scalars_spec(raw)[k] == visible_scalar_of(
        source_scalar(raw, raw[k], k, k + 1),
        false,
    ) by {
        assert(visible_from(pre, 0, false, false)[k] == visible_scalar_of(pre[0 + k], false));
        assert(pre[0 + k] == source_scalar(raw, raw[0 + k], 0 + k, 0 + k + 1));
    }
}

/// The character ranges of `s` that the pre-markup characters from `i` on
/// come from, alongside [`preprocess_from`].
pub open spec fn preprocess_ranges(s: Seq<char>, i: int) -> Seq<(int, int)>
    decreases s.len() - i,
{
    if i < 0 || i >= s.len() {
        seq![]
    } else {
        match replacement(s, i) {
            Some((replaced, length)) => {
                let end = if i + length < s.len() { i + length } else { s.len() as int };
                if end <= i {
                    seq![]
                } else {
                    match replaced {
                        Some(c) => seq![(i, end)] + preprocess_ranges(s, end),
                        None => preprocess_ranges(s, end),
                    }
                }
            },
            None => seq![(i, i + 1)] + preprocess_ranges(s, i + 1),
        }
    }
}

/// Character ranges that lie in `lo..hi`, each non-empty and each ending
/// before the next begins.
pub open spec fn ordered_ranges(r: Seq<(int, int)>, lo: int, hi: int) -> bool {
    &&& forall|k: int| 0 <= k < r.len() ==> lo <= (#[trigger] r[k]).0 < r[k].1 <= hi
    &&& forall|k: int, l: int| 0 <= k < l < r.len() ==> (#[trigger] r[k]).1 <= (#[trigger] r[l]).0
}

proof fn lemma_preprocess_ranges(s: Seq<char>, i: int)
    requires
        0 <= i <= s.len(),
    ensures
        preprocess_ranges(s, i).len() == preprocess_from(s, i).len(),
        ordered_ranges(preprocess_ranges(s, i), i, s.len() as int),
        forall|k: int|
            0 <= k < preprocess_from(s, i).len() ==> {
                &&& (#[trigger] preprocess_from(s, i)[k]).start == byte_offset(s, preprocess_ranges(s, i)[k].0) as usize
                &&& preprocess_from(s, i)[k].end == byte_offset(s, preprocess_ranges(s, i)[k].1) as usize
            },
    decreases s.len() - i,
{
    if i < s.len() {
        let pre = preprocess_from(s, i);
        let r = preprocess_ranges(s, i);
        match replacement(s, i) {
            Some((replaced, length)) => {
                let end = if i + length < s.len() { i + length } else { s.len() as int };
                if end > i {
                    lemma_preprocess_ranges(s, end);
                    let rest = preprocess_ranges(s, end);
                    let prest = preprocess_from(s, end);
                    match replaced {
                        Some(c) => {
                            assert forall|k: int| 0 <= k < r.len() implies i <= (#[trigger] r[k]).0 < r[k].1 <= s.len() by {
                                if k > 0 {
                                    assert(r[k] == rest[k - 1]);
                                }
                            }
                            assert forall|k: int, l: int| 0 <= k < l < r.len() implies (#[trigger] r[k]).1 <= (
                            #[trigger] r[l]).0 by {
                                assert(r[l] == rest[l - 1]);
                                if k > 0 {
                                    assert(r[k] == rest[k - 1]);
                                }
                            }
                            assert forall|k: int| 0 <= k < pre.len() implies {
                                &&& (#[trigger] pre[k]).start == byte_offset(s, r[k].0) as usize
                                &&& pre[k].end == byte_offset(s, r[k].1) as usize
                            } by {
                                if k > 0 {
                                    assert(pre[k] == prest[k - 1]);
                                    assert(r[k] == rest[k - 1]);
                                }
                            }
                        },
                        None => {},
                    }
                }
            },
            None => {
                lemma_preprocess_ranges(s, i + 1);
                let rest = preprocess_ranges(s, i + 1);
                let prest = preprocess_from(s, i + 1);
                assert forall|k: int| 0 <= k < r.len() implies i <= (#[trigger] r[k]).0 < r[k].1 <= s.len() by {
                    if k > 0 {
                        assert(r[k] == rest[k - 1]);
                    }
                }
                assert forall|k: int, l: int| 0 <= k < l < r.len() implies (#[trigger] r[k]).1 <= (#[trigger] r[l]).0 by {
                    assert(r[l] == rest[l - 1]);
                    if k > 0 {
                        assert(r[k] == rest[k - 1]);
                    }
                }
                assert forall|k: int| 0 <= k < pre.len() implies {
                    &&& (#[trigger] pre[k]).start == byte_offset(s, r[k].0) as usize
                    &&& pre[k].end == byte_offset(s, r[k].1) as usize
                } by {
                    if k > 0 {
                        assert(pre[k] == prest[k - 1]);
                        assert(r[k] == rest[k - 1]);
                    }
                }
            },
        }
    }
}

/// The pre-markup characters [`visible_from`] keeps, by index.
pub open spec fn visible_picks(pre: Seq<SourceScalar>, index: int, no_parse: bool, no_break: bool) -> Seq<int>
    decreases pre.len() - index,
{
    if index < 0 || index >= pre.len() {
        seq![]
    } else {
        match accepted_tag_at(pre_chars(pre), index, no_parse) {
            Some((end, e)) => {
                proof {
                    lemma_accepted_tag_bounds(pre_chars(pre), index, no_parse);
                }
                visible_picks(pre, end + 1, after_no_parse(e, no_parse), after_no_break(e, no_break))
            },
            None => seq![index] + visible_picks(pre, index + 1, no_parse, no_break),
        }
    }
}

proof fn lemma_visible_picks(pre: Seq<SourceScalar>, index: int, no_parse: bool, no_break: bool)
    requires
        0 <= index,
    ensures
        visible_picks(pre, index, no_parse, no_break).len() == visible_from(pre, index, no_parse, no_break).len(),
        forall|k: int|
            0 <= k < visible_picks(pre, index, no_parse, no_break).len() ==> {
                &&& index <= #[trigger] visible_picks(pre, index, no_parse, no_break)[k] < pre.len()
                &&& visible_from(pre, index, no_parse, no_break)[k].ch == pre[visible_picks(pre, index, no_parse, no_break)[k]].ch
                &&& visible_from(pre, index, no_parse, no_break)[k].source.start == pre[visible_picks(
                    pre,
                    index,
                    no_parse,
                    no_break,
                )[k]].start
                &&& visible_from(pre, index, no_parse, no_break)[k].source.end == pre[visible_picks(
                    pre,
                    index,
                    no_parse,
                    no_break,
                )[k]].end
            },
        forall|k: int, l: int|
            0 <= k < l < visible_picks(pre, index, no_parse, no_break).len() ==> #[trigger] visible_picks(
                pre,
                index,
                no_parse,
                no_break,
            )[k] < #[trigger] visible_picks(pre, index, no_parse, no_break)[l],
    decreases pre.len() - index,
{
    if index < pre.len() {
        match accepted_tag_at(pre_chars(pre), index, no_parse) {
            Some((end, e)) => {
                lemma_accepted_tag_bounds(pre_chars(pre), index, no_parse);
                lemma_visible_picks(pre, end + 1, after_no_parse(e, no_parse), after_no_break(e, no_break));
            },
            None => {
                lemma_visible_picks(pre, index + 1, no_parse, no_break);
                let p = visible_picks(pre, index, no_parse, no_break);
                let rest = visible_picks(pre, index + 1, no_parse, no_break);
                let v = visible_from(pre, index, no_parse, no_break);
                let vrest = visible_from(pre, index + 1, no_parse, no_break);
                assert forall|k: int| 0 <= k < p.len() implies {
                    &&& index <= #[trigger] p[k] < pre.len()
                    &&& v[k].ch == pre[p[k]].ch
                    &&& v[k].source.start == pre[p[k]].start
                    &&& v[k].source.end == pre[p[k]].end
                } by {
                    if k > 0 {
                        assert(p[k] == rest[k - 1]);
                        assert(v[k] == vrest[k - 1]);
                    }
                }
                assert forall|k: int, l: int| 0 <= k < l < p.len() implies #[trigger] p[k] < #[trigger] p[l] by {
                    assert(p[l] == rest[l - 1]);
                    if k > 0 {
                        assert(p[k] == rest[k - 1]);
                    }
                }
            },
        }
    }
}

/// The character range of `raw` each visible character comes from.
pub open spec fn visible_char_ranges(raw: Seq<char>) -> Seq<(int, int)> {
    let ranges = preprocess_ranges(raw, 0);
    visible_picks(preprocess_from(raw, 0), 0, false, false).map_values(|p: int| ranges[p])
}

/// Visible characters point back at their source: each one's bytes are the
/// bytes of a range of whole characters of the text, the ranges in order
/// and apart.
pub proof fn law_visible_scalars_cover_whole_characters(raw: Seq<char>)
    requires
        byte_offset(raw, raw.len() as int) <= usize::MAX,
    ensures
        visible_char_ranges(raw).len() == visible_scalars_spec(raw).len(),
        ordered_ranges(visible_char_ranges(raw), 0, raw.len() as int),
        forall|k: int|
            0 <= k < visible_scalars_spec(raw).len() ==> {
                &&& (#[trigger] visible_scalars_spec(raw)[k]).source.start == byte_offset(
                    raw,
                    visible_char_ranges(raw)[k].0,
                )
                &&& visible_scalars_spec(raw)[k].source.end == byte_offset(raw, visible_char_ranges(raw)[k].1)
                &&& (visible_char_ranges(raw)[k].1 == visible_char_ranges(raw)[k].0 + 1 ==> visible_scalars_spec(
                    raw,
                )[k].ch == raw[visible_char_ranges(raw)[k].0])
            },
{
    let pre = preprocess_from(raw, 0);
    let ranges = preprocess_ranges(raw, 0);
    lemma_preprocess_ranges(raw, 0);
    lemma_visible_picks(pre, 0, false, false);
    let picks = visible_picks(pre, 0, false, false);
    let c = visible_char_ranges(raw);
    let v = visible_scalars_spec(raw);
    assert forall|k: int, l: int| 0 <= k < l < c.len() implies (#[trigger] c[k]).1 <= (#[trigger] c[l]).0 by {
        assert(picks[k] < picks[l]);
        assert(c[k] == ranges[picks[k]]);
        assert(c[l] == ranges[picks[l]]);
    }
    assert forall|k: int| 0 <= k < v.len() implies {
        &&& (#[trigger] v[k]).source.start == byte_offset(raw, c[k].0)
        &&& v[k].source.end == byte_offset(raw, c[k].1)
        &&& (c[k].1 == c[k].0 + 1 ==> v[k].ch == raw[c[k].0])
    } by {
        let p = picks[k];
        assert(0 <= p < pre.len());
        assert(c[k] == ranges[p]);
        crate::unicode::lemma_byte_offset_mono(raw, ranges[p].0, raw.len() as int);
        crate::unicode::lemma_byte_offset_mono(raw, ranges[p].1, raw.len() as int);
        lemma_single_range_keeps_its_character(raw, 0, p);
    }
}

/// A pre-markup character that comes from a single character is that
/// character: only the replacement tags, which span several characters,
/// change it.
proof fn lemma_single_range_keeps_its_character(s: Seq<char>, i: int, k: int)
    requires
        0 <= i <= s.len(),
        0 <= k < preprocess_from(s, i).len(),
    ensures
        preprocess_ranges(s, i).len() == preprocess_from(s, i).len(),
        preprocess_ranges(s, i)[k].1 == preprocess_ranges(s, i)[k].0 + 1 ==> preprocess_from(s, i)[k].ch
            == s[preprocess_ranges(s, i)[k].0],
    decreases s.len() - i,
{
    lemma_preprocess_ranges(s, i);
    let pre = preprocess_from(s, i);
    let r = preprocess_ranges(s, i);
    if i < s.len() {
        match replacement(s, i) {
            Some((replaced, length)) => {
                let end = if i + length < s.len() { i + length } else { s.len() as int };
                assert(length == 4 || length == 6 || length == 8);
                if end > i {
                    match replaced {
                        Some(c) => {
                            assert(pre == seq![source_scalar(s, c, i, end)] + preprocess_from(s, end));
                            assert(r == seq![(i, end)] + preprocess_ranges(s, end));
                            if k > 0 {
                                lemma_single_range_keeps_its_character(s, end, k - 1);
                                assert(pre[k] == preprocess_from(s, end)[k - 1]);
                                assert(r[k] == preprocess_ranges(s, end)[k - 1]);
                            } else if end == i + 1 {
                                let name = replacement_name_from(s, i + 1, 16);
                                assert(name.len() == 0);
                                assert(seq!['B', 'R'].len() == 2);
                                assert(seq!['N', 'B', 'S', 'P'].len() == 4);
                                assert(seq!['Z', 'W', 'S', 'P'].len() == 4);
                                assert(seq!['/', 'S', 'T', 'Y', 'L', 'E'].len() == 6);
                                assert(replacement(s, i).is_none());
                            }
                        },
                        None => {
                            assert(pre == preprocess_from(s, end));
                            assert(r == preprocess_ranges(s, end));
                            lemma_single_range_keeps_its_character(s, end, k);
                        },
                    }
                }
            },
            None => {
                assert(pre == seq![source_scalar(s, s[i], i, i + 1)] + preprocess_from(s, i + 1));
                assert(r == seq![(i, i + 1)] + preprocess_ranges(s, i + 1));
                if k > 0 {
                    lemma_single_range_keeps_its_character(s, i + 1, k - 1);
                    assert(pre[k] == preprocess_from(s, i + 1)[k - 1]);
                    assert(r[k] == preprocess_ranges(s, i + 1)[k - 1]);
                }
            },
        }
    }
}

} // verus!
