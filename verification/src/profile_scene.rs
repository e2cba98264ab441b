//! Names and errors of the profile scene: what each authored element kind
//! is called, and why resolving a profile can fail.

use vstd::prelude::*;

use crate::profile_source::{CustomProfileCard, ObjectData};
use crate::text::{decimal_digits, digits_of, padded_decimal, push_chars, push_padded_decimal};
use vstd::string::StringExecFns;

verus! {

broadcast use vstd::string::group_string_axioms;

/// The kinds of element a custom profile card holds, in the order the card
/// lists its arrays.
#[derive(Clone, Copy, Debug, PartialEq, Eq, Hash, PartialOrd, Ord, Structural)]
pub enum AuthoredElementKind {
    Text,
    Shape,
    CardMember,
    Stamp,
    Other,
    BondsHonor,
    Honor,
    Collection,
    General,
    StandMember,
    GeneralBackground,
    StoryBackground,
}

/// The name of an element kind in layer identities.
pub open spec fn kind_name(kind: AuthoredElementKind) -> Seq<char> {
    match kind {
        AuthoredElementKind::Text => "text"@,
        AuthoredElementKind::Shape => "shape"@,
        AuthoredElementKind::CardMember => "card-member"@,
        AuthoredElementKind::Stamp => "stamp"@,
        AuthoredElementKind::Other => "other"@,
        AuthoredElementKind::BondsHonor => "bonds-honor"@,
        AuthoredElementKind::Honor => "honor"@,
        AuthoredElementKind::Collection => "collection"@,
        AuthoredElementKind::General => "general"@,
        AuthoredElementKind::StandMember => "stand-member"@,
        AuthoredElementKind::GeneralBackground => "general-background"@,
        AuthoredElementKind::StoryBackground => "story-background"@,
    }
}

/// The name of an element kind in layer identities.
pub fn authored_kind_name(kind: AuthoredElementKind) -> (r: &'static str)
    ensures
        r@ == kind_name(kind),
{
    match kind {
        AuthoredElementKind::Text => "text",
        AuthoredElementKind::Shape => "shape",
        AuthoredElementKind::CardMember => "card-member",
        AuthoredElementKind::Stamp => "stamp",
        AuthoredElementKind::Other => "other",
        AuthoredElementKind::BondsHonor => "bonds-honor",
        AuthoredElementKind::Honor => "honor",
        AuthoredElementKind::Collection => "collection",
        AuthoredElementKind::General => "general",
        AuthoredElementKind::StandMember => "stand-member",
        AuthoredElementKind::GeneralBackground => "general-background",
        AuthoredElementKind::StoryBackground => "story-background",
    }
}

/// The position of a kind among the card's arrays; elements on one layer
/// are drawn in this order of their kinds.
pub open spec fn kind_rank(kind: AuthoredElementKind) -> int {
    match kind {
        AuthoredElementKind::Text => 0,
        AuthoredElementKind::Shape => 1,
        AuthoredElementKind::CardMember => 2,
        AuthoredElementKind::Stamp => 3,
        AuthoredElementKind::Other => 4,
        AuthoredElementKind::BondsHonor => 5,
        AuthoredElementKind::Honor => 6,
        AuthoredElementKind::Collection => 7,
        AuthoredElementKind::General => 8,
        AuthoredElementKind::StandMember => 9,
        AuthoredElementKind::GeneralBackground => 10,
        AuthoredElementKind::StoryBackground => 11,
    }
}

fn kind_order(kind: AuthoredElementKind) -> (r: u8)
    ensures
        r == kind_rank(kind),
{
    match kind {
        AuthoredElementKind::Text => 0,
        AuthoredElementKind::Shape => 1,
        AuthoredElementKind::CardMember => 2,
        AuthoredElementKind::Stamp => 3,
        AuthoredElementKind::Other => 4,
        AuthoredElementKind::BondsHonor => 5,
        AuthoredElementKind::Honor => 6,
        AuthoredElementKind::Collection => 7,
        AuthoredElementKind::General => 8,
        AuthoredElementKind::StandMember => 9,
        AuthoredElementKind::GeneralBackground => 10,
        AuthoredElementKind::StoryBackground => 11,
    }
}

/// The elements of `card` of one kind.
pub open spec fn card_group(card: CustomProfileCard, kind: AuthoredElementKind) -> Seq<ObjectData> {
    match kind {
        AuthoredElementKind::Text => card.texts@,
        AuthoredElementKind::Shape => card.shapes@,
        AuthoredElementKind::CardMember => card.card_members@,
        AuthoredElementKind::Stamp => card.stamps@,
        AuthoredElementKind::Other => card.others@,
        AuthoredElementKind::BondsHonor => card.bonds_honors@,
        AuthoredElementKind::Honor => card.honors@,
        AuthoredElementKind::Collection => card.collections@,
        AuthoredElementKind::General => card.generals@,
        AuthoredElementKind::StandMember => card.stand_members@,
        AuthoredElementKind::GeneralBackground => card.general_backgrounds@,
        AuthoredElementKind::StoryBackground => card.story_backgrounds@,
    }
}

fn group_of(card: &CustomProfileCard, kind: AuthoredElementKind) -> (group: &Vec<ObjectData>)
    ensures
        group@ == card_group(*card, kind),
{
    match kind {
        AuthoredElementKind::Text => &card.texts,
        AuthoredElementKind::Shape => &card.shapes,
        AuthoredElementKind::CardMember => &card.card_members,
        AuthoredElementKind::Stamp => &card.stamps,
        AuthoredElementKind::Other => &card.others,
        AuthoredElementKind::BondsHonor => &card.bonds_honors,
        AuthoredElementKind::Honor => &card.honors,
        AuthoredElementKind::Collection => &card.collections,
        AuthoredElementKind::General => &card.generals,
        AuthoredElementKind::StandMember => &card.stand_members,
        AuthoredElementKind::GeneralBackground => &card.general_backgrounds,
        AuthoredElementKind::StoryBackground => &card.story_backgrounds,
    }
}

/// One element of a card, by kind.
#[derive(Clone, Copy, Debug, PartialEq)]
pub enum ProfileElementRef<'a> {
    Text(&'a ObjectData),
    Shape(&'a ObjectData),
    CardMember(&'a ObjectData),
    Stamp(&'a ObjectData),
    Other(&'a ObjectData),
    BondsHonor(&'a ObjectData),
    Honor(&'a ObjectData),
    Collection(&'a ObjectData),
    General(&'a ObjectData),
    StandMember(&'a ObjectData),
    GeneralBackground(&'a ObjectData),
    StoryBackground(&'a ObjectData),
}

/// The object data an element reference points at.
pub open spec fn ref_object(value: ProfileElementRef) -> ObjectData {
    match value {
        ProfileElementRef::Text(v) => *v,
        ProfileElementRef::Shape(v) => *v,
        ProfileElementRef::CardMember(v) => *v,
        ProfileElementRef::Stamp(v) => *v,
        ProfileElementRef::Other(v) => *v,
        ProfileElementRef::BondsHonor(v) => *v,
        ProfileElementRef::Honor(v) => *v,
        ProfileElementRef::Collection(v) => *v,
        ProfileElementRef::General(v) => *v,
        ProfileElementRef::StandMember(v) => *v,
        ProfileElementRef::GeneralBackground(v) => *v,
        ProfileElementRef::StoryBackground(v) => *v,
    }
}

/// The kind of element a reference points at.
pub open spec fn ref_kind(value: ProfileElementRef) -> AuthoredElementKind {
    match value {
        ProfileElementRef::Text(_) => AuthoredElementKind::Text,
        ProfileElementRef::Shape(_) => AuthoredElementKind::Shape,
        ProfileElementRef::CardMember(_) => AuthoredElementKind::CardMember,
        ProfileElementRef::Stamp(_) => AuthoredElementKind::Stamp,
        ProfileElementRef::Other(_) => AuthoredElementKind::Other,
        ProfileElementRef::BondsHonor(_) => AuthoredElementKind::BondsHonor,
        ProfileElementRef::Honor(_) => AuthoredElementKind::Honor,
        ProfileElementRef::Collection(_) => AuthoredElementKind::Collection,
        ProfileElementRef::General(_) => AuthoredElementKind::General,
        ProfileElementRef::StandMember(_) => AuthoredElementKind::StandMember,
        ProfileElementRef::GeneralBackground(_) => AuthoredElementKind::GeneralBackground,
        ProfileElementRef::StoryBackground(_) => AuthoredElementKind::StoryBackground,
    }
}

impl<'a> ProfileElementRef<'a> {
    /// The element's object data.
    pub fn object(&self) -> (object: &'a ObjectData)
        ensures
            *object == ref_object(*self),
    {
        match self {
            ProfileElementRef::Text(v) => v,
            ProfileElementRef::Shape(v) => v,
            ProfileElementRef::CardMember(v) => v,
            ProfileElementRef::Stamp(v) => v,
            ProfileElementRef::Other(v) => v,
            ProfileElementRef::BondsHonor(v) => v,
            ProfileElementRef::Honor(v) => v,
            ProfileElementRef::Collection(v) => v,
            ProfileElementRef::General(v) => v,
            ProfileElementRef::StandMember(v) => v,
            ProfileElementRef::GeneralBackground(v) => v,
            ProfileElementRef::StoryBackground(v) => v,
        }
    }
}

fn element_ref<'a>(kind: AuthoredElementKind, object: &'a ObjectData) -> (value: ProfileElementRef<'a>)
    ensures
        ref_object(value) == *object,
        ref_kind(value) == kind,
{
    match kind {
        AuthoredElementKind::Text => ProfileElementRef::Text(object),
        AuthoredElementKind::Shape => ProfileElementRef::Shape(object),
        AuthoredElementKind::CardMember => ProfileElementRef::CardMember(object),
        AuthoredElementKind::Stamp => ProfileElementRef::Stamp(object),
        AuthoredElementKind::Other => ProfileElementRef::Other(object),
        AuthoredElementKind::BondsHonor => ProfileElementRef::BondsHonor(object),
        AuthoredElementKind::Honor => ProfileElementRef::Honor(object),
        AuthoredElementKind::Collection => ProfileElementRef::Collection(object),
        AuthoredElementKind::General => ProfileElementRef::General(object),
        AuthoredElementKind::StandMember => ProfileElementRef::StandMember(object),
        AuthoredElementKind::GeneralBackground => ProfileElementRef::GeneralBackground(object),
        AuthoredElementKind::StoryBackground => ProfileElementRef::StoryBackground(object),
    }
}

/// An element of a card with the identity the scene gives it.
#[derive(Clone, Debug, PartialEq)]
pub struct NormalizedProfileElement<'a> {
    pub kind: AuthoredElementKind,
    pub source_index: usize,
    pub source_key: String,
    pub value: ProfileElementRef<'a>,
}

impl<'a> NormalizedProfileElement<'a> {
    /// The element's object data.
    pub fn object(&self) -> (object: &'a ObjectData)
        ensures
            *object == ref_object(self.value),
    {
        self.value.object()
    }
}

/// The key that names element `source_index` of a kind within a document:
/// `{document_key}\0{kind}-source-{source_index}`.
pub open spec fn source_key_spec(document_key: Seq<char>, kind: AuthoredElementKind, source_index: nat) -> Seq<char> {
    document_key + seq!['\0'] + kind_name(kind) + "-source-"@ + decimal_digits(source_index)
}

/// The key that names element `source_index` of a kind within a document.
pub fn element_source_key(document_key: &str, kind: AuthoredElementKind, source_index: usize) -> (key: String)
    ensures
        key@ == source_key_spec(document_key@, kind, source_index as nat),
{
    let mut key = String::from_str(document_key);
    crate::unicode::string_push(&mut key, '\0');
    key.append(authored_kind_name(kind));
    key.append("-source-");
    let digits = digits_of(source_index as u64);
    push_chars(&mut key, digits.as_slice());
    key
}

/// `a` is drawn before `b`: a lower layer, or on one layer a kind listed
/// earlier, or of one kind an earlier element.
pub open spec fn drawn_before(a: NormalizedProfileElement, b: NormalizedProfileElement) -> bool {
    let la = ref_object(a.value).layer;
    let lb = ref_object(b.value).layer;
    ||| la < lb
    ||| la == lb && kind_rank(a.kind) < kind_rank(b.kind)
    ||| la == lb && a.kind == b.kind && a.source_index < b.source_index
}

/// Each element is drawn before every later one.
pub open spec fn in_draw_order(elements: Seq<NormalizedProfileElement>) -> bool {
    forall|i: int, j: int| 0 <= i < j < elements.len() ==> drawn_before(#[trigger] elements[i], #[trigger] elements[j])
}

/// `e` is element `e.source_index` of kind `e.kind` of `card`, named within
/// `document_key`.
pub open spec fn is_card_element(card: CustomProfileCard, document_key: Seq<char>, e: NormalizedProfileElement) -> bool {
    &&& e.source_index < card_group(card, e.kind).len()
    &&& ref_kind(e.value) == e.kind
    &&& ref_object(e.value) == card_group(card, e.kind)[e.source_index as int]
    &&& e.source_key@ == source_key_spec(document_key, e.kind, e.source_index as nat)
}

/// Element `index` of `kind` occurs in `elements`.
pub open spec fn lists_element(elements: Seq<NormalizedProfileElement>, kind: AuthoredElementKind, index: int) -> bool {
    exists|i: int| 0 <= i < elements.len() && (#[trigger] elements[i]).kind == kind && elements[i].source_index == index
}

fn insert_in_draw_order<'a>(elements: &mut Vec<NormalizedProfileElement<'a>>, e: NormalizedProfileElement<'a>)
    requires
        in_draw_order(old(elements)@),
        forall|i: int|
            0 <= i < old(elements)@.len() ==> (#[trigger] old(elements)@[i]).kind != e.kind
                || old(elements)@[i].source_index != e.source_index,
    ensures
        in_draw_order(final(elements)@),
        exists|p: int| 0 <= p <= old(elements)@.len() && final(elements)@ == old(elements)@.insert(p, e),
{
    let layer = e.object().layer;
    let rank = kind_order(e.kind);
    let index = e.source_index;
    let mut p: usize = 0;
    while p < elements.len()
        invariant
            p <= elements@.len(),
            elements@ == old(elements)@,
            layer == ref_object(e.value).layer,
            rank == kind_rank(e.kind),
            index == e.source_index,
            forall|k: int| 0 <= k < p ==> drawn_before(#[trigger] elements@[k], e),
        ensures
            p <= elements@.len(),
            elements@ == old(elements)@,
            forall|k: int| 0 <= k < p ==> drawn_before(#[trigger] elements@[k], e),
            p < elements@.len() ==> !drawn_before(elements@[p as int], e),
        decreases elements.len() - p,
    {
        let other_layer = elements[p].object().layer;
        let other_rank = kind_order(elements[p].kind);
        let before = other_layer < layer || (other_layer == layer && other_rank < rank) || (other_layer == layer
            && other_rank == rank && elements[p].source_index < index);
        proof {
            let q = elements@[p as int];
            if kind_rank(q.kind) == kind_rank(e.kind) {
                assert(q.kind == e.kind);
            }
        }
        if !before {
            break;
        }
        p = p + 1;
    }
    let ghost old_elements = elements@;
    proof {
        if p < old_elements.len() {
            let q = old_elements[p as int];
            assert(!drawn_before(q, e));
            assert(q.kind != e.kind || q.source_index != e.source_index);
            if kind_rank(q.kind) == kind_rank(e.kind) {
                assert(q.kind == e.kind);
            }
            assert(drawn_before(e, q));
        }
    }
    elements.insert(p, e);
    proof {
        let n = elements@;
        assert(n == old_elements.insert(p as int, e));
        assert forall|i: int, j: int| 0 <= i < j < n.len() implies drawn_before(#[trigger] n[i], #[trigger] n[j]) by {
            if j < p {
                assert(n[i] == old_elements[i] && n[j] == old_elements[j]);
            } else if i > p {
                assert(n[i] == old_elements[i - 1] && n[j] == old_elements[j - 1]);
            } else if i == p {
                assert(n[j] == old_elements[j - 1]);
                if j - 1 > p {
                    assert(drawn_before(old_elements[p as int], old_elements[j - 1]));
                }
            } else {
                assert(n[i] == old_elements[i]);
                if j > p {
                    assert(n[j] == old_elements[j - 1]);
                    assert(drawn_before(old_elements[i], e));
                    if p < old_elements.len() {
                        assert(drawn_before(e, old_elements[p as int]));
                        if j - 1 > p {
                            assert(drawn_before(old_elements[p as int], old_elements[j - 1]));
                        }
                    }
                }
            }
        }
    }
}

/// The elements of `card` whose kind comes before `kind` in the card's
/// order, and those of `kind` before `index`, are exactly the elements
/// listed.
pub open spec fn holds_elements_before(
    card: CustomProfileCard,
    document_key: Seq<char>,
    elements: Seq<NormalizedProfileElement>,
    rank: int,
    index: int,
) -> bool {
    &&& forall|i: int|
        0 <= i < elements.len() ==> is_card_element(card, document_key, #[trigger] elements[i]) && (kind_rank(
            elements[i].kind,
        ) < rank || (kind_rank(elements[i].kind) == rank && elements[i].source_index < index))
    &&& forall|kind: AuthoredElementKind, j: int|
        0 <= j < card_group(card, kind).len() && (kind_rank(kind) < rank || (kind_rank(kind) == rank && j < index))
            ==> #[trigger] lists_element(elements, kind, j)
}

fn insert_group<'a>(
    elements: &mut Vec<NormalizedProfileElement<'a>>,
    card: &'a CustomProfileCard,
    document_key: &str,
    kind: AuthoredElementKind,
)
    requires
        in_draw_order(old(elements)@),
        holds_elements_before(*card, document_key@, old(elements)@, kind_rank(kind), 0),
    ensures
        in_draw_order(final(elements)@),
        holds_elements_before(*card, document_key@, final(elements)@, kind_rank(kind) + 1, 0),
{
    let group = group_of(card, kind);
    let mut j: usize = 0;
    while j < group.len()
        invariant
            j <= group@.len(),
            group@ == card_group(*card, kind),
            in_draw_order(elements@),
            holds_elements_before(*card, document_key@, elements@, kind_rank(kind), j as int),
        decreases group.len() - j,
    {
        let e = NormalizedProfileElement {
            kind,
            source_index: j,
            source_key: element_source_key(document_key, kind, j),
            value: element_ref(kind, &group[j]),
        };
        let ghost before = elements@;
        proof {
            assert forall|i: int| 0 <= i < before.len() implies (#[trigger] before[i]).kind != e.kind
                || before[i].source_index != e.source_index by {
                assert(is_card_element(*card, document_key@, before[i]));
            }
        }
        insert_in_draw_order(elements, e);
        proof {
            let n = elements@;
            let p = choose|p: int| 0 <= p <= before.len() && n == before.insert(p, e);
            assert(is_card_element(*card, document_key@, e));
            assert forall|i: int| 0 <= i < n.len() implies is_card_element(*card, document_key@, #[trigger] n[i]) && (
            kind_rank(n[i].kind) < kind_rank(kind) || (kind_rank(n[i].kind) == kind_rank(kind) && n[i].source_index
                < j + 1)) by {
                if i < p {
                    assert(n[i] == before[i]);
                } else if i > p {
                    assert(n[i] == before[i - 1]);
                }
            }
            assert forall|k: AuthoredElementKind, m: int|
                0 <= m < card_group(*card, k).len() && (kind_rank(k) < kind_rank(kind) || (kind_rank(k) == kind_rank(
                    kind,
                ) && m < j + 1)) implies #[trigger] lists_element(n, k, m) by {
                if kind_rank(k) == kind_rank(kind) && m == j {
                    assert(k == kind);
                    assert(n[p] == e);
                } else {
                    assert(lists_element(before, k, m));
                    let w = choose|w: int| 0 <= w < before.len() && (#[trigger] before[w]).kind == k && before[w].source_index == m;
                    if w < p {
                        assert(n[w] == before[w]);
                    } else {
                        assert(n[w + 1] == before[w]);
                    }
                }
            }
        }
        j = j + 1;
    }
    proof {
        let n = elements@;
        assert forall|k: AuthoredElementKind, m: int|
            0 <= m < card_group(*card, k).len() && (kind_rank(k) < kind_rank(kind) + 1 || (kind_rank(k) == kind_rank(
                kind,
            ) + 1 && m < 0)) implies #[trigger] lists_element(n, k, m) by {
            if kind_rank(k) == kind_rank(kind) {
                assert(k == kind);
            }
        }
    }
}

/// The elements of `card` in the order they are drawn: by layer, then by
/// the card's order of kinds, then by position in their array. Each element
/// is listed once, with the key that names it within `document_key`.
pub fn ordered_profile_elements<'a>(card: &'a CustomProfileCard, document_key: &str) -> (elements: Vec<
    NormalizedProfileElement<'a>,
>)
    ensures
        in_draw_order(elements@),
        forall|i: int| 0 <= i < elements@.len() ==> is_card_element(*card, document_key@, #[trigger] elements@[i]),
        forall|kind: AuthoredElementKind, j: int|
            0 <= j < card_group(*card, kind).len() ==> #[trigger] lists_element(elements@, kind, j),
{
    let mut elements: Vec<NormalizedProfileElement<'a>> = Vec::new();
    insert_group(&mut elements, card, document_key, AuthoredElementKind::Text);
    insert_group(&mut elements, card, document_key, AuthoredElementKind::Shape);
    insert_group(&mut elements, card, document_key, AuthoredElementKind::CardMember);
    insert_group(&mut elements, card, document_key, AuthoredElementKind::Stamp);
    insert_group(&mut elements, card, document_key, AuthoredElementKind::Other);
    insert_group(&mut elements, card, document_key, AuthoredElementKind::BondsHonor);
    insert_group(&mut elements, card, document_key, AuthoredElementKind::Honor);
    insert_group(&mut elements, card, document_key, AuthoredElementKind::Collection);
    insert_group(&mut elements, card, document_key, AuthoredElementKind::General);
    insert_group(&mut elements, card, document_key, AuthoredElementKind::StandMember);
    insert_group(&mut elements, card, document_key, AuthoredElementKind::GeneralBackground);
    insert_group(&mut elements, card, document_key, AuthoredElementKind::StoryBackground);
    elements
}

/// In the draw order of a card's elements no element is listed twice.
pub proof fn law_drawn_elements_are_distinct(
    card: CustomProfileCard,
    document_key: Seq<char>,
    elements: Seq<NormalizedProfileElement>,
)
    requires
        in_draw_order(elements),
        forall|i: int| 0 <= i < elements.len() ==> is_card_element(card, document_key, #[trigger] elements[i]),
    ensures
        forall|i: int, j: int|
            0 <= i < j < elements.len() ==> (#[trigger] elements[i]).kind != (#[trigger] elements[j]).kind
                || elements[i].source_index != elements[j].source_index,
{
    assert forall|i: int, j: int| 0 <= i < j < elements.len() implies (#[trigger] elements[i]).kind != (
    #[trigger] elements[j]).kind || elements[i].source_index != elements[j].source_index by {
        assert(drawn_before(elements[i], elements[j]));
        assert(is_card_element(card, document_key, elements[i]));
        assert(is_card_element(card, document_key, elements[j]));
    }
}

/// The key a resolved resource is looked up by: `{kind}\0{id}\0{variant}`.
pub open spec fn resource_lookup_key_spec(kind: Seq<char>, id: int, variant: Seq<char>) -> Seq<char> {
    kind + seq!['\0'] + padded_decimal(id, 0) + seq!['\0'] + variant
}

/// The key a resolved resource is looked up by.
pub fn resource_lookup_key(kind: &str, id: i32, variant: &str) -> (key: String)
    ensures
        key@ == resource_lookup_key_spec(kind@, id as int, variant@),
{
    let mut key = String::from_str(kind);
    crate::unicode::string_push(&mut key, '\0');
    push_padded_decimal(&mut key, id as i64, 0);
    crate::unicode::string_push(&mut key, '\0');
    key.append(variant);
    key
}

/// Clear counts of one music difficulty, as a profile component shows them.
#[derive(Clone, Copy, Debug, Default, PartialEq, Eq, Structural)]
pub struct MusicDifficultySnapshot {
    pub clear: i32,
    pub full_combo: i32,
    pub all_perfect: i32,
}

/// Clear counts of every music difficulty, as a profile component shows them.
#[derive(Clone, Copy, Debug, Default, PartialEq, Eq, Structural)]
pub struct MusicResultsSnapshot {
    pub easy: MusicDifficultySnapshot,
    pub normal: MusicDifficultySnapshot,
    pub hard: MusicDifficultySnapshot,
    pub expert: MusicDifficultySnapshot,
    pub master: MusicDifficultySnapshot,
    pub append: MusicDifficultySnapshot,
}

/// Why a profile scene could not be resolved.
#[derive(Clone, Debug, PartialEq)]
pub enum ProfileResolveError {
    /// No font family was resolved for a region font id.
    MissingRegionFont(i32),
    /// A renderer label has no localized text.
    MissingLocalizedText(String),
    /// A resource the scene draws has no resolved descriptor.
    MissingResource(String),
}

impl ProfileResolveError {
    /// The message this error reads as.
    pub open spec fn message_spec(&self) -> Seq<char> {
        match self {
            ProfileResolveError::MissingRegionFont(id) => "missing region fontId="@ + crate::text::padded_decimal(
                *id as int,
                0,
            ),
            ProfileResolveError::MissingLocalizedText(key) => "missing localized renderer text "@ + key@,
            ProfileResolveError::MissingResource(key) => "missing resolved resource descriptor "@ + key@,
        }
    }

    /// The message this error reads as.
    pub fn message(&self) -> (m: String)
        ensures
            m@ == self.message_spec(),
    {
        match self {
            ProfileResolveError::MissingRegionFont(id) => {
                let mut m = String::from_str("missing region fontId=");
                push_padded_decimal(&mut m, *id as i64, 0);
                m
            },
            ProfileResolveError::MissingLocalizedText(key) => {
                let mut m = String::from_str("missing localized renderer text ");
                m.append(key.as_str());
                m
            },
            ProfileResolveError::MissingResource(key) => {
                let mut m = String::from_str("missing resolved resource descriptor ");
                m.append(key.as_str());
                m
            },
        }
    }
}


/// Elements on one layer are drawn in the order their kinds are declared
/// (text, shape, card member, stamp, other, bonds honor, honor, collection,
/// general, stand member, general background, story background): in a draw
/// order, an element of a kind declared later never comes before
/// one of a kind declared earlier on the same layer (a collection before a
/// general panel, a text before everything else).
pub proof fn law_one_layer_draws_kinds_in_declared_order(elements: Seq<NormalizedProfileElement>, i: int, j: int, a: int, b: int)
    requires
        in_draw_order(elements),
        0 <= i < j < elements.len(),
        ref_object(elements[i].value).layer == ref_object(elements[j].value).layer,
        0 <= a < 12,
        0 <= b < 12,
        ({
            let declared = seq![
                AuthoredElementKind::Text,
                AuthoredElementKind::Shape,
                AuthoredElementKind::CardMember,
                AuthoredElementKind::Stamp,
                AuthoredElementKind::Other,
                AuthoredElementKind::BondsHonor,
                AuthoredElementKind::Honor,
                AuthoredElementKind::Collection,
                AuthoredElementKind::General,
                AuthoredElementKind::StandMember,
                AuthoredElementKind::GeneralBackground,
                AuthoredElementKind::StoryBackground,
            ];
            elements[i].kind == declared[a] && elements[j].kind == declared[b]
        }),
    ensures
        a <= b,
{
    assert(drawn_before(elements[i], elements[j]));
    assert(kind_rank(elements[i].kind) == a);
    assert(kind_rank(elements[j].kind) == b);
}


/// A draw order goes up the layers, and within one layer and one kind keeps
/// the elements in the order of their array.
pub proof fn law_draw_order_climbs_layers_and_keeps_array_order(elements: Seq<NormalizedProfileElement>, i: int, j: int)
    requires
        in_draw_order(elements),
        0 <= i < j < elements.len(),
    ensures
        ref_object(elements[i].value).layer <= ref_object(elements[j].value).layer,
        ref_object(elements[i].value).layer == ref_object(elements[j].value).layer && elements[i].kind
            == elements[j].kind ==> elements[i].source_index < elements[j].source_index,
{
    assert(drawn_before(elements[i], elements[j]));
}

} // verus!
