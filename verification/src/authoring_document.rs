//! The public custom-profile document envelope: `userCustomProfileCards`,
//! checked page by page and kept otherwise as it was read.

use vstd::prelude::*;

use crate::json::{
    entry_value, find_member, int_of, lemma_set_member_value, items_of, lemma_member_index, lemma_replaced_member, lemma_same_entries_at, lemma_same_items_of,
    lemma_same_member, member, member_int, member_index, same, set_member, sets_member, JsonNumber, JsonValue,
};
use crate::text::{decimal_digits, digits_of, push_chars};
use vstd::string::StringExecFns;

verus! {

broadcast use vstd::string::group_string_axioms;

/// Largest number of elements one page may hold.
pub const MAX_ELEMENTS_PER_PAGE: usize = 150;

/// Largest number of pages a custom profile holds.
pub const MAX_PAGES: usize = 10;

/// Why a profile document was refused.
#[derive(Debug, Clone, PartialEq, Eq)]
pub enum GameProfileDocumentError {
    ProfileMustBeObject,
    MissingCustomProfileCards,
    CustomProfileCardsMustBeArray,
    PageMustBeObject { page: usize },
    PageIdentityMustBeInteger { page: usize, field: &'static str },
    CardMustBeObject { page: usize },
    MissingCardCategory { page: usize, category: &'static str },
    CardCategoryMustBeArray { page: usize, category: &'static str },
    ElementLimitExceeded { page: usize, count: usize, max: usize },
}

/// The decimal digits of a count.
pub open spec fn count_text(n: usize) -> Seq<char> {
    decimal_digits(n as nat)
}

/// Appends the decimal digits of `n`.
pub fn push_count(s: &mut String, n: usize)
    ensures
        final(s)@ == old(s)@ + count_text(n),
{
    let digits = digits_of(n as u64);
    push_chars(s, digits.as_slice());
}

impl GameProfileDocumentError {
    /// The message this error reads as.
    pub open spec fn message_spec(&self) -> Seq<char> {
        let page = |p: usize| "userCustomProfileCards["@ + count_text(p) + "]"@;
        match self {
            GameProfileDocumentError::ProfileMustBeObject => "profile must be a JSON object"@,
            GameProfileDocumentError::MissingCustomProfileCards => "profile is missing userCustomProfileCards"@,
            GameProfileDocumentError::CustomProfileCardsMustBeArray => "userCustomProfileCards must be an array"@,
            GameProfileDocumentError::PageMustBeObject { page: p } => page(*p) + " must be an object"@,
            GameProfileDocumentError::PageIdentityMustBeInteger { page: p, field } => page(*p) + "."@ + field@
                + " must be an integer"@,
            GameProfileDocumentError::CardMustBeObject { page: p } => page(*p) + ".customProfileCard must be an object"@,
            GameProfileDocumentError::MissingCardCategory { page: p, category } => page(*p) + ".customProfileCard."@
                + category@ + " is missing"@,
            GameProfileDocumentError::CardCategoryMustBeArray { page: p, category } => page(*p)
                + ".customProfileCard."@ + category@ + " must be an array"@,
            GameProfileDocumentError::ElementLimitExceeded { page: p, count, max } => page(*p) + " contains "@
                + count_text(*count) + " elements; maximum is "@ + count_text(*max),
        }
    }

    /// The message this error reads as.
    pub fn message(&self) -> (m: String)
        ensures
            m@ == self.message_spec(),
    {
        match self {
            GameProfileDocumentError::ProfileMustBeObject => String::from_str("profile must be a JSON object"),
            GameProfileDocumentError::MissingCustomProfileCards => String::from_str(
                "profile is missing userCustomProfileCards",
            ),
            GameProfileDocumentError::CustomProfileCardsMustBeArray => String::from_str(
                "userCustomProfileCards must be an array",
            ),
            GameProfileDocumentError::PageMustBeObject { page } => {
                let mut m = page_prefix(*page);
                m.append(" must be an object");
                m
            },
            GameProfileDocumentError::PageIdentityMustBeInteger { page, field } => {
                let mut m = page_prefix(*page);
                m.append(".");
                m.append(field);
                m.append(" must be an integer");
                m
            },
            GameProfileDocumentError::CardMustBeObject { page } => {
                let mut m = page_prefix(*page);
                m.append(".customProfileCard must be an object");
                m
            },
            GameProfileDocumentError::MissingCardCategory { page, category } => {
                let mut m = page_prefix(*page);
                m.append(".customProfileCard.");
                m.append(category);
                m.append(" is missing");
                m
            },
            GameProfileDocumentError::CardCategoryMustBeArray { page, category } => {
                let mut m = page_prefix(*page);
                m.append(".customProfileCard.");
                m.append(category);
                m.append(" must be an array");
                m
            },
            GameProfileDocumentError::ElementLimitExceeded { page, count, max } => {
                let mut m = page_prefix(*page);
                m.append(" contains ");
                push_count(&mut m, *count);
                m.append(" elements; maximum is ");
                push_count(&mut m, *max);
                m
            },
        }
    }
}

/// The member of a profile that holds its custom-profile pages.
pub open spec fn cards_key() -> Seq<char> {
    "userCustomProfileCards"@
}

/// The element arrays every page's card holds, in the order they are
/// checked.
pub open spec fn card_array(k: int) -> &'static str {
    if k == 0 {
        "bondsHonors"
    } else if k == 1 {
        "cardMembers"
    } else if k == 2 {
        "collections"
    } else if k == 3 {
        "generalBackgrounds"
    } else if k == 4 {
        "generals"
    } else if k == 5 {
        "honors"
    } else if k == 6 {
        "others"
    } else if k == 7 {
        "shapes"
    } else if k == 8 {
        "stamps"
    } else if k == 9 {
        "standMembers"
    } else if k == 10 {
        "storyBackgrounds"
    } else {
        "texts"
    }
}

/// The number of element arrays a card holds.
pub const CARD_ARRAY_COUNT: usize = 12;

fn card_array_name(k: usize) -> (r: &'static str)
    requires
        k < CARD_ARRAY_COUNT,
    ensures
        r == card_array(k as int),
{
    if k == 0 {
        "bondsHonors"
    } else if k == 1 {
        "cardMembers"
    } else if k == 2 {
        "collections"
    } else if k == 3 {
        "generalBackgrounds"
    } else if k == 4 {
        "generals"
    } else if k == 5 {
        "honors"
    } else if k == 6 {
        "others"
    } else if k == 7 {
        "shapes"
    } else if k == 8 {
        "stamps"
    } else if k == 9 {
        "standMembers"
    } else if k == 10 {
        "storyBackgrounds"
    } else {
        "texts"
    }
}

/// The identity fields every page holds as integers, in the order they are
/// checked.
pub open spec fn identity_field(k: int) -> &'static str {
    if k == 0 {
        "customProfileCardId"
    } else if k == 1 {
        "customProfileId"
    } else {
        "seq"
    }
}

fn identity_field_name(k: usize) -> (r: &'static str)
    requires
        k < 3,
    ensures
        r == identity_field(k as int),
{
    if k == 0 {
        "customProfileCardId"
    } else if k == 1 {
        "customProfileId"
    } else {
        "seq"
    }
}

/// The first identity field from `k` on that page `page` lacks as an integer.
pub open spec fn first_missing_identity(page: JsonValue, k: int) -> Option<int>
    decreases 3 - k,
{
    if k < 0 || k >= 3 {
        None
    } else if member_int(page, identity_field(k)@) is None {
        Some(k)
    } else {
        first_missing_identity(page, k + 1)
    }
}

/// The first element array from `k` on that `card` lacks or holds as
/// something other than an array, with whether it is missing.
pub open spec fn first_bad_category(card: JsonValue, k: int) -> Option<(int, bool)>
    decreases 12 - k,
{
    if k < 0 || k >= 12 {
        None
    } else {
        match member(card, card_array(k)@) {
            None => Some((k, true)),
            Some(v) => if items_of(v) is None {
                Some((k, false))
            } else {
                first_bad_category(card, k + 1)
            },
        }
    }
}

/// The number of elements in the arrays of `card` from `k` on.
pub open spec fn elements_from(card: JsonValue, k: int) -> int
    decreases 12 - k,
{
    if k < 0 || k >= 12 {
        0
    } else {
        let here = match member(card, card_array(k)@) {
            Some(v) => match items_of(v) {
                Some(items) => items.len() as int,
                None => 0,
            },
            None => 0,
        };
        here + elements_from(card, k + 1)
    }
}

/// The element count reported for a page: the number of its elements, or
/// the largest `usize` should that number not fit.
pub open spec fn reported_count(n: int) -> usize {
    if n > usize::MAX {
        usize::MAX
    } else {
        n as usize
    }
}

/// Why page `p` is refused, if it is.
pub open spec fn page_error(p: usize, page: JsonValue) -> Option<GameProfileDocumentError> {
    if !(page is Object) {
        Some(GameProfileDocumentError::PageMustBeObject { page: p })
    } else if first_missing_identity(page, 0) is Some {
        Some(
            GameProfileDocumentError::PageIdentityMustBeInteger {
                page: p,
                field: identity_field(first_missing_identity(page, 0).unwrap()),
            },
        )
    } else {
        match member(page, "customProfileCard"@) {
            Some(card) => if !(card is Object) {
                Some(GameProfileDocumentError::CardMustBeObject { page: p })
            } else {
                match first_bad_category(card, 0) {
                    Some((k, true)) => Some(
                        GameProfileDocumentError::MissingCardCategory { page: p, category: card_array(k) },
                    ),
                    Some((k, false)) => Some(
                        GameProfileDocumentError::CardCategoryMustBeArray { page: p, category: card_array(k) },
                    ),
                    None => if elements_from(card, 0) > MAX_ELEMENTS_PER_PAGE {
                        Some(
                            GameProfileDocumentError::ElementLimitExceeded {
                                page: p,
                                count: reported_count(elements_from(card, 0)),
                                max: MAX_ELEMENTS_PER_PAGE,
                            },
                        )
                    } else {
                        None
                    },
                }
            },
            None => Some(GameProfileDocumentError::CardMustBeObject { page: p }),
        }
    }
}

/// Why the pages from `from` on are refused: the error of the first page
/// that is.
pub open spec fn first_page_error(pages: Seq<JsonValue>, from: int) -> Option<GameProfileDocumentError>
    decreases pages.len() - from,
{
    if from < 0 || from >= pages.len() || from > usize::MAX {
        None
    } else {
        match page_error(from as usize, pages[from]) {
            Some(e) => Some(e),
            None => first_page_error(pages, from + 1),
        }
    }
}

/// Why a `userCustomProfileCards` value is refused, if it is.
pub open spec fn cards_error(cards: JsonValue) -> Option<GameProfileDocumentError> {
    match items_of(cards) {
        Some(pages) => first_page_error(pages, 0),
        None => Some(GameProfileDocumentError::CustomProfileCardsMustBeArray),
    }
}

fn check_identity(page: &JsonValue) -> (r: Option<usize>)
    ensures
        match r {
            Some(k) => k < 3 && first_missing_identity(*page, 0) == Some(k as int),
            None => first_missing_identity(*page, 0) is None,
        },
{
    let mut k: usize = 0;
    while k < 3
        invariant
            k <= 3,
            first_missing_identity(*page, 0) == first_missing_identity(*page, k as int),
        decreases 3 - k,
    {
        let field = identity_field_name(k);
        let present = match page.get(field) {
            Some(v) => v.as_i64().is_some(),
            None => false,
        };
        if !present {
            return Some(k);
        }
        k = k + 1;
    }
    None
}

/// The number of elements in a card's element arrays, or the largest
/// `usize` should that number not fit.
pub fn card_element_count(card: &JsonValue) -> (r: usize)
    ensures
        r == reported_count(elements_from(*card, 0)),
{
    let mut count: usize = 0;
    let mut k: usize = 0;
    while k < CARD_ARRAY_COUNT
        invariant
            k <= 12,
            count == reported_count(elements_from(*card, 0) - elements_from(*card, k as int)),
            elements_from(*card, 0) - elements_from(*card, k as int) >= 0,
        decreases 12 - k,
    {
        proof {
            lemma_elements_from_nonnegative(*card, k as int + 1);
        }
        let name = card_array_name(k);
        match card.get(name) {
            None => {},
            Some(v) => match v.as_array() {
                None => {},
                Some(items) => {
                    count = count.saturating_add(items.len());
                },
            },
        }
        k = k + 1;
    }
    count
}

fn check_card(p: usize, card: &JsonValue) -> (r: Result<(), GameProfileDocumentError>)
    requires
        *card is Object,
    ensures
        match r {
            Ok(()) => first_bad_category(*card, 0) is None && elements_from(*card, 0) <= MAX_ELEMENTS_PER_PAGE,
            Err(e) => Some(e) == match first_bad_category(*card, 0) {
                Some((k, true)) => Some(
                    GameProfileDocumentError::MissingCardCategory { page: p, category: card_array(k) },
                ),
                Some((k, false)) => Some(
                    GameProfileDocumentError::CardCategoryMustBeArray { page: p, category: card_array(k) },
                ),
                None => Some(
                    GameProfileDocumentError::ElementLimitExceeded {
                        page: p,
                        count: reported_count(elements_from(*card, 0)),
                        max: MAX_ELEMENTS_PER_PAGE,
                    },
                ),
            } && (first_bad_category(*card, 0) is None ==> elements_from(*card, 0) > MAX_ELEMENTS_PER_PAGE),
        },
{
    let mut count: usize = 0;
    let mut k: usize = 0;
    while k < CARD_ARRAY_COUNT
        invariant
            k <= 12,
            first_bad_category(*card, 0) == first_bad_category(*card, k as int),
            count == reported_count(elements_from(*card, 0) - elements_from(*card, k as int)),
            elements_from(*card, 0) - elements_from(*card, k as int) >= 0,
        decreases 12 - k,
    {
        proof {
            lemma_elements_from_nonnegative(*card, k as int + 1);
        }
        let name = card_array_name(k);
        match card.get(name) {
            None => {
                return Err(GameProfileDocumentError::MissingCardCategory { page: p, category: name });
            },
            Some(v) => match v.as_array() {
                None => {
                    return Err(GameProfileDocumentError::CardCategoryMustBeArray { page: p, category: name });
                },
                Some(items) => {
                    count = count.saturating_add(items.len());
                },
            },
        }
        k = k + 1;
    }
    if count > MAX_ELEMENTS_PER_PAGE {
        return Err(
            GameProfileDocumentError::ElementLimitExceeded { page: p, count, max: MAX_ELEMENTS_PER_PAGE },
        );
    }
    Ok(())
}

pub proof fn lemma_elements_from_nonnegative(card: JsonValue, k: int)
    ensures
        elements_from(card, k) >= 0,
    decreases 12 - k,
{
    if 0 <= k < 12 {
        lemma_elements_from_nonnegative(card, k + 1);
    }
}

fn check_pages(pages: &Vec<JsonValue>) -> (r: Result<(), GameProfileDocumentError>)
    ensures
        match r {
            Ok(()) => first_page_error(pages@, 0) is None,
            Err(e) => first_page_error(pages@, 0) == Some(e),
        },
{
    let mut p: usize = 0;
    while p < pages.len()
        invariant
            p <= pages@.len(),
            first_page_error(pages@, 0) == first_page_error(pages@, p as int),
        decreases pages.len() - p,
    {
        let page = &pages[p];
        if !page.is_object() {
            return Err(GameProfileDocumentError::PageMustBeObject { page: p });
        }
        if let Some(k) = check_identity(page) {
            return Err(
                GameProfileDocumentError::PageIdentityMustBeInteger { page: p, field: identity_field_name(k) },
            );
        }
        match page.get("customProfileCard") {
            Some(card) => {
                if !card.is_object() {
                    return Err(GameProfileDocumentError::CardMustBeObject { page: p });
                }
                check_card(p, card)?;
            },
            None => {
                return Err(GameProfileDocumentError::CardMustBeObject { page: p });
            },
        }
        p = p + 1;
    }
    Ok(())
}

/// Entries whose keys are pairwise different are found by their keys.
proof fn lemma_distinct_keys_found(entries: Seq<(String, JsonValue)>, k: int)
    requires
        0 <= k < entries.len(),
        forall|j: int| 0 <= j < k ==> (#[trigger] entries[j]).0@ != entries[k].0@,
    ensures
        member_index(entries, entries[k].0@) == Some(k),
{
    lemma_member_index(entries, entries[k].0@);
    if let Some(i) = member_index(entries, entries[k].0@) {
        if i > k {
            assert(entries[k].0@ != entries[k].0@);
        }
    }
}

proof fn lemma_card_arrays_differ()
    ensures
        forall|j: int, k: int| 0 <= j < k < 12 ==> (#[trigger] card_array(j))@ != (#[trigger] card_array(k))@,
{
    reveal_strlit("bondsHonors");
    reveal_strlit("cardMembers");
    reveal_strlit("collections");
    reveal_strlit("generalBackgrounds");
    reveal_strlit("generals");
    reveal_strlit("honors");
    reveal_strlit("others");
    reveal_strlit("shapes");
    reveal_strlit("stamps");
    reveal_strlit("standMembers");
    reveal_strlit("storyBackgrounds");
    reveal_strlit("texts");
    assert forall|j: int, k: int| 0 <= j < k < 12 implies (#[trigger] card_array(j))@ != (
    #[trigger] card_array(k))@ by {
        let a = card_array(j)@;
        let b = card_array(k)@;
        if a.len() == b.len() {
            if a[0] == b[0] {
                assert(a[1] != b[1]);
            }
        }
    }
}

/// An element array with no elements.
pub open spec fn is_empty_array(value: JsonValue) -> bool {
    items_of(value) == Some(Seq::<JsonValue>::empty())
}

/// A blank page: its card holds every element array, each empty, and
/// nothing else; both ids are 0 and its sequence number is `seq`.
pub open spec fn is_blank_page(page: JsonValue, seq: u64) -> bool {
    &&& page is Object
    &&& page->Object_0@.len() == 4
    &&& member(page, "customProfileCardId"@) == Some(JsonValue::Number(JsonNumber::PosInt(0)))
    &&& member(page, "customProfileId"@) == Some(JsonValue::Number(JsonNumber::PosInt(0)))
    &&& member(page, "seq"@) == Some(JsonValue::Number(JsonNumber::PosInt(seq)))
    &&& match member(page, "customProfileCard"@) {
        Some(card) => {
            &&& card is Object
            &&& card->Object_0@.len() == 12
            &&& forall|k: int|
                0 <= k < 12 ==> match #[trigger] member(card, card_array(k)@) {
                    Some(v) => is_empty_array(v),
                    None => false,
                }
        },
        None => false,
    }
}

fn blank_card() -> (card: JsonValue)
    ensures
        card is Object,
        card->Object_0@.len() == 12,
        forall|k: int| 0 <= k < 12 ==> (#[trigger] card->Object_0@[k]).0@ == card_array(k)@,
        forall|k: int|
            0 <= k < 12 ==> match #[trigger] member(card, card_array(k)@) {
                Some(v) => is_empty_array(v),
                None => false,
            },
        first_bad_category(card, 0) is None,
        elements_from(card, 0) == 0,
{
    let mut entries: Vec<(String, JsonValue)> = Vec::new();
    let mut k: usize = 0;
    while k < CARD_ARRAY_COUNT
        invariant
            k <= 12,
            entries@.len() == k,
            forall|j: int| 0 <= j < k ==> (#[trigger] entries@[j]).0@ == card_array(j)@,
            forall|j: int| 0 <= j < k ==> is_empty_array(#[trigger] entries@[j].1),
        decreases 12 - k,
    {
        entries.push((String::from_str(card_array_name(k)), JsonValue::Array(Vec::new())));
        k = k + 1;
    }
    let card = JsonValue::Object(entries);
    proof {
        lemma_card_arrays_differ();
        assert forall|k: int| 0 <= k < 12 implies match #[trigger] member(card, card_array(k)@) {
            Some(v) => is_empty_array(v),
            None => false,
        } by {
            assert forall|j: int| 0 <= j < k implies (#[trigger] entries@[j]).0@ != entries@[k].0@ by {
                assert(card_array(j)@ != card_array(k)@);
            }
            lemma_distinct_keys_found(entries@, k);
        }
        lemma_no_bad_category(card, 0);
    }
    card
}

proof fn lemma_no_bad_category(card: JsonValue, k: int)
    requires
        0 <= k <= 12,
        forall|j: int|
            0 <= j < 12 ==> match #[trigger] member(card, card_array(j)@) {
                Some(v) => is_empty_array(v),
                None => false,
            },
    ensures
        first_bad_category(card, k) is None,
        elements_from(card, k) == 0,
    decreases 12 - k,
{
    if k < 12 {
        assert(match member(card, card_array(k)@) {
            Some(v) => is_empty_array(v),
            None => false,
        });
        lemma_no_bad_category(card, k + 1);
    }
}

fn blank_page(seq: u64) -> (page: JsonValue)
    requires
        seq <= i64::MAX,
    ensures
        is_blank_page(page, seq),
        forall|p: usize| #[trigger] page_error(p, page) is None,
{
    let mut entries: Vec<(String, JsonValue)> = Vec::new();
    entries.push((String::from_str("customProfileCard"), blank_card()));
    entries.push((String::from_str("customProfileCardId"), JsonValue::Number(JsonNumber::PosInt(0))));
    entries.push((String::from_str("customProfileId"), JsonValue::Number(JsonNumber::PosInt(0))));
    entries.push((String::from_str("seq"), JsonValue::Number(JsonNumber::PosInt(seq))));
    let page = JsonValue::Object(entries);
    proof {
        reveal_strlit("customProfileCard");
        reveal_strlit("customProfileCardId");
        reveal_strlit("customProfileId");
        reveal_strlit("seq");
        let e = entries@;
        assert(e[0].0@ == "customProfileCard"@);
        assert(e[1].0@ == "customProfileCardId"@);
        assert(e[2].0@ == "customProfileId"@);
        assert(e[3].0@ == "seq"@);
        assert(e[0].0@.len() == 17 && e[1].0@.len() == 19 && e[2].0@.len() == 15 && e[3].0@.len() == 3);
        lemma_distinct_keys_found(e, 0);
        assert(e[0].0@ != e[1].0@);
        lemma_distinct_keys_found(e, 1);
        assert(e[0].0@ != e[2].0@ && e[1].0@ != e[2].0@);
        lemma_distinct_keys_found(e, 2);
        assert(e[0].0@ != e[3].0@ && e[1].0@ != e[3].0@ && e[2].0@ != e[3].0@);
        lemma_distinct_keys_found(e, 3);
        assert(first_missing_identity(page, 3) is None);
        assert(first_missing_identity(page, 2) is None);
        assert(first_missing_identity(page, 1) is None);
        assert(first_missing_identity(page, 0) is None);
    }
    page
}

/// Page `after` is page `before` numbered `n`: its `seq` member set to `n`.
pub open spec fn numbered_page(before: JsonValue, after: JsonValue, n: int) -> bool {
    &&& before is Object
    &&& after is Object
    &&& 0 <= n <= u64::MAX
    &&& sets_member(before->Object_0@, after->Object_0@, "seq"@, JsonValue::Number(JsonNumber::PosInt(n as u64)))
}

/// `after` holds the pages of `before` in order, page `i` numbered `i + 1`.
pub open spec fn numbered_pages(before: Seq<JsonValue>, after: Seq<JsonValue>) -> bool {
    &&& after.len() == before.len()
    &&& forall|i: int| 0 <= i < before.len() ==> numbered_page(#[trigger] before[i], after[i], i + 1)
}

proof fn lemma_other_keys_kept(before: JsonValue, after: JsonValue, n: int, key: Seq<char>)
    requires
        numbered_page(before, after, n),
        member(before, "seq"@) is Some,
        key != "seq"@,
    ensures
        member(after, key) == member(before, key),
        after->Object_0@.len() == before->Object_0@.len(),
{
    let seq_value = JsonValue::Number(JsonNumber::PosInt(n as u64));
    lemma_replaced_member(before->Object_0@, after->Object_0@, "seq"@, seq_value, key);
}

proof fn lemma_numbered_page_accepted(p: usize, before: JsonValue, after: JsonValue, n: int)
    requires
        page_error(p, before) is None,
        numbered_page(before, after, n),
        n <= i64::MAX,
    ensures
        page_error(p, after) is None,
{
    reveal_strlit("seq");
    reveal_strlit("customProfileCardId");
    reveal_strlit("customProfileId");
    reveal_strlit("customProfileCard");
    assert("seq"@.len() == 3 && "customProfileCardId"@.len() == 19 && "customProfileId"@.len() == 15
        && "customProfileCard"@.len() == 17);
    assert(first_missing_identity(before, 0) is None);
    assert(first_missing_identity(before, 1) is None);
    assert(first_missing_identity(before, 2) is None);
    assert(member_int(before, identity_field(2)@) is Some);
    let seq_value = JsonValue::Number(JsonNumber::PosInt(n as u64));
    lemma_replaced_member(before->Object_0@, after->Object_0@, "seq"@, seq_value, "seq"@);
    lemma_other_keys_kept(before, after, n, "customProfileCardId"@);
    lemma_other_keys_kept(before, after, n, "customProfileId"@);
    lemma_other_keys_kept(before, after, n, "customProfileCard"@);
    assert(first_missing_identity(after, 3) is None);
    assert(first_missing_identity(after, 2) is None);
    assert(first_missing_identity(after, 1) is None);
    assert(first_missing_identity(after, 0) is None);
}

proof fn lemma_numbered_pages_accepted(before: Seq<JsonValue>, after: Seq<JsonValue>, from: int)
    requires
        0 <= from,
        first_page_error(before, from) is None,
        numbered_pages(before, after),
        before.len() <= i64::MAX,
    ensures
        first_page_error(after, from) is None,
    decreases before.len() - from,
{
    if from < before.len() && from <= usize::MAX {
        assert(numbered_page(before[from], after[from], from + 1));
        lemma_numbered_page_accepted(from as usize, before[from], after[from], from + 1);
        lemma_numbered_pages_accepted(before, after, from + 1);
    }
}

proof fn lemma_numbered_blank_page(before: JsonValue, after: JsonValue, seq: u64, n: int)
    requires
        is_blank_page(before, seq),
        numbered_page(before, after, n),
    ensures
        is_blank_page(after, n as u64),
{
    reveal_strlit("seq");
    reveal_strlit("customProfileCardId");
    reveal_strlit("customProfileId");
    reveal_strlit("customProfileCard");
    assert("seq"@.len() == 3 && "customProfileCardId"@.len() == 19 && "customProfileId"@.len() == 15
        && "customProfileCard"@.len() == 17);
    let seq_value = JsonValue::Number(JsonNumber::PosInt(n as u64));
    lemma_replaced_member(before->Object_0@, after->Object_0@, "seq"@, seq_value, "seq"@);
    lemma_other_keys_kept(before, after, n, "customProfileCardId"@);
    lemma_other_keys_kept(before, after, n, "customProfileId"@);
    lemma_other_keys_kept(before, after, n, "customProfileCard"@);
}

fn renumber(pages: Vec<JsonValue>) -> (r: Vec<JsonValue>)
    requires
        forall|i: int| 0 <= i < pages@.len() ==> (#[trigger] pages@[i]) is Object,
    ensures
        numbered_pages(pages@, r@),
{
    let ghost given = pages@;
    let mut rest = pages;
    let mut out: Vec<JsonValue> = Vec::new();
    let n = rest.len();
    let mut i: usize = 0;
    while i < n
        invariant
            n == given.len(),
            i <= n,
            out@.len() == i,
            rest@ == given.skip(i as int),
            forall|k: int| 0 <= k < given.len() ==> (#[trigger] given[k]) is Object,
            forall|k: int| 0 <= k < i ==> numbered_page(#[trigger] given[k], out@[k], k + 1),
        decreases n - i,
    {
        let mut page = rest.remove(0);
        assert(page == given[i as int]);
        page.set(String::from_str("seq"), JsonValue::Number(JsonNumber::PosInt((i + 1) as u64)));
        proof {
            reveal_strlit("seq");
        }
        out.push(page);
        i = i + 1;
        assert(rest@ =~= given.skip(i as int));
    }
    out
}

/// After numbering, page `i` holds `seq` `i + 1`.
pub proof fn law_numbered_pages_hold_their_position(before: Seq<JsonValue>, after: Seq<JsonValue>)
    requires
        numbered_pages(before, after),
    ensures
        forall|i: int|
            0 <= i < after.len() ==> member(#[trigger] after[i], "seq"@) == Some(
                JsonValue::Number(JsonNumber::PosInt((i + 1) as u64)),
            ),
{
    assert forall|i: int| 0 <= i < after.len() implies member(#[trigger] after[i], "seq"@) == Some(
        JsonValue::Number(JsonNumber::PosInt((i + 1) as u64)),
    ) by {
        let b = before[i];
        let a = after[i];
        assert(numbered_page(b, a, i + 1));
        let v = JsonValue::Number(JsonNumber::PosInt((i + 1) as u64));
        match member_index(b->Object_0@, "seq"@) {
            Some(k) => {
                lemma_replaced_member(b->Object_0@, a->Object_0@, "seq"@, v, "seq"@);
            },
            None => {
                let e = a->Object_0@;
                lemma_member_index(e, "seq"@);
                lemma_member_index(b->Object_0@, "seq"@);
                assert forall|j: int| 0 <= j < e.len() - 1 implies (#[trigger] e[j]).0@ != "seq"@ by {
                    assert(e[j] == e.take(b->Object_0@.len() as int)[j]);
                }
            },
        }
    }
}

/// Numbering pages that are numbered already changes nothing: every page
/// keeps the members it has.
pub proof fn law_numbering_twice_is_numbering_once(a: Seq<JsonValue>, b: Seq<JsonValue>, c: Seq<JsonValue>)
    requires
        numbered_pages(a, b),
        numbered_pages(b, c),
    ensures
        c.len() == b.len(),
        forall|i: int|
            0 <= i < c.len() ==> (#[trigger] c[i]) is Object && b[i] is Object && c[i]->Object_0@ == b[i]->Object_0@,
{
    law_numbered_pages_hold_their_position(a, b);
    assert forall|i: int| 0 <= i < c.len() implies (#[trigger] c[i]) is Object && b[i] is Object && c[i]->Object_0@
        == b[i]->Object_0@ by {
        let v = JsonValue::Number(JsonNumber::PosInt((i + 1) as u64));
        assert(member(b[i], "seq"@) == Some(v));
        assert(numbered_page(b[i], c[i], i + 1));
        let k = member_index(b[i]->Object_0@, "seq"@).unwrap();
        lemma_member_index(b[i]->Object_0@, "seq"@);
        assert(b[i]->Object_0@[k].1 == v);
        assert(c[i]->Object_0@ =~= b[i]->Object_0@);
    }
}

proof fn lemma_identities_kept(page: JsonValue, page2: JsonValue, k: int)
    requires
        forall|other: Seq<char>| other != "customProfileCard"@ ==> #[trigger] member(page2, other) == member(page, other),
    ensures
        first_missing_identity(page2, k) == first_missing_identity(page, k),
    decreases 3 - k,
{
    reveal_strlit("customProfileCard");
    reveal_strlit("customProfileCardId");
    reveal_strlit("customProfileId");
    reveal_strlit("seq");
    if 0 <= k < 3 {
        assert(identity_field(k)@ != "customProfileCard"@) by {
            assert(identity_field(k)@.len() != "customProfileCard"@.len());
        }
        assert(member(page2, identity_field(k)@) == member(page, identity_field(k)@));
        lemma_identities_kept(page, page2, k + 1);
    }
}

proof fn lemma_categories_kept(card: JsonValue, card2: JsonValue, ckey: Seq<char>, k: int)
    requires
        forall|other: Seq<char>| other != ckey ==> #[trigger] member(card2, other) == member(card, other),
        member(card, ckey) matches Some(a) && items_of(a) is Some,
        member(card2, ckey) matches Some(a2) && items_of(a2) is Some,
        items_of(member(card2, ckey).unwrap()).unwrap().len() <= items_of(member(card, ckey).unwrap()).unwrap().len(),
    ensures
        first_bad_category(card2, k) == first_bad_category(card, k),
        elements_from(card2, k) <= elements_from(card, k),
    decreases 12 - k,
{
    if 0 <= k < 12 {
        lemma_categories_kept(card, card2, ckey, k + 1);
        if card_array(k)@ != ckey {
            assert(member(card2, card_array(k)@) == member(card, card_array(k)@));
        }
    }
}

/// A page whose card has one element array replaced by an array no longer
/// than it, with nothing else on the page changed, is accepted as the page
/// was.
pub proof fn lemma_card_edit_keeps_page(p: usize, page: JsonValue, page2: JsonValue, ckey: Seq<char>)
    requires
        page_error(p, page) is None,
        page2 is Object,
        forall|other: Seq<char>| other != "customProfileCard"@ ==> #[trigger] member(page2, other) == member(page, other),
        member(page, "customProfileCard"@) is Some,
        member(page2, "customProfileCard"@) is Some,
        member(page2, "customProfileCard"@).unwrap() is Object,
        forall|other: Seq<char>|
            other != ckey ==> #[trigger] member(member(page2, "customProfileCard"@).unwrap(), other) == member(
                member(page, "customProfileCard"@).unwrap(),
                other,
            ),
        member(member(page, "customProfileCard"@).unwrap(), ckey) matches Some(a) && items_of(a) is Some,
        member(member(page2, "customProfileCard"@).unwrap(), ckey) matches Some(a2) && items_of(a2) is Some,
        items_of(member(member(page2, "customProfileCard"@).unwrap(), ckey).unwrap()).unwrap().len() <= items_of(
            member(member(page, "customProfileCard"@).unwrap(), ckey).unwrap(),
        ).unwrap().len(),
    ensures
        page_error(p, page2) is None,
{
    lemma_identities_kept(page, page2, 0);
    let card = member(page, "customProfileCard"@).unwrap();
    let card2 = member(page2, "customProfileCard"@).unwrap();
    lemma_categories_kept(card, card2, ckey, 0);
}

/// The twelve element arrays have twelve different keys.
proof fn lemma_card_arrays_distinct(m1: int, m2: int)
    requires
        0 <= m1 < 12,
        0 <= m2 < 12,
        card_array(m1)@ == card_array(m2)@,
    ensures
        m1 == m2,
{
    reveal_strlit("bondsHonors");
    reveal_strlit("cardMembers");
    reveal_strlit("collections");
    reveal_strlit("generalBackgrounds");
    reveal_strlit("generals");
    reveal_strlit("honors");
    reveal_strlit("others");
    reveal_strlit("shapes");
    reveal_strlit("stamps");
    reveal_strlit("standMembers");
    reveal_strlit("storyBackgrounds");
    reveal_strlit("texts");
    let a = card_array(m1)@;
    let b = card_array(m2)@;
    assert(a.len() == b.len());
    assert(a[0] == b[0]);
    assert(a[1] == b[1]);
}

proof fn lemma_categories_grown(card: JsonValue, card2: JsonValue, ckey: Seq<char>, k: int)
    requires
        forall|other: Seq<char>| other != ckey ==> #[trigger] member(card2, other) == member(card, other),
        forall|m: int|
            0 <= m < 12 && card_array(m)@ == ckey ==> {
                &&& member(card, ckey) matches Some(a) && items_of(a) is Some
                &&& member(card2, ckey) matches Some(a2) && items_of(a2) is Some
                &&& items_of(member(card2, ckey).unwrap()).unwrap().len() <= items_of(
                    member(card, ckey).unwrap(),
                ).unwrap().len() + 1
            },
        0 <= k <= 12,
    ensures
        first_bad_category(card2, k) == first_bad_category(card, k),
        elements_from(card2, k) <= elements_from(card, k) + if exists|m: int| k <= m < 12 && card_array(m)@ == ckey {
            1int
        } else {
            0int
        },
    decreases 12 - k,
{
    if k < 12 {
        lemma_categories_grown(card, card2, ckey, k + 1);
        if card_array(k)@ != ckey {
            assert(member(card2, card_array(k)@) == member(card, card_array(k)@));
            if exists|m: int| k <= m < 12 && card_array(m)@ == ckey {
                let m = choose|m: int| k <= m < 12 && card_array(m)@ == ckey;
                assert(m != k);
                assert(k + 1 <= m < 12 && card_array(m)@ == ckey);
            }
        } else {
            assert(k <= k < 12 && card_array(k)@ == ckey);
            if exists|m: int| k + 1 <= m < 12 && card_array(m)@ == ckey {
                let m = choose|m: int| k + 1 <= m < 12 && card_array(m)@ == ckey;
                lemma_card_arrays_distinct(k, m);
            }
        }
    }
}

/// A page whose card has one element array grown by at most one item, or
/// one array added that is not among the element arrays, with nothing else
/// on the page changed, is accepted as the page was while it held fewer
/// elements than the limit.
pub proof fn lemma_card_grow_keeps_page(p: usize, page: JsonValue, page2: JsonValue, ckey: Seq<char>)
    requires
        page_error(p, page) is None,
        page2 is Object,
        forall|other: Seq<char>| other != "customProfileCard"@ ==> #[trigger] member(page2, other) == member(page, other),
        member(page, "customProfileCard"@) is Some,
        member(page2, "customProfileCard"@) is Some,
        member(page2, "customProfileCard"@).unwrap() is Object,
        is_card_array(ckey) ==> elements_from(member(page, "customProfileCard"@).unwrap(), 0) < MAX_ELEMENTS_PER_PAGE,
        forall|other: Seq<char>|
            other != ckey ==> #[trigger] member(member(page2, "customProfileCard"@).unwrap(), other) == member(
                member(page, "customProfileCard"@).unwrap(),
                other,
            ),
        forall|m: int|
            0 <= m < 12 && card_array(m)@ == ckey ==> {
                &&& member(member(page, "customProfileCard"@).unwrap(), ckey) matches Some(a) && items_of(a) is Some
                &&& member(member(page2, "customProfileCard"@).unwrap(), ckey) matches Some(a2) && items_of(a2) is Some
                &&& items_of(member(member(page2, "customProfileCard"@).unwrap(), ckey).unwrap()).unwrap().len()
                    <= items_of(member(member(page, "customProfileCard"@).unwrap(), ckey).unwrap()).unwrap().len() + 1
            },
    ensures
        page_error(p, page2) is None,
{
    lemma_identities_kept(page, page2, 0);
    let card = member(page, "customProfileCard"@).unwrap();
    let card2 = member(page2, "customProfileCard"@).unwrap();
    lemma_categories_grown(card, card2, ckey, 0);
    if !is_card_array(ckey) {
        assert(!(exists|m: int| 0 <= m < 12 && card_array(m)@ == ckey));
    }
}

/// A card accepted with its page has every element array, each an array.
proof fn lemma_card_arrays_present(card: JsonValue, k: int, m: int)
    requires
        first_bad_category(card, k) is None,
        0 <= k <= m < 12,
    ensures
        member(card, card_array(m)@) matches Some(a) && items_of(a) is Some,
    decreases m - k,
{
    if k < m {
        lemma_card_arrays_present(card, k + 1, m);
    }
}

/// Pushing an item onto an array of an accepted page's card, with room left
/// for it where the array is one the limit counts, leaves the page accepted.
proof fn lemma_push_keeps_page(p: usize, page: JsonValue, key: Seq<char>, item: JsonValue, page2: JsonValue)
    requires
        page_error(p, page) is None,
        card_item_pushed(page, key, item, page2),
        is_card_array(key) ==> elements_from(member(page, "customProfileCard"@).unwrap(), 0) < MAX_ELEMENTS_PER_PAGE,
    ensures
        page_error(p, page2) is None,
{
    let card = member(page, "customProfileCard"@).unwrap();
    let card2 = member(page2, "customProfileCard"@).unwrap();
    let a2 = member(card2, key).unwrap();
    assert forall|other: Seq<char>| other != "customProfileCard"@ implies #[trigger] member(page2, other) == member(page, other) by {
        lemma_set_member_value(page->Object_0@, page2->Object_0@, "customProfileCard"@, card2, other);
    }
    assert forall|other: Seq<char>| other != key implies #[trigger] member(card2, other) == member(card, other) by {
        lemma_set_member_value(card->Object_0@, card2->Object_0@, key, a2, other);
    }
    assert forall|m: int| 0 <= m < 12 && card_array(m)@ == key implies {
        &&& member(card, key) matches Some(a) && items_of(a) is Some
        &&& member(card2, key) matches Some(b) && items_of(b) is Some
        &&& items_of(member(card2, key).unwrap()).unwrap().len() <= items_of(member(card, key).unwrap()).unwrap().len() + 1
    } by {
        lemma_card_arrays_present(card, 0, m);
    }
    lemma_card_grow_keeps_page(p, page, page2, key);
}

/// Whether `key` names one of the element arrays every card holds.
pub open spec fn is_card_array(key: Seq<char>) -> bool {
    exists|m: int| 0 <= m < 12 && card_array(m)@ == key
}

/// Whether page `page` has a card object whose member `key` is an array, or
/// has no member `key` where `add` allows one to be added.
pub open spec fn card_takes_item(page: JsonValue, key: Seq<char>, add: bool) -> bool {
    &&& member(page, "customProfileCard"@) matches Some(card)
    &&& card is Object
    &&& match member(card, key) {
        Some(a) => a is Array,
        None => add,
    }
}

/// `after` is page `before` with `item` appended to its card's array `key`,
/// which is added holding `item` alone where the card has none, and nothing
/// else changed.
pub open spec fn card_item_pushed(before: JsonValue, key: Seq<char>, item: JsonValue, after: JsonValue) -> bool {
    &&& before is Object
    &&& after is Object
    &&& member(before, "customProfileCard"@) matches Some(card)
    &&& card is Object
    &&& member(after, "customProfileCard"@) matches Some(card2)
    &&& card2 is Object
    &&& sets_member(before->Object_0@, after->Object_0@, "customProfileCard"@, card2)
    &&& member(card2, key) matches Some(a2)
    &&& sets_member(card->Object_0@, card2->Object_0@, key, a2)
    &&& items_of(a2) == Some(
        match member(card, key) {
            Some(a) => match items_of(a) {
                Some(xs) => xs.push(item),
                None => seq![item],
            },
            None => seq![item],
        },
    )
}

/// Pages that differ from accepted pages only at `p`, where the page is
/// accepted too, are accepted.
pub proof fn lemma_page_replaced_keeps(xs: Seq<JsonValue>, ys: Seq<JsonValue>, p: int, from: int)
    requires
        first_page_error(xs, 0) is None,
        xs.len() == ys.len(),
        0 <= p < xs.len(),
        forall|q: int| 0 <= q < xs.len() && q != p ==> #[trigger] ys[q] == xs[q],
        page_error(p as usize, ys[p]) is None,
        0 <= from,
    ensures
        first_page_error(ys, from) is None,
    decreases ys.len() - from,
{
    if from < ys.len() && from <= usize::MAX {
        if from != p {
            lemma_first_page_error_none(xs, 0, from);
        }
        lemma_page_replaced_keeps(xs, ys, p, from + 1);
    }
}

/// A page of accepted pages is accepted, and is an object.
pub proof fn lemma_first_page_error_none(pages: Seq<JsonValue>, from: int, i: int)
    requires
        0 <= from <= i < pages.len(),
        i <= usize::MAX,
        first_page_error(pages, from) is None,
    ensures
        page_error(i as usize, pages[i]) is None,
        pages[i] is Object,
    decreases i - from,
{
    if from < i {
        lemma_first_page_error_none(pages, from + 1, i);
    }
}

proof fn lemma_same_missing_identity(a: JsonValue, b: JsonValue, k: int)
    requires
        same(a, b),
    ensures
        first_missing_identity(a, k) == first_missing_identity(b, k),
    decreases 3 - k,
{
    if 0 <= k < 3 {
        lemma_same_member(a, b, identity_field(k)@);
        lemma_same_missing_identity(a, b, k + 1);
    }
}

proof fn lemma_same_bad_category(a: JsonValue, b: JsonValue, k: int)
    requires
        same(a, b),
    ensures
        first_bad_category(a, k) == first_bad_category(b, k),
        elements_from(a, k) == elements_from(b, k),
    decreases 12 - k,
{
    if 0 <= k < 12 {
        lemma_same_member(a, b, card_array(k)@);
        if let Some(v) = member(a, card_array(k)@) {
            lemma_same_items_of(v, member(b, card_array(k)@).unwrap());
        }
        lemma_same_bad_category(a, b, k + 1);
    }
}

/// Pages holding the same JSON take an item alike, and count the same
/// elements.
pub proof fn lemma_same_card_takes(a: JsonValue, b: JsonValue, key: Seq<char>, add: bool)
    requires
        same(a, b),
    ensures
        card_takes_item(a, key, add) == card_takes_item(b, key, add),
        member(a, "customProfileCard"@) is Some ==> elements_from(member(a, "customProfileCard"@).unwrap(), 0)
            == elements_from(member(b, "customProfileCard"@).unwrap(), 0),
{
    lemma_same_member(a, b, "customProfileCard"@);
    if let Some(ca) = member(a, "customProfileCard"@) {
        let cb = member(b, "customProfileCard"@).unwrap();
        lemma_same_bad_category(ca, cb, 0);
        lemma_same_member(ca, cb, key);
        if let Some(x) = member(ca, key) {
            let y = member(cb, key).unwrap();
            assert(same(x, y));
            assert(x is Array == y is Array);
        }
        assert(ca is Object == cb is Object);
    }
}

/// Pages holding the same JSON are refused alike.
proof fn lemma_same_page_error(p: usize, a: JsonValue, b: JsonValue)
    requires
        same(a, b),
    ensures
        page_error(p, a) == page_error(p, b),
{
    lemma_same_missing_identity(a, b, 0);
    lemma_same_member(a, b, "customProfileCard"@);
    if let Some(card) = member(a, "customProfileCard"@) {
        lemma_same_bad_category(card, member(b, "customProfileCard"@).unwrap(), 0);
    }
}

/// Pages holding the same JSON are refused alike.
pub proof fn lemma_same_pages_error(a: Seq<JsonValue>, b: Seq<JsonValue>, from: int)
    requires
        a.len() == b.len(),
        forall|j: int| 0 <= j < a.len() ==> same(#[trigger] a[j], b[j]),
    ensures
        first_page_error(a, from) == first_page_error(b, from),
    decreases a.len() - from,
{
    if 0 <= from < a.len() && from <= usize::MAX {
        lemma_same_page_error(from as usize, a[from], b[from]);
        lemma_same_pages_error(a, b, from + 1);
    }
}

/// `after` is the page `before` with both card IDs, `customProfileCardId`
/// and `customProfileId`, set to 0 and every other member kept.
pub open spec fn identity_cleared(before: JsonValue, after: JsonValue) -> bool {
    &&& after is Object
    &&& member(after, "customProfileCardId"@) == Some(JsonValue::Number(JsonNumber::PosInt(0)))
    &&& member(after, "customProfileId"@) == Some(JsonValue::Number(JsonNumber::PosInt(0)))
    &&& forall|key: Seq<char>|
        key != "customProfileCardId"@ && key != "customProfileId"@ ==> #[trigger] member(after, key) == member(
            before,
            key,
        )
}

proof fn lemma_cleared_page_accepted(p: usize, before: JsonValue, after: JsonValue)
    requires
        page_error(p, before) is None,
        identity_cleared(before, after),
    ensures
        page_error(p, after) is None,
{
    reveal_strlit("seq");
    reveal_strlit("customProfileCardId");
    reveal_strlit("customProfileId");
    reveal_strlit("customProfileCard");
    assert("seq"@.len() == 3 && "customProfileCardId"@.len() == 19 && "customProfileId"@.len() == 15
        && "customProfileCard"@.len() == 17);
    assert(member(after, "seq"@) == member(before, "seq"@));
    assert(member(after, "customProfileCard"@) == member(before, "customProfileCard"@));
    assert(first_missing_identity(before, 0) is None);
    assert(first_missing_identity(before, 1) is None);
    assert(first_missing_identity(before, 2) is None);
    assert(first_missing_identity(after, 3) is None);
    assert(first_missing_identity(after, 2) is None);
    assert(first_missing_identity(after, 1) is None);
    assert(first_missing_identity(after, 0) is None);
}

/// Pages that are each accepted are accepted together.
proof fn lemma_each_page_accepted(pages: Seq<JsonValue>, from: int)
    requires
        forall|i: int, q: usize| 0 <= i < pages.len() ==> #[trigger] page_error(q, pages[i]) is None,
        0 <= from,
    ensures
        first_page_error(pages, from) is None,
    decreases pages.len() - from,
{
    if from < pages.len() && from <= usize::MAX {
        assert(page_error(from as usize, pages[from]) is None);
        lemma_each_page_accepted(pages, from + 1);
    }
}

/// Whether a page is refused does not hang on its position.
proof fn lemma_page_error_index(p: usize, q: usize, page: JsonValue)
    requires
        page_error(p, page) is None,
    ensures
        page_error(q, page) is None,
{
}

proof fn lemma_pages_drawn_from_accepted(before: Seq<JsonValue>, after: Seq<JsonValue>, from: int)
    requires
        0 <= from,
        first_page_error(before, 0) is None,
        before.len() <= usize::MAX,
        forall|i: int| 0 <= i < after.len() ==> exists|j: int| 0 <= j < before.len() && #[trigger] after[i] == before[j],
    ensures
        first_page_error(after, from) is None,
    decreases after.len() - from,
{
    if from < after.len() && from <= usize::MAX {
        let j = choose|j: int| 0 <= j < before.len() && after[from] == before[j];
        lemma_first_page_error_none(before, 0, j);
        assert(page_error(from as usize, after[from]) is None);
        lemma_pages_drawn_from_accepted(before, after, from + 1);
    }
}

proof fn lemma_pushed_page_accepted(before: Seq<JsonValue>, grown: Seq<JsonValue>, from: int)
    requires
        0 <= from <= grown.len(),
        grown.len() == before.len() + 1,
        forall|i: int| 0 <= i < before.len() ==> grown[i] == before[i],
        from <= before.len() ==> first_page_error(before, from) is None,
        forall|p: usize| page_error(p, #[trigger] grown.last()) is None,
    ensures
        first_page_error(grown, from) is None,
    decreases grown.len() - from,
{
    if from < grown.len() && from <= usize::MAX {
        if from < before.len() {
            assert(grown[from] == before[from]);
        }
        lemma_pushed_page_accepted(before, grown, from + 1);
    }
}

/// A custom-profile document: the `userCustomProfileCards` of a profile,
/// every page checked, kept otherwise as it was read.
#[derive(Debug, PartialEq)]
pub struct GameProfileDocument {
    export: JsonValue,
}

impl GameProfileDocument {
    /// The value the document exports.
    pub closed spec fn value(&self) -> JsonValue {
        self.export
    }

    /// The pages of the document.
    pub open spec fn pages_spec(&self) -> Seq<JsonValue> {
        match self.value() {
            JsonValue::Object(entries) => if entries@.len() == 1 {
                match items_of(entries@[0].1) {
                    Some(pages) => pages,
                    None => Seq::empty(),
                }
            } else {
                Seq::empty()
            },
            _ => Seq::empty(),
        }
    }

    /// Every document keeps to [`Self::wf`].
    #[verifier::type_invariant]
    spec fn accepted(&self) -> bool {
        self.wf()
    }

    /// The document exports one member, `userCustomProfileCards`, an array
    /// of pages that are all accepted.
    pub open spec fn wf(&self) -> bool {
        &&& self.value() is Object
        &&& self.value()->Object_0@.len() == 1
        &&& self.value()->Object_0@[0].0@ == cards_key()
        &&& items_of(self.value()->Object_0@[0].1) is Some
        &&& first_page_error(self.pages_spec(), 0) is None
    }

    /// A document of one blank page.
    pub fn blank() -> (d: Self)
        ensures
            d.wf(),
            d.pages_spec().len() == 1,
            is_blank_page(d.pages_spec()[0], 1),
    {
        let mut pages: Vec<JsonValue> = Vec::new();
        pages.push(blank_page(1));
        let ghost page_seq = pages@;
        let mut entries: Vec<(String, JsonValue)> = Vec::new();
        entries.push((String::from_str("userCustomProfileCards"), JsonValue::Array(pages)));
        proof {
            reveal_strlit("userCustomProfileCards");
            assert(first_page_error(page_seq, 1) is None);
            assert(page_error(0, page_seq[0]) is None);
            assert(first_page_error(page_seq, 0) is None);
        }
        GameProfileDocument { export: JsonValue::Object(entries) }
    }

    /// The document of a profile: its `userCustomProfileCards`, each page
    /// checked. A profile that is not an object, has no such member, or
    /// whose pages are refused gives the error that says why.
    pub fn from_profile_value(profile: JsonValue) -> (r: Result<Self, GameProfileDocumentError>)
        ensures
            !(profile is Object) ==> r == Err::<Self, _>(GameProfileDocumentError::ProfileMustBeObject),
            profile is Object && member(profile, cards_key()) is None ==> r == Err::<Self, _>(
                GameProfileDocumentError::MissingCustomProfileCards,
            ),
            match member(profile, cards_key()) {
                Some(cards) => match cards_error(cards) {
                    Some(e) => r == Err::<Self, _>(e),
                    None => r is Ok && r.unwrap().wf() && r.unwrap().value()->Object_0@[0].1 == cards,
                },
                None => r is Err,
            },
    {
        match profile {
            JsonValue::Object(mut entries) => {
                proof {
                    lemma_member_index(entries@, cards_key());
                }
                let ghost given = entries@;
                assert(profile->Object_0@ == given);
                let mut i: usize = 0;
                while i < entries.len()
                    invariant
                        i <= entries@.len(),
                        entries@ == given,
                        forall|j: int| 0 <= j < i ==> (#[trigger] entries@[j]).0@ != cards_key(),
                    ensures
                        i <= entries@.len(),
                        entries@ == given,
                        forall|j: int| 0 <= j < i ==> (#[trigger] entries@[j]).0@ != cards_key(),
                        i < entries@.len() ==> entries@[i as int].0@ == cards_key(),
                    decreases entries.len() - i,
                {
                    proof {
                        reveal_strlit("userCustomProfileCards");
                    }
                    if crate::text::str_eq(entries[i].0.as_str(), "userCustomProfileCards") {
                        break;
                    }
                    i = i + 1;
                }
                if i == entries.len() {
                    return Err(GameProfileDocumentError::MissingCustomProfileCards);
                }
                proof {
                    reveal_strlit("userCustomProfileCards");
                    lemma_member_index(given, cards_key());
                    if let Some(k) = member_index(given, cards_key()) {
                        if k < i {
                            assert(given[k].0@ != cards_key());
                        }
                        if k > i {
                            assert(given[i as int].0@ != cards_key());
                        }
                    }
                }
                let (name, cards) = entries.remove(i);
                proof {
                    assert(member_index(given, cards_key()) == Some(i as int));
                    assert(member(profile, cards_key()) == Some(cards));
                }
                match cards.as_array() {
                    None => {
                        return Err(GameProfileDocumentError::CustomProfileCardsMustBeArray);
                    },
                    Some(pages) => {
                        check_pages(pages)?;
                    },
                }
                let mut kept: Vec<(String, JsonValue)> = Vec::new();
                kept.push((name, cards));
                Ok(GameProfileDocument { export: JsonValue::Object(kept) })
            },
            _ => Err(GameProfileDocumentError::ProfileMustBeObject),
        }
    }

    /// The document of an exported document; the same as
    /// [`Self::from_profile_value`].
    pub fn from_export_value(export: JsonValue) -> (r: Result<Self, GameProfileDocumentError>)
        ensures
            !(export is Object) ==> r == Err::<Self, _>(GameProfileDocumentError::ProfileMustBeObject),
            export is Object && member(export, cards_key()) is None ==> r == Err::<Self, _>(
                GameProfileDocumentError::MissingCustomProfileCards,
            ),
            match member(export, cards_key()) {
                Some(cards) => match cards_error(cards) {
                    Some(e) => r == Err::<Self, _>(e),
                    None => r is Ok && r.unwrap().wf() && r.unwrap().value()->Object_0@[0].1 == cards,
                },
                None => r is Err,
            },
    {
        Self::from_profile_value(export)
    }

    /// The value the document exports.
    pub fn export_value(&self) -> (r: &JsonValue)
        ensures
            *r == self.value(),
            self.wf(),
    {
        proof {
            use_type_invariant(self);
        }
        &self.export
    }

    /// Numbers the pages in order, from 1.
    pub fn normalize_page_sequence(&mut self)
        requires
            old(self).pages_spec().len() <= i64::MAX,
        ensures
            final(self).wf(),
            numbered_pages(old(self).pages_spec(), final(self).pages_spec()),
    {
        proof {
            use_type_invariant(&*self);
        }
        let ghost before = self.pages_spec();
        let mut taken = GameProfileDocument::blank();
        std::mem::swap(self, &mut taken);
        let GameProfileDocument { export } = taken;
        match export {
            JsonValue::Object(mut entries) => {
                let (name, cards) = entries.remove(0);
                match cards {
                    JsonValue::Array(pages) => {
                        proof {
                            assert(pages@ == before);
                            assert(pages@.len() == pages.len());
                            assert forall|i: int| 0 <= i < pages@.len() implies (#[trigger] pages@[i]) is Object by {
                                lemma_first_page_error_none(pages@, 0, i);
                            }
                        }
                        let numbered = renumber(pages);
                        let ghost after = numbered@;
                        proof {
                            lemma_numbered_pages_accepted(before, after, 0);
                        }
                        let mut kept: Vec<(String, JsonValue)> = Vec::new();
                        kept.push((name, JsonValue::Array(numbered)));
                        *self = GameProfileDocument { export: JsonValue::Object(kept) };
                        assert(self.pages_spec() == after);
                    },
                    _ => {},
                }
            },
            _ => {},
        }
    }

    /// Adds a blank page at the end and numbers the pages in order, from 1.
    pub fn append_blank_page(&mut self)
        requires
            old(self).pages_spec().len() < i64::MAX,
        ensures
            final(self).wf(),
            final(self).pages_spec().len() == old(self).pages_spec().len() + 1,
            forall|i: int|
                0 <= i < old(self).pages_spec().len() ==> numbered_page(
                    #[trigger] old(self).pages_spec()[i],
                    final(self).pages_spec()[i],
                    i + 1,
                ),
            is_blank_page(final(self).pages_spec().last(), (old(self).pages_spec().len() + 1) as u64),
    {
        proof {
            use_type_invariant(&*self);
        }
        let ghost before = self.pages_spec();
        let mut taken = GameProfileDocument::blank();
        std::mem::swap(self, &mut taken);
        let GameProfileDocument { export } = taken;
        match export {
            JsonValue::Object(mut entries) => {
                let (name, cards) = entries.remove(0);
                match cards {
                    JsonValue::Array(mut pages) => {
                        let blank = blank_page(1);
                        assert(before.len() == pages.len());
                        pages.push(blank);
                        let ghost grown = pages@;
                        proof {
                            assert(pages@ == before.push(grown.last()));
                            assert forall|i: int| 0 <= i < pages@.len() implies (#[trigger] pages@[i]) is Object by {
                                if i < before.len() {
                                    lemma_first_page_error_none(before, 0, i);
                                    assert(pages@[i] == before[i]);
                                }
                            }
                            lemma_pushed_page_accepted(before, grown, 0);
                        }
                        let numbered = renumber(pages);
                        let ghost after = numbered@;
                        proof {
                            lemma_numbered_pages_accepted(grown, after, 0);
                        }
                        let mut kept: Vec<(String, JsonValue)> = Vec::new();
                        kept.push((name, JsonValue::Array(numbered)));
                        *self = GameProfileDocument { export: JsonValue::Object(kept) };
                        proof {
                            assert(self.pages_spec() == after);
                            assert forall|i: int| 0 <= i < before.len() implies numbered_page(
                                #[trigger] before[i],
                                after[i],
                                i + 1,
                            ) by {
                                assert(grown[i] == before[i]);
                                assert(numbered_page(grown[i], after[i], i + 1));
                            }
                            assert(numbered_page(grown[before.len() as int], after[before.len() as int], before.len() as int + 1));
                            lemma_numbered_blank_page(grown.last(), after.last(), 1, before.len() as int + 1);
                        }
                    },
                    _ => {},
                }
            },
            _ => {},
        }
    }

    /// Removes page `p` and numbers the remaining pages in order, from 1.
    pub fn remove_page(&mut self, p: usize)
        requires
            p < old(self).pages_spec().len(),
            old(self).pages_spec().len() <= i64::MAX,
        ensures
            final(self).wf(),
            numbered_pages(old(self).pages_spec().remove(p as int), final(self).pages_spec()),
    {
        proof {
            use_type_invariant(&*self);
        }
        let ghost before = self.pages_spec();
        let mut taken = GameProfileDocument::blank();
        std::mem::swap(self, &mut taken);
        let GameProfileDocument { export } = taken;
        match export {
            JsonValue::Object(mut entries) => {
                let (name, cards) = entries.remove(0);
                match cards {
                    JsonValue::Array(mut pages) => {
                        assert(pages@ == before);
                        assert(before.len() == pages.len());
                        pages.remove(p);
                        let ghost kept_pages = pages@;
                        proof {
                            assert(kept_pages == before.remove(p as int));
                            assert forall|i: int| 0 <= i < kept_pages.len() implies exists|j: int|
                                0 <= j < before.len() && #[trigger] kept_pages[i] == before[j] by {
                                if i < p {
                                    assert(kept_pages[i] == before[i]);
                                } else {
                                    assert(kept_pages[i] == before[i + 1]);
                                }
                            }
                            lemma_pages_drawn_from_accepted(before, kept_pages, 0);
                            assert forall|i: int| 0 <= i < kept_pages.len() implies (#[trigger] kept_pages[i]) is Object by {
                                lemma_first_page_error_none(kept_pages, 0, i);
                            }
                        }
                        let numbered = renumber(pages);
                        let ghost after = numbered@;
                        proof {
                            lemma_numbered_pages_accepted(kept_pages, after, 0);
                        }
                        let mut kept: Vec<(String, JsonValue)> = Vec::new();
                        kept.push((name, JsonValue::Array(numbered)));
                        *self = GameProfileDocument { export: JsonValue::Object(kept) };
                        assert(self.pages_spec() == after);
                    },
                    _ => {},
                }
            },
            _ => {},
        }
    }

    /// Moves page `from` to position `to` and numbers the pages in order,
    /// from 1.
    pub fn move_page(&mut self, from: usize, to: usize)
        requires
            from < old(self).pages_spec().len(),
            to < old(self).pages_spec().len(),
            old(self).pages_spec().len() <= i64::MAX,
        ensures
            final(self).wf(),
            numbered_pages(
                old(self).pages_spec().remove(from as int).insert(to as int, old(self).pages_spec()[from as int]),
                final(self).pages_spec(),
            ),
    {
        proof {
            use_type_invariant(&*self);
        }
        let ghost before = self.pages_spec();
        let mut taken = GameProfileDocument::blank();
        std::mem::swap(self, &mut taken);
        let GameProfileDocument { export } = taken;
        match export {
            JsonValue::Object(mut entries) => {
                let (name, cards) = entries.remove(0);
                match cards {
                    JsonValue::Array(mut pages) => {
                        assert(pages@ == before);
                        assert(before.len() == pages.len());
                        let page = pages.remove(from);
                        pages.insert(to, page);
                        let ghost moved = pages@;
                        proof {
                            let rest = before.remove(from as int);
                            assert(moved == rest.insert(to as int, before[from as int]));
                            assert forall|i: int| 0 <= i < moved.len() implies exists|j: int|
                                0 <= j < before.len() && #[trigger] moved[i] == before[j] by {
                                if i < to {
                                    assert(moved[i] == rest[i]);
                                    if i < from {
                                        assert(rest[i] == before[i]);
                                    } else {
                                        assert(rest[i] == before[i + 1]);
                                    }
                                } else if i == to {
                                    assert(moved[i] == before[from as int]);
                                } else {
                                    assert(moved[i] == rest[i - 1]);
                                    if i - 1 < from {
                                        assert(rest[i - 1] == before[i - 1]);
                                    } else {
                                        assert(rest[i - 1] == before[i]);
                                    }
                                }
                            }
                            lemma_pages_drawn_from_accepted(before, moved, 0);
                            assert forall|i: int| 0 <= i < moved.len() implies (#[trigger] moved[i]) is Object by {
                                lemma_first_page_error_none(moved, 0, i);
                            }
                        }
                        let numbered = renumber(pages);
                        let ghost after = numbered@;
                        proof {
                            lemma_numbered_pages_accepted(moved, after, 0);
                        }
                        let mut kept: Vec<(String, JsonValue)> = Vec::new();
                        kept.push((name, JsonValue::Array(numbered)));
                        *self = GameProfileDocument { export: JsonValue::Object(kept) };
                        assert(self.pages_spec() == after);
                    },
                    _ => {},
                }
            },
            _ => {},
        }
    }

    /// A document holding the same JSON as this one.
    pub fn duplicate(&self) -> (r: Self)
        ensures
            r.wf(),
            same(r.value(), self.value()),
            r.pages_spec().len() == self.pages_spec().len(),
            forall|j: int| 0 <= j < r.pages_spec().len() ==> same(#[trigger] r.pages_spec()[j], self.pages_spec()[j]),
    {
        proof {
            use_type_invariant(self);
        }
        let export = self.export.duplicate();
        proof {
            let x = export->Object_0@;
            let y = self.export->Object_0@;
            assert(same(export, self.export));
            lemma_same_entries_at(x, y, x.len() as int, 0);
            lemma_same_items_of(x[0].1, y[0].1);
            let pa = items_of(x[0].1).unwrap();
            let pb = items_of(y[0].1).unwrap();
            assert forall|j: int| 0 <= j < pa.len() implies same(#[trigger] pa[j], pb[j]) by {
                assert(same(items_of(x[0].1).unwrap()[j], items_of(y[0].1).unwrap()[j]));
            }
            lemma_same_pages_error(pa, pb, 0);
        }
        GameProfileDocument { export }
    }

    /// Appends `item` to the array `key` of page `page`'s card, adding the
    /// array where the card has none and `add` allows it. Where the card is
    /// not an object, or its member `key` is neither an array nor a member
    /// that may be added, nothing changes and `false` comes back.
    pub(crate) fn push_card_item(&mut self, page: usize, key: &str, add: bool, item: JsonValue) -> (r: bool)
        requires
            page < old(self).pages_spec().len(),
            is_card_array(key@) ==> (member(old(self).pages_spec()[page as int], "customProfileCard"@) matches Some(c)
                ==> elements_from(c, 0) < MAX_ELEMENTS_PER_PAGE),
        ensures
            final(self).wf(),
            r == card_takes_item(old(self).pages_spec()[page as int], key@, add),
            !r ==> *final(self) == *old(self),
            r ==> exists|after: JsonValue|
                #[trigger] card_item_pushed(old(self).pages_spec()[page as int], key@, item, after)
                    && final(self).pages_spec() == old(self).pages_spec().update(page as int, after),
    {
        proof {
            use_type_invariant(&*self);
            reveal_strlit("customProfileCard");
        }
        let ghost before = self.pages_spec();
        let ok = {
            let pages = self.pages();
            match pages[page].get("customProfileCard") {
                Some(card) => match card {
                    JsonValue::Object(_) => match card.get(key) {
                        Some(a) => match a {
                            JsonValue::Array(_) => true,
                            _ => false,
                        },
                        None => add,
                    },
                    _ => false,
                },
                None => false,
            }
        };
        if !ok {
            return false;
        }
        proof {
            lemma_first_page_error_none(before, 0, page as int);
        }
        let mut taken = GameProfileDocument::blank();
        std::mem::swap(self, &mut taken);
        let GameProfileDocument { export } = taken;
        let ghost old_export = export;
        match export {
            JsonValue::Object(mut entries) => {
                let (name, cards) = entries.remove(0);
                match cards {
                    JsonValue::Array(mut pages) => {
                        assert(pages@ == before);
                        let mut pg = JsonValue::Null;
                        std::mem::swap(&mut pg, &mut pages[page]);
                        let ghost old_page = pg;
                        assert(old_page == before[page as int]);
                        let new_page = match pg {
                            JsonValue::Object(mut members) => {
                                let ghost m0 = members@;
                                match find_member(&members, "customProfileCard") {
                                    Some(j) => {
                                        let (cname, cval) = members.remove(j);
                                        let ghost card = cval;
                                        assert(card == m0[j as int].1);
                                        let new_card = match cval {
                                            JsonValue::Object(mut cm) => {
                                                let ghost c0 = cm@;
                                                match find_member(&cm, key) {
                                                    Some(t) => {
                                                        let (aname, aval) = cm.remove(t);
                                                        match aval {
                                                            JsonValue::Array(mut items) => {
                                                                let ghost old_items = items@;
                                                                assert(member(card, key@) == Some(JsonValue::Array(items)));
                                                                items.push(item);
                                                                let ghost a2 = JsonValue::Array(items);
                                                                cm.insert(t, (aname, JsonValue::Array(items)));
                                                                proof {
                                                                    assert(cm@ =~= c0.update(t as int, (c0[t as int].0, cm@[t as int].1)));
                                                                    assert(sets_member(c0, cm@, key@, a2));
                                                                    lemma_set_member_value(c0, cm@, key@, a2, key@);
                                                                    assert(items_of(a2) == Some(old_items.push(item)));
                                                                }
                                                            },
                                                            _ => {
                                                                proof {
                                                                    assert(false);
                                                                }
                                                            },
                                                        }
                                                    },
                                                    None => {
                                                        let mut items: Vec<JsonValue> = Vec::new();
                                                        items.push(item);
                                                        let ghost a2 = JsonValue::Array(items);
                                                        proof {
                                                            assert(items@ =~= seq![item]);
                                                        }
                                                        set_member(&mut cm, String::from_str(key), JsonValue::Array(items));
                                                        proof {
                                                            lemma_set_member_value(c0, cm@, key@, a2, key@);
                                                        }
                                                    },
                                                }
                                                JsonValue::Object(cm)
                                            },
                                            other => other,
                                        };
                                        let ghost card2 = new_card;
                                        members.insert(j, (cname, new_card));
                                        proof {
                                            assert(members@ =~= m0.update(j as int, (m0[j as int].0, card2)));
                                            assert(sets_member(m0, members@, "customProfileCard"@, card2));
                                            lemma_set_member_value(m0, members@, "customProfileCard"@, card2, "customProfileCard"@);
                                            assert(card_item_pushed(old_page, key@, item, JsonValue::Object(members)));
                                        }
                                        JsonValue::Object(members)
                                    },
                                    None => JsonValue::Object(members),
                                }
                            },
                            other => other,
                        };
                        let ghost page2 = new_page;
                        proof {
                            lemma_push_keeps_page(page, old_page, key@, item, page2);
                        }
                        pages.set(page, new_page);
                        let ghost grown = pages@;
                        proof {
                            assert(grown =~= before.update(page as int, page2));
                            lemma_page_replaced_keeps(before, grown, page as int, 0);
                        }
                        let mut kept: Vec<(String, JsonValue)> = Vec::new();
                        kept.push((name, JsonValue::Array(pages)));
                        *self = GameProfileDocument { export: JsonValue::Object(kept) };
                        assert(self.pages_spec() == grown);
                    },
                    _ => {},
                }
            },
            _ => {},
        }
        true
    }

    /// Inserts a copy of page `page` after it, both card IDs of the copy set
    /// to 0, and numbers the pages in order, from 1.
    pub fn insert_page_copy(&mut self, page: usize)
        requires
            page < old(self).pages_spec().len(),
            old(self).pages_spec().len() < i64::MAX,
        ensures
            final(self).wf(),
            exists|copy: JsonValue, cleared: JsonValue|
                {
                    &&& same(copy, old(self).pages_spec()[page as int])
                    &&& #[trigger] identity_cleared(copy, cleared)
                    &&& numbered_pages(old(self).pages_spec().insert(page + 1, cleared), final(self).pages_spec())
                },
    {
        proof {
            use_type_invariant(&*self);
        }
        let ghost before = self.pages_spec();
        let mut taken = GameProfileDocument::blank();
        std::mem::swap(self, &mut taken);
        let GameProfileDocument { export } = taken;
        match export {
            JsonValue::Object(mut entries) => {
                let (name, cards) = entries.remove(0);
                match cards {
                    JsonValue::Array(mut pages) => {
                        assert(pages@ == before);
                        assert(before.len() == pages.len());
                        let copy = pages[page].duplicate();
                        let ghost copy_value = copy;
                        proof {
                            lemma_first_page_error_none(before, 0, page as int);
                            assert forall|q: usize| #[trigger] page_error(q, copy_value) is None by {
                                lemma_same_page_error(q, copy_value, before[page as int]);
                                assert(page_error(q, before[page as int]) == page_error(page, before[page as int]));
                            }
                        }
                        let cleared = match copy {
                            JsonValue::Object(mut members) => {
                                let ghost m0 = members@;
                                set_member(&mut members, String::from_str("customProfileCardId"), JsonValue::Number(JsonNumber::PosInt(0)));
                                let ghost m1 = members@;
                                set_member(&mut members, String::from_str("customProfileId"), JsonValue::Number(JsonNumber::PosInt(0)));
                                proof {
                                    reveal_strlit("customProfileCardId");
                                    reveal_strlit("customProfileId");
                                    reveal_strlit("seq");
                                    reveal_strlit("customProfileCard");
                                    assert("customProfileCardId"@.len() == 19 && "customProfileId"@.len() == 15);
                                    assert(page_error(0, copy_value) is None);
                                    assert(first_missing_identity(copy_value, 0) is None);
                                    assert(first_missing_identity(copy_value, 1) is None);
                                    lemma_member_index(m0, "customProfileCardId"@);
                                    lemma_member_index(m0, "customProfileId"@);
                                    assert forall|key: Seq<char>| true implies entry_value(m1, key) == if key == "customProfileCardId"@ {
                                        Some(JsonValue::Number(JsonNumber::PosInt(0)))
                                    } else {
                                        entry_value(m0, key)
                                    } by {
                                        lemma_replaced_member(m0, m1, "customProfileCardId"@, JsonValue::Number(JsonNumber::PosInt(0)), key);
                                    }
                                    lemma_replaced_member(m0, m1, "customProfileCardId"@, JsonValue::Number(JsonNumber::PosInt(0)), "customProfileId"@);
                                    assert(entry_value(m1, "customProfileId"@) is Some);
                                    lemma_member_index(m1, "customProfileId"@);
                                    assert forall|key: Seq<char>| true implies entry_value(members@, key) == if key == "customProfileId"@ {
                                        Some(JsonValue::Number(JsonNumber::PosInt(0)))
                                    } else {
                                        entry_value(m1, key)
                                    } by {
                                        lemma_replaced_member(m1, members@, "customProfileId"@, JsonValue::Number(JsonNumber::PosInt(0)), key);
                                    }
                                }
                                JsonValue::Object(members)
                            },
                            other => other,
                        };
                        let ghost cleared_value = cleared;
                        proof {
                            assert(identity_cleared(copy_value, cleared_value));
                            assert forall|q: usize| #[trigger] page_error(q, cleared_value) is None by {
                                lemma_cleared_page_accepted(q, copy_value, cleared_value);
                            }
                        }
                        pages.insert(page + 1, cleared);
                        let ghost grown = pages@;
                        proof {
                            assert(grown == before.insert(page + 1, cleared_value));
                            assert forall|i: int, q: usize| 0 <= i < grown.len() implies #[trigger] page_error(q, grown[i]) is None by {
                                if i != page + 1 {
                                    let j = if i <= page { i } else { i - 1 };
                                    assert(grown[i] == before[j]);
                                    lemma_first_page_error_none(before, 0, j);
                                    lemma_page_error_index(j as usize, q, before[j]);
                                }
                            }
                            lemma_each_page_accepted(grown, 0);
                            assert forall|i: int| 0 <= i < grown.len() implies (#[trigger] grown[i]) is Object by {
                                lemma_first_page_error_none(grown, 0, i);
                            }
                        }
                        let numbered = renumber(pages);
                        let ghost after = numbered@;
                        proof {
                            lemma_numbered_pages_accepted(grown, after, 0);
                        }
                        let mut kept: Vec<(String, JsonValue)> = Vec::new();
                        kept.push((name, JsonValue::Array(numbered)));
                        *self = GameProfileDocument { export: JsonValue::Object(kept) };
                        assert(self.pages_spec() == after);
                    },
                    _ => {},
                }
            },
            _ => {},
        }
    }

    /// The pages of the document.
    pub fn pages(&self) -> (r: &Vec<JsonValue>)
        ensures
            r@ == self.pages_spec(),
    {
        proof {
            use_type_invariant(self);
            reveal_strlit("userCustomProfileCards");
            assert(member(self.export, cards_key()) == Some(self.export->Object_0@[0].1));
        }
        let cards = self.export.get("userCustomProfileCards").unwrap();
        cards.as_array().unwrap()
    }

    /// The number of pages.
    pub fn page_count(&self) -> (n: usize)
        ensures
            n == self.pages_spec().len(),
    {
        proof {
            use_type_invariant(self);
        }
        match &self.export {
            JsonValue::Object(entries) => match entries[0].1.as_array() {
                Some(pages) => pages.len(),
                None => 0,
            },
            _ => 0,
        }
    }
}

/// What a document exports imports again: the export is a profile whose
/// `userCustomProfileCards` are the document's own pages, all accepted, so
/// [`GameProfileDocument::from_export_value`] gives back a document of the
/// same pages.
pub proof fn law_exports_import_again(document: GameProfileDocument)
    requires
        document.wf(),
    ensures
        document.value() is Object,
        member(document.value(), cards_key()) == Some(document.value()->Object_0@[0].1),
        cards_error(document.value()->Object_0@[0].1) is None,
        items_of(document.value()->Object_0@[0].1) == Some(document.pages_spec()),
{
}

fn page_prefix(page: usize) -> (m: String)
    ensures
        m@ == "userCustomProfileCards["@ + count_text(page) + "]"@,
{
    let mut m = String::from_str("userCustomProfileCards[");
    push_count(&mut m, page);
    m.append("]");
    m
}


} // verus!
