use sekai_profile_renderer::authoring_document::{GameProfileDocument, GameProfileDocumentError};
use sekai_profile_renderer::json::{JsonNumber, JsonValue};

const CARD_ARRAYS: [&str; 12] = [
    "bondsHonors",
    "cardMembers",
    "collections",
    "generalBackgrounds",
    "generals",
    "honors",
    "others",
    "shapes",
    "stamps",
    "standMembers",
    "storyBackgrounds",
    "texts",
];

fn num(n: u64) -> JsonValue {
    JsonValue::Number(JsonNumber::PosInt(n))
}

fn text(s: &str) -> JsonValue {
    JsonValue::String(s.to_string())
}

fn object(members: Vec<(&str, JsonValue)>) -> JsonValue {
    JsonValue::Object(members.into_iter().map(|(k, v)| (k.to_string(), v)).collect())
}

fn card_without(skip: &str, replace: Option<(&str, JsonValue)>) -> JsonValue {
    let mut members = Vec::new();
    let mut replacement = replace;
    for key in CARD_ARRAYS {
        if key == skip {
            continue;
        }
        match replacement.take() {
            Some((name, value)) if name == key => members.push((key, value)),
            other => {
                replacement = other;
                members.push((key, JsonValue::Array(Vec::new())));
            }
        }
    }
    object(members)
}

fn page(card: JsonValue, card_id: JsonValue, profile_id: JsonValue, seq: JsonValue) -> JsonValue {
    object(vec![
        ("customProfileCard", card),
        ("customProfileCardId", card_id),
        ("customProfileId", profile_id),
        ("seq", seq),
    ])
}

fn profile_of(pages: Vec<JsonValue>) -> JsonValue {
    object(vec![("userCustomProfileCards", JsonValue::Array(pages))])
}

fn pages_of(document: &GameProfileDocument) -> &Vec<JsonValue> {
    document
        .export_value()
        .get("userCustomProfileCards")
        .and_then(|cards| cards.as_array())
        .expect("pages")
}

#[test]
fn blank_document_uses_the_public_game_profile_envelope() {
    let document = GameProfileDocument::blank();
    let pages = pages_of(&document);
    assert_eq!(pages.len(), 1);
    assert_eq!(pages[0].get("customProfileCardId"), Some(&num(0)));
    assert_eq!(pages[0].get("customProfileId"), Some(&num(0)));
    assert_eq!(pages[0].get("seq"), Some(&num(1)));
    let card = pages[0].get("customProfileCard").unwrap();
    match card {
        JsonValue::Object(members) => assert_eq!(members.len(), CARD_ARRAYS.len()),
        other => panic!("card is {other:?}"),
    }
    for key in CARD_ARRAYS {
        assert_eq!(card.get(key), Some(&JsonValue::Array(Vec::new())), "array {key}");
    }
    assert_eq!(document.page_count(), 1);
}

#[test]
fn full_profile_import_keeps_only_custom_profile_cards() {
    let profile = object(vec![
        ("user", object(vec![("userId", num(42)), ("name", text("not exported"))])),
        ("userDeck", object(vec![("deckId", num(7))])),
        (
            "userCustomProfileCards",
            JsonValue::Array(vec![page(card_without("", None), num(9), num(3), num(1))]),
        ),
    ]);
    let document = GameProfileDocument::from_profile_value(profile).unwrap();
    let exported = document.export_value();
    match exported {
        JsonValue::Object(members) => assert_eq!(members.len(), 1),
        other => panic!("export is {other:?}"),
    }
    assert!(exported.get("user").is_none());
    assert!(exported.get("userDeck").is_none());
    assert_eq!(pages_of(&document)[0].get("customProfileCardId"), Some(&num(9)));
}

fn page_with_unknown_fields() -> JsonValue {
    let position = object(vec![
        ("x", JsonValue::Number(JsonNumber::Float(1.0f64.to_bits()))),
        ("y", JsonValue::Number(JsonNumber::Float(2.0f64.to_bits()))),
        ("z", JsonValue::Number(JsonNumber::Float(0.0f64.to_bits()))),
    ]);
    let object_data = object(vec![
        ("position", position),
        ("layer", num(0)),
        ("lock", JsonValue::Bool(false)),
        ("visible", JsonValue::Bool(true)),
        ("futureTransformFlag", text("keep")),
    ]);
    let general = object(vec![
        ("objectData", object_data),
        ("type", num(13)),
        ("futureGeneralField", object(vec![("enabled", JsonValue::Bool(true))])),
    ]);
    let mut card = card_without("", Some(("generals", JsonValue::Array(vec![general]))));
    if let JsonValue::Object(members) = &mut card {
        members.push(("version".to_string(), num(3)));
        members.push(("futureCardField".to_string(), JsonValue::Array(vec![num(1), num(2), num(3)])));
    }
    let mut page = page(card, num(9), num(3), num(1));
    if let JsonValue::Object(members) = &mut page {
        members.push(("futurePageField".to_string(), text("keep")));
    }
    page
}

#[test]
fn import_export_preserves_unknown_legal_custom_profile_fields() {
    let document = GameProfileDocument::from_profile_value(profile_of(vec![page_with_unknown_fields()])).unwrap();
    assert_eq!(
        document.export_value().get("userCustomProfileCards"),
        Some(&JsonValue::Array(vec![page_with_unknown_fields()]))
    );
}

#[test]
fn rejects_missing_or_non_array_authored_categories() {
    let missing = profile_of(vec![page(card_without("texts", None), num(0), num(0), num(1))]);
    assert_eq!(
        GameProfileDocument::from_export_value(missing).err(),
        Some(GameProfileDocumentError::MissingCardCategory { page: 0, category: "texts" })
    );
    let wrong_type = profile_of(vec![page(
        card_without("", Some(("texts", object(Vec::new())))),
        num(0),
        num(0),
        num(1),
    )]);
    assert_eq!(
        GameProfileDocument::from_export_value(wrong_type).err(),
        Some(GameProfileDocumentError::CardCategoryMustBeArray { page: 0, category: "texts" })
    );
}

#[test]
fn rejects_invalid_page_shape_and_non_integer_identity_fields() {
    assert_eq!(
        GameProfileDocument::from_export_value(profile_of(vec![JsonValue::Null])).err(),
        Some(GameProfileDocumentError::PageMustBeObject { page: 0 })
    );
    assert_eq!(
        GameProfileDocument::from_export_value(profile_of(vec![page(JsonValue::Null, num(0), num(0), num(1))]))
            .err(),
        Some(GameProfileDocumentError::CardMustBeObject { page: 0 })
    );
    let fraction = || JsonValue::Number(JsonNumber::Float(1.5f64.to_bits()));
    let cases = [
        ("customProfileCardId", page(card_without("", None), fraction(), num(0), num(1))),
        ("customProfileId", page(card_without("", None), num(0), fraction(), num(1))),
        ("seq", page(card_without("", None), num(0), num(0), fraction())),
    ];
    for (field, value) in cases {
        assert_eq!(
            GameProfileDocument::from_export_value(profile_of(vec![value])).err(),
            Some(GameProfileDocumentError::PageIdentityMustBeInteger { page: 0, field }),
            "field {field}"
        );
    }
}

#[test]
fn rejects_more_than_150_elements_on_one_page() {
    let texts = JsonValue::Array((0..151).map(|_| object(Vec::new())).collect());
    let value = profile_of(vec![page(card_without("", Some(("texts", texts))), num(0), num(0), num(1))]);
    assert_eq!(
        GameProfileDocument::from_export_value(value).err(),
        Some(GameProfileDocumentError::ElementLimitExceeded { page: 0, count: 151, max: 150 })
    );
    let texts = JsonValue::Array((0..150).map(|_| object(Vec::new())).collect());
    let value = profile_of(vec![page(card_without("", Some(("texts", texts))), num(0), num(0), num(1))]);
    assert!(GameProfileDocument::from_export_value(value).is_ok());
}

#[test]
fn append_blank_page_uses_zero_ids_and_normalizes_sequence() {
    let value = profile_of(vec![page(card_without("", None), num(5), num(6), num(42))]);
    let mut document = GameProfileDocument::from_export_value(value).unwrap();
    document.append_blank_page();
    let pages = pages_of(&document);
    assert_eq!(pages.len(), 2);
    assert_eq!(pages[0].get("seq"), Some(&num(1)));
    assert_eq!(pages[1].get("seq"), Some(&num(2)));
    assert_eq!(pages[0].get("customProfileCardId"), Some(&num(5)));
    assert_eq!(pages[1].get("customProfileCardId"), Some(&num(0)));
    assert_eq!(pages[1].get("customProfileId"), Some(&num(0)));
    for key in CARD_ARRAYS {
        assert_eq!(
            pages[1].get("customProfileCard").and_then(|card| card.get(key)),
            Some(&JsonValue::Array(Vec::new()))
        );
    }
}

#[test]
fn profiles_without_pages_are_refused_with_their_reason() {
    assert_eq!(
        GameProfileDocument::from_profile_value(JsonValue::Null).err(),
        Some(GameProfileDocumentError::ProfileMustBeObject)
    );
    assert_eq!(
        GameProfileDocument::from_profile_value(object(vec![("user", num(1))])).err(),
        Some(GameProfileDocumentError::MissingCustomProfileCards)
    );
    assert_eq!(
        GameProfileDocument::from_profile_value(object(vec![("userCustomProfileCards", num(1))])).err(),
        Some(GameProfileDocumentError::CustomProfileCardsMustBeArray)
    );
    assert_eq!(
        GameProfileDocumentError::ElementLimitExceeded { page: 2, count: 151, max: 150 }.message(),
        "userCustomProfileCards[2] contains 151 elements; maximum is 150"
    );
}

#[test]
fn normalizing_numbers_pages_in_order() {
    let value = profile_of(vec![
        page(card_without("", None), num(1), num(1), num(7)),
        page(card_without("", None), num(2), num(1), num(7)),
    ]);
    let mut document = GameProfileDocument::from_export_value(value).unwrap();
    document.normalize_page_sequence();
    let pages = pages_of(&document);
    assert_eq!(pages[0].get("seq"), Some(&num(1)));
    assert_eq!(pages[1].get("seq"), Some(&num(2)));
    assert_eq!(pages[1].get("customProfileCardId"), Some(&num(2)));
}

fn copy_of(value: &JsonValue) -> JsonValue {
    match value {
        JsonValue::Null => JsonValue::Null,
        JsonValue::Bool(b) => JsonValue::Bool(*b),
        JsonValue::Number(n) => JsonValue::Number(*n),
        JsonValue::String(s) => JsonValue::String(s.clone()),
        JsonValue::Array(items) => JsonValue::Array(items.iter().map(copy_of).collect()),
        JsonValue::Object(entries) => {
            JsonValue::Object(entries.iter().map(|(k, v)| (k.clone(), copy_of(v))).collect())
        }
    }
}

#[test]
fn an_exported_document_imports_again_as_itself() {
    let mut document = GameProfileDocument::from_profile_value(profile_of(vec![page_with_unknown_fields()])).unwrap();
    document.append_blank_page();
    let again = GameProfileDocument::from_export_value(copy_of(document.export_value())).unwrap();
    assert_eq!(again, document);
    assert_eq!(again.page_count(), 2);
}
