use sekai_profile_renderer::json::{JsonNumber, JsonValue};
use sekai_profile_renderer::table::Table;

fn record(id: Option<u64>, name: &str) -> JsonValue {
    let mut members = Vec::new();
    if let Some(id) = id {
        members.push(("id".to_string(), JsonValue::Number(JsonNumber::PosInt(id))));
    }
    members.push(("name".to_string(), JsonValue::String(name.to_string())));
    JsonValue::Object(members)
}

#[test]
fn arrays_are_indexed_by_id_and_single_values_are_one_record() {
    let table = Table::from_value(JsonValue::Array(vec![
        record(Some(1), "a"),
        record(None, "b"),
        record(Some(1), "c"),
        record(Some(2), "d"),
    ]));
    assert_eq!(table.len(), 4);
    assert!(!table.is_empty());
    assert_eq!(table.by_id(1).and_then(|r| r.get("name")).and_then(|n| n.as_str()), Some("c"));
    assert_eq!(table.by_id(2).and_then(|r| r.get("name")).and_then(|n| n.as_str()), Some("d"));
    assert!(table.by_id(3).is_none());
    assert_eq!(table.all().len(), 4);

    let single = Table::from_value(record(Some(7), "only"));
    assert_eq!(single.len(), 1);
    assert!(single.by_id(7).is_some());

    let empty = Table::from_value(JsonValue::Array(Vec::new()));
    assert!(empty.is_empty());
    let scalar = Table::from_value(JsonValue::Null);
    assert_eq!(scalar.len(), 1);
}
