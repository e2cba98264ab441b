use sekai_profile_renderer::authoring_document::GameProfileDocument;
use sekai_profile_renderer::authoring_session::{
    AuthoringCheckpoint, AUTHORING_CHECKPOINT_SCHEMA, AuthoringCategory, AuthoringChangeKind, AuthoringCommand, AuthoringElementId, AuthoringError, AuthoringPageChange,
    AuthoringPageChangeKind, AuthoringSelection, AuthoringSession,
    AUTHORING_HISTORY_LIMIT,
};
use sekai_profile_renderer::json::{JsonNumber, JsonValue};

const CARD_ARRAYS: [&str; 12] = [
    "bondsHonors",
    "cardMembers",
    "collections",
    "generalBackgrounds",
    "generals",
    "honors",
    "others",
    "shapes",
    "stamps",
    "standMembers",
    "storyBackgrounds",
    "texts",
];

fn num(n: u64) -> JsonValue {
    JsonValue::Number(JsonNumber::PosInt(n))
}

fn object(members: Vec<(&str, JsonValue)>) -> JsonValue {
    JsonValue::Object(members.into_iter().map(|(k, v)| (k.to_string(), v)).collect())
}

fn text(layer: u64) -> JsonValue {
    object(vec![
        (
            "objectData",
            object(vec![("layer", num(layer)), ("lock", JsonValue::Bool(false)), ("visible", JsonValue::Bool(true))]),
        ),
        ("text", JsonValue::String("hello".into())),
    ])
}

fn page(texts: Vec<JsonValue>, shapes: Vec<JsonValue>) -> JsonValue {
    let mut texts = Some(texts);
    let mut shapes = Some(shapes);
    let card = object(
        CARD_ARRAYS
            .iter()
            .map(|key| {
                let items = match *key {
                    "texts" => texts.take().unwrap(),
                    "shapes" => shapes.take().unwrap(),
                    _ => Vec::new(),
                };
                (*key, JsonValue::Array(items))
            })
            .collect(),
    );
    object(vec![
        ("customProfileCard", card),
        ("customProfileCardId", num(0)),
        ("customProfileId", num(0)),
        ("seq", num(1)),
    ])
}

fn session(pages: Vec<JsonValue>) -> AuthoringSession {
    let profile = object(vec![("userCustomProfileCards", JsonValue::Array(pages))]);
    AuthoringSession::new(GameProfileDocument::from_profile_value(profile).unwrap())
}

fn flag(session: &AuthoringSession, page: usize, key: &str, index: usize, flag: &str) -> Option<bool> {
    match session
        .export_value()
        .get("userCustomProfileCards")?
        .at(page)?
        .get("customProfileCard")?
        .get(key)?
        .at(index)?
        .get("objectData")?
        .get(flag)?
    {
        JsonValue::Bool(b) => Some(*b),
        _ => None,
    }
}

fn same_json(a: &JsonValue, b: &JsonValue) -> bool {
    a.same_as(b)
}

#[test]
fn elements_are_numbered_page_by_page_and_category_by_category() {
    let s = session(vec![page(vec![text(0), text(1)], vec![text(2)]), page(vec![text(0)], Vec::new())]);
    // Shapes come before texts in category order.
    assert_eq!(
        s.element_ids(0).unwrap(),
        vec![AuthoringElementId(1), AuthoringElementId(2), AuthoringElementId(3)]
    );
    assert_eq!(s.element_ids(1).unwrap(), vec![AuthoringElementId(4)]);
    assert!(matches!(s.element_ids(2), Err(AuthoringError::PageNotFound(2))));
    assert_eq!(s.revision(), 0);
}

#[test]
fn a_flag_command_records_one_change_and_undo_redo_restore_the_document() {
    let mut s = session(vec![page(vec![text(0)], Vec::new())]);
    let id = AuthoringElementId(1);
    let before = s.export_value().duplicate();
    let delta = s.apply(AuthoringCommand::SetLock { id, lock: true }).unwrap();
    assert_eq!(delta.revision, 1);
    assert!(delta.can_undo && !delta.can_redo);
    assert_eq!(delta.changes.len(), 1);
    assert_eq!(delta.changes[0].id, id);
    assert_eq!(delta.changes[0].category, AuthoringCategory::Texts);
    assert_eq!(delta.changes[0].kind, AuthoringChangeKind::Updated);
    assert!(delta.changes[0].element.is_some());
    assert_eq!(flag(&s, 0, "texts", 0, "lock"), Some(true));
    let after = s.export_value().duplicate();

    let undone = s.undo().unwrap().unwrap();
    assert_eq!(undone.revision, 2);
    assert!(same_json(s.export_value(), &before));
    assert_eq!(flag(&s, 0, "texts", 0, "lock"), Some(false));
    let redone = s.redo().unwrap().unwrap();
    assert_eq!(redone.revision, 3);
    assert!(same_json(s.export_value(), &after));
    assert!(s.redo().unwrap().is_none());
}

#[test]
fn commands_that_set_a_flag_to_its_value_leave_history_and_revision_alone() {
    let mut s = session(vec![page(vec![text(0)], Vec::new())]);
    let id = AuthoringElementId(1);
    let delta = s.apply(AuthoringCommand::SetVisible { id, visible: true }).unwrap();
    assert_eq!(delta.revision, 0);
    assert!(delta.changes.is_empty());
    assert!(delta.page_changes.is_empty());
    assert!(!delta.can_undo);
    let same_layer = s.apply(AuthoringCommand::ChangeLayer { id, layer: 0 }).unwrap();
    assert!(same_layer.changes.is_empty());
    assert!(same_layer.page_changes.is_empty());
    let no_values = s.apply(AuthoringCommand::SetParameters { id, values: Vec::new() }).unwrap();
    assert!(no_values.changes.is_empty());
    assert_eq!(s.revision(), 0);
    assert!(s.undo().unwrap().is_none());
}

#[test]
fn a_new_command_clears_redo_and_history_keeps_at_most_150_entries() {
    let mut s = session(vec![page(vec![text(0)], Vec::new())]);
    let id = AuthoringElementId(1);
    for index in 0..200 {
        s.apply(AuthoringCommand::SetVisible { id, visible: index % 2 == 1 }).unwrap();
    }
    let mut count = 0;
    while s.undo().unwrap().is_some() {
        count += 1;
    }
    assert_eq!(count, AUTHORING_HISTORY_LIMIT);
    assert!(s.redo().unwrap().is_some());
    s.apply(AuthoringCommand::SetLock { id, lock: true }).unwrap();
    assert!(s.redo().unwrap().is_none());
}

#[test]
fn unknown_elements_and_gestures_refuse_commands_and_keep_the_state() {
    let mut s = session(vec![page(vec![text(0)], Vec::new())]);
    let missing = AuthoringElementId(9);
    assert!(matches!(
        s.apply(AuthoringCommand::SetLock { id: missing, lock: true }),
        Err(AuthoringError::ElementNotFound(AuthoringElementId(9)))
    ));
    assert!(matches!(s.select(Some(missing)), Err(AuthoringError::ElementNotFound(_))));
    let id = AuthoringElementId(1);
    s.apply(AuthoringCommand::SetLock { id, lock: true }).unwrap();
    s.begin_gesture(id).unwrap();
    assert_eq!(s.selected_id(), Some(id));
    assert!(matches!(s.begin_gesture(id), Err(AuthoringError::GestureAlreadyActive)));
    assert!(matches!(
        s.apply(AuthoringCommand::SetLock { id, lock: false }),
        Err(AuthoringError::GestureInProgress)
    ));
    assert!(matches!(s.undo(), Err(AuthoringError::GestureInProgress)));
    assert!(matches!(s.redo(), Err(AuthoringError::GestureInProgress)));
    assert!(matches!(
        s.preview_gesture(AuthoringCommand::SetLock { id, lock: false }),
        Err(AuthoringError::GestureElementMismatch)
    ));
    s.cancel_gesture().unwrap();
    assert_eq!(s.selected_id(), None);
    assert!(matches!(s.cancel_gesture(), Err(AuthoringError::GestureNotActive)));
    assert!(s.undo().unwrap().is_some());
    s.begin_gesture(id).unwrap();
    let committed = s.commit_gesture().unwrap();
    assert!(committed.changes.is_empty());
    assert_eq!(s.selected_id(), Some(id));
    let selected = s.select(None).unwrap();
    assert_eq!(selected.selected_id, None);
}

#[test]
fn an_element_without_object_data_is_refused() {
    let bare = object(vec![("text", JsonValue::String("x".into()))]);
    let mut s = session(vec![page(vec![bare], Vec::new())]);
    assert!(matches!(
        s.apply(AuthoringCommand::SetLock { id: AuthoringElementId(1), lock: true }),
        Err(AuthoringError::InvalidObjectData)
    ));
    assert_eq!(s.revision(), 0);
}

fn text_of(session: &AuthoringSession, index: usize) -> Option<String> {
    match session
        .export_value()
        .get("userCustomProfileCards")?
        .at(0)?
        .get("customProfileCard")?
        .get("texts")?
        .at(index)?
        .get("text")?
    {
        JsonValue::String(s) => Some(s.clone()),
        _ => None,
    }
}

fn parameters(text: &str) -> Vec<(String, JsonValue)> {
    vec![("text".to_string(), JsonValue::String(text.to_string()))]
}

#[test]
fn parameters_are_set_in_turn_and_object_data_is_refused() {
    let mut s = session(vec![page(vec![text(0)], Vec::new())]);
    let id = AuthoringElementId(1);
    let delta = s
        .apply(AuthoringCommand::SetParameters {
            id,
            values: vec![
                ("text".to_string(), JsonValue::String("first".into())),
                ("text".to_string(), JsonValue::String("second".into())),
                ("size".to_string(), num(24)),
            ],
        })
        .unwrap();
    assert_eq!(delta.revision, 1);
    assert_eq!(text_of(&s, 0).as_deref(), Some("second"));
    let refused = s.apply(AuthoringCommand::SetParameters {
        id,
        values: vec![("objectData".to_string(), JsonValue::Null)],
    });
    assert!(matches!(refused, Err(AuthoringError::ObjectDataParameterForbidden)));
    let empty = s.apply(AuthoringCommand::SetParameters { id, values: Vec::new() }).unwrap();
    assert_eq!(empty.revision, 1);
    assert!(empty.changes.is_empty());
}

#[test]
fn previews_change_the_document_and_commit_records_one_entry() {
    let mut s = session(vec![page(vec![text(0)], Vec::new())]);
    let id = AuthoringElementId(1);
    s.begin_gesture(id).unwrap();
    assert!(matches!(
        s.preview_gesture(AuthoringCommand::SetParameters { id: AuthoringElementId(7), values: parameters("x") }),
        Err(AuthoringError::GestureElementMismatch)
    ));
    let first = s.preview_gesture(AuthoringCommand::SetParameters { id, values: parameters("a") }).unwrap();
    assert_eq!(first.revision, 0);
    assert_eq!(first.changes.len(), 1);
    s.preview_gesture(AuthoringCommand::SetParameters { id, values: parameters("b") }).unwrap();
    assert_eq!(text_of(&s, 0).as_deref(), Some("b"));
    let committed = s.commit_gesture().unwrap();
    assert_eq!(committed.revision, 1);
    assert_eq!(committed.changes.len(), 1);
    assert!(committed.can_undo);
    s.undo().unwrap().unwrap();
    assert_eq!(text_of(&s, 0).as_deref(), Some("hello"));
    assert!(s.undo().unwrap().is_none());
    s.redo().unwrap().unwrap();
    assert_eq!(text_of(&s, 0).as_deref(), Some("b"));
}

#[test]
fn a_cancelled_gesture_restores_the_document_and_the_selection() {
    let mut s = session(vec![page(vec![text(0)], Vec::new())]);
    let id = AuthoringElementId(1);
    assert!(matches!(
        s.preview_gesture(AuthoringCommand::SetParameters { id, values: parameters("a") }),
        Err(AuthoringError::GestureNotActive)
    ));
    s.begin_gesture(id).unwrap();
    s.preview_gesture(AuthoringCommand::SetParameters { id, values: parameters("a") }).unwrap();
    s.cancel_gesture().unwrap();
    assert_eq!(text_of(&s, 0).as_deref(), Some("hello"));
    assert_eq!(s.selected_id(), None);
    assert_eq!(s.revision(), 0);
    assert!(s.undo().unwrap().is_none());
}

fn layer_at(session: &AuthoringSession, key: &str, index: usize) -> Option<u64> {
    match session
        .export_value()
        .get("userCustomProfileCards")?
        .at(0)?
        .get("customProfileCard")?
        .get(key)?
        .at(index)?
        .get("objectData")?
        .get("layer")?
    {
        JsonValue::Number(JsonNumber::PosInt(n)) => Some(*n),
        _ => None,
    }
}

#[test]
fn deleting_renumbers_the_page_layers_and_undo_brings_them_back() {
    let mut s = session(vec![page(vec![text(0), text(1), text(2)], vec![text(3)])]);
    assert_eq!(
        s.element_ids(0).unwrap(),
        vec![AuthoringElementId(1), AuthoringElementId(2), AuthoringElementId(3), AuthoringElementId(4)]
    );
    s.select(Some(AuthoringElementId(3))).unwrap();
    let delta = s.apply(AuthoringCommand::Delete { id: AuthoringElementId(3) }).unwrap();
    assert_eq!(delta.revision, 1);
    assert_eq!(delta.selected_id, None);
    let changes = delta.changes.iter().map(|c| (c.id, c.kind)).collect::<Vec<_>>();
    assert_eq!(
        changes,
        vec![
            (AuthoringElementId(3), AuthoringChangeKind::Removed),
            (AuthoringElementId(1), AuthoringChangeKind::Updated),
            (AuthoringElementId(4), AuthoringChangeKind::Updated),
        ]
    );
    assert_eq!(
        s.element_ids(0).unwrap(),
        vec![AuthoringElementId(1), AuthoringElementId(2), AuthoringElementId(4)]
    );
    assert_eq!(layer_at(&s, "shapes", 0), Some(2));
    assert_eq!(layer_at(&s, "texts", 0), Some(0));
    assert_eq!(layer_at(&s, "texts", 1), Some(1));

    let layer_of_change = |index: usize| match delta.changes[index]
        .element
        .as_ref()
        .and_then(|e| e.get("objectData"))
        .and_then(|o| o.get("layer"))
    {
        Some(JsonValue::Number(JsonNumber::PosInt(n))) => Some(*n),
        _ => None,
    };
    assert_eq!(layer_of_change(1), Some(2));
    assert_eq!(layer_of_change(2), Some(1));
    assert!(delta.changes[0].element.is_none());

    let undone = s.undo().unwrap().unwrap();
    assert_eq!(undone.selected_id, Some(AuthoringElementId(3)));
    let kinds = undone.changes.iter().map(|c| (c.id, c.kind)).collect::<Vec<_>>();
    assert_eq!(
        kinds,
        vec![
            (AuthoringElementId(3), AuthoringChangeKind::Inserted),
            (AuthoringElementId(1), AuthoringChangeKind::Updated),
            (AuthoringElementId(4), AuthoringChangeKind::Updated),
        ]
    );
    assert_eq!(s.element_ids(0).unwrap().len(), 4);
    assert_eq!(layer_at(&s, "shapes", 0), Some(3));
    s.redo().unwrap().unwrap();
    assert_eq!(
        s.element_ids(0).unwrap(),
        vec![AuthoringElementId(1), AuthoringElementId(2), AuthoringElementId(4)]
    );
}

#[test]
fn a_layer_move_shifts_the_layers_between_and_lists_every_page_element() {
    let mut s = session(vec![page(vec![text(0), text(1), text(2)], vec![text(3)])]);
    let delta = s.apply(AuthoringCommand::ChangeLayer { id: AuthoringElementId(2), layer: 2 }).unwrap();
    assert_eq!(delta.revision, 1);
    let changes = delta.changes.iter().map(|c| (c.id, c.kind)).collect::<Vec<_>>();
    assert_eq!(
        changes,
        vec![
            (AuthoringElementId(1), AuthoringChangeKind::Updated),
            (AuthoringElementId(2), AuthoringChangeKind::Updated),
            (AuthoringElementId(3), AuthoringChangeKind::Updated),
            (AuthoringElementId(4), AuthoringChangeKind::Updated),
        ]
    );
    assert_eq!(layer_at(&s, "texts", 0), Some(2));
    assert_eq!(layer_at(&s, "texts", 1), Some(0));
    assert_eq!(layer_at(&s, "texts", 2), Some(1));
    assert_eq!(layer_at(&s, "shapes", 0), Some(3));

    let before = s.export_value().duplicate();
    let refused = s.apply(AuthoringCommand::ChangeLayer { id: AuthoringElementId(4), layer: 4 });
    assert!(matches!(refused, Err(AuthoringError::InvalidLayer { page: 0, layer: 4, count: 4 })));
    assert!(same_json(&s.export_value(), &before));
    assert_eq!(s.revision(), 1);

    let unchanged = s.apply(AuthoringCommand::ChangeLayer { id: AuthoringElementId(1), layer: 3 }).unwrap();
    assert_eq!(unchanged.revision, 1);
    assert!(unchanged.changes.is_empty());

    s.undo().unwrap().unwrap();
    assert_eq!(layer_at(&s, "texts", 0), Some(0));
    assert_eq!(layer_at(&s, "texts", 1), Some(1));
    assert_eq!(layer_at(&s, "texts", 2), Some(2));
    s.redo().unwrap().unwrap();
    assert_eq!(layer_at(&s, "texts", 0), Some(2));
    assert_eq!(layer_at(&s, "texts", 1), Some(0));
}

fn seq_at(session: &AuthoringSession, page: usize) -> Option<u64> {
    match session.export_value().get("userCustomProfileCards")?.at(page)?.get("seq")? {
        JsonValue::Number(JsonNumber::PosInt(n)) => Some(*n),
        _ => None,
    }
}

fn page_count(session: &AuthoringSession) -> usize {
    match session.export_value().get("userCustomProfileCards") {
        Some(JsonValue::Array(pages)) => pages.len(),
        _ => 0,
    }
}

#[test]
fn deleting_a_page_drops_its_ids_and_clears_a_selection_on_it() {
    let mut s = session(vec![page(vec![text(0)], vec![]), page(vec![text(0), text(1)], vec![])]);
    s.select(Some(AuthoringElementId(2))).unwrap();
    let delta = s.delete_page(1).unwrap();
    assert_eq!(delta.revision, 1);
    assert!(delta.changes.is_empty());
    assert_eq!(
        delta.page_changes,
        vec![AuthoringPageChange { kind: AuthoringPageChangeKind::Removed, page: 1, from_page: None }]
    );
    assert_eq!(delta.selected_id, None);
    assert_eq!(page_count(&s), 1);
    assert_eq!(seq_at(&s, 0), Some(1));
    assert!(matches!(s.element_ids(1), Err(AuthoringError::PageNotFound(1))));
    assert!(matches!(s.delete_page(0), Err(AuthoringError::FinalPageCannotBeDeleted)));

    let undone = s.undo().unwrap().unwrap();
    assert_eq!(
        undone.page_changes,
        vec![AuthoringPageChange { kind: AuthoringPageChangeKind::Inserted, page: 1, from_page: None }]
    );
    assert_eq!(undone.selected_id, Some(AuthoringElementId(2)));
    assert_eq!(page_count(&s), 2);
    assert_eq!(s.element_ids(1).unwrap(), vec![AuthoringElementId(2), AuthoringElementId(3)]);
}

#[test]
fn a_page_deletion_keeps_a_selection_elsewhere_and_refuses_missing_pages() {
    let mut s = session(vec![page(vec![text(0)], vec![]), page(vec![text(0)], vec![])]);
    s.select(Some(AuthoringElementId(1))).unwrap();
    assert!(matches!(s.delete_page(2), Err(AuthoringError::PageNotFound(2))));
    assert_eq!(s.revision(), 0);
    let delta = s.delete_page(1).unwrap();
    assert_eq!(delta.selected_id, Some(AuthoringElementId(1)));
    assert_eq!(s.element_ids(0).unwrap(), vec![AuthoringElementId(1)]);
}

#[test]
fn moving_a_page_carries_its_ids_and_numbers_the_pages_again() {
    let mut s = session(vec![
        page(vec![text(0)], vec![]),
        page(vec![text(0), text(1)], vec![]),
        page(vec![], vec![text(0)]),
    ]);
    let delta = s.move_page(0, 2).unwrap();
    assert_eq!(delta.revision, 1);
    assert_eq!(
        delta.page_changes,
        vec![AuthoringPageChange { kind: AuthoringPageChangeKind::Moved, page: 2, from_page: Some(0) }]
    );
    assert_eq!(s.element_ids(0).unwrap(), vec![AuthoringElementId(2), AuthoringElementId(3)]);
    assert_eq!(s.element_ids(1).unwrap(), vec![AuthoringElementId(4)]);
    assert_eq!(s.element_ids(2).unwrap(), vec![AuthoringElementId(1)]);
    assert_eq!(seq_at(&s, 0), Some(1));
    assert_eq!(seq_at(&s, 1), Some(2));
    assert_eq!(seq_at(&s, 2), Some(3));

    let unchanged = s.move_page(1, 1).unwrap();
    assert_eq!(unchanged.revision, 1);
    assert!(unchanged.page_changes.is_empty());
    assert!(matches!(s.move_page(3, 0), Err(AuthoringError::PageNotFound(3))));
    assert!(matches!(s.move_page(0, 3), Err(AuthoringError::PageDestinationNotFound(3))));

    let undone = s.undo().unwrap().unwrap();
    assert_eq!(
        undone.page_changes,
        vec![AuthoringPageChange { kind: AuthoringPageChangeKind::Moved, page: 0, from_page: Some(2) }]
    );
    assert_eq!(s.element_ids(0).unwrap(), vec![AuthoringElementId(1)]);
    let redone = s.redo().unwrap().unwrap();
    assert_eq!(redone.page_changes, delta.page_changes);
    assert_eq!(s.element_ids(2).unwrap(), vec![AuthoringElementId(1)]);
}

fn with_icons(page: JsonValue, icons: Vec<JsonValue>) -> JsonValue {
    let mut icons = Some(icons);
    match page {
        JsonValue::Object(mut members) => {
            for (key, value) in members.iter_mut() {
                if key == "customProfileCard" {
                    if let JsonValue::Object(card) = value {
                        card.push(("characterIcons".to_string(), JsonValue::Array(icons.take().unwrap())));
                    }
                }
            }
            JsonValue::Object(members)
        },
        other => other,
    }
}

#[test]
fn layer_moves_include_icons_without_adding_absent_categories() {
    let mut s = session(vec![with_icons(page(vec![text(0), text(2)], Vec::new()), vec![text(1)])]);
    // Categories are numbered in order: the icon first, then the two texts.
    assert_eq!(
        s.element_ids(0).unwrap(),
        vec![AuthoringElementId(1), AuthoringElementId(2), AuthoringElementId(3)]
    );
    s.apply(AuthoringCommand::ChangeLayer { id: AuthoringElementId(3), layer: 0 }).unwrap();
    assert_eq!(layer_at(&s, "texts", 1), Some(0));
    assert_eq!(layer_at(&s, "texts", 0), Some(1));
    assert_eq!(layer_at(&s, "characterIcons", 0), Some(2));
    let card = s
        .export_value()
        .get("userCustomProfileCards")
        .unwrap()
        .at(0)
        .unwrap()
        .get("customProfileCard")
        .unwrap();
    assert!(card.get("materials").is_none());
    assert!(card.get("userInterfaceIcons").is_none());
}

#[test]
fn delete_reports_every_element_whose_layer_it_renumbers() {
    let start = || session(vec![page(vec![text(0), text(1), text(2)], Vec::new())]);
    let mut s = start();
    let delta = s.apply(AuthoringCommand::Delete { id: AuthoringElementId(1) }).unwrap();
    let changes = delta.changes.iter().map(|c| (c.id, c.kind)).collect::<Vec<_>>();
    assert_eq!(
        changes,
        vec![
            (AuthoringElementId(1), AuthoringChangeKind::Removed),
            (AuthoringElementId(2), AuthoringChangeKind::Updated),
            (AuthoringElementId(3), AuthoringChangeKind::Updated),
        ]
    );
    assert!(delta.changes[0].element.is_none());
    let layer = |index: usize| match delta.changes[index]
        .element
        .as_ref()
        .and_then(|e| e.get("objectData"))
        .and_then(|o| o.get("layer"))
    {
        Some(JsonValue::Number(JsonNumber::PosInt(n))) => Some(*n),
        _ => None,
    };
    assert_eq!(layer(1), Some(0));
    assert_eq!(layer(2), Some(1));
    let undone = s.undo().unwrap().unwrap();
    let reported = undone.changes.iter().map(|c| (c.id, c.kind)).collect::<Vec<_>>();
    assert_eq!(
        reported,
        vec![
            (AuthoringElementId(1), AuthoringChangeKind::Inserted),
            (AuthoringElementId(2), AuthoringChangeKind::Updated),
            (AuthoringElementId(3), AuthoringChangeKind::Updated),
        ]
    );
    let redone = s.redo().unwrap().unwrap();
    assert_eq!(redone.changes.iter().map(|c| (c.id, c.kind)).collect::<Vec<_>>(), changes);

    let mut s = start();
    let last = s.apply(AuthoringCommand::Delete { id: AuthoringElementId(3) }).unwrap();
    assert_eq!(last.changes.len(), 1);
}

#[test]
fn a_layer_past_the_page_is_refused_with_the_page_count() {
    let mut s = session(vec![page(vec![text(0), text(1)], Vec::new())]);
    assert!(matches!(
        s.apply(AuthoringCommand::ChangeLayer { id: AuthoringElementId(1), layer: 2 }),
        Err(AuthoringError::InvalidLayer { page: 0, layer: 2, count: 2 })
    ));
    assert_eq!(s.revision(), 0);
}

#[test]
fn listed_elements_carry_their_ids_places_and_json() {
    let s = session(vec![page(vec![text(0)], vec![text(1)]), page(vec![text(0)], Vec::new())]);
    let listed: Vec<AuthoringSelection> = s.list_elements();
    let places = listed.iter().map(|e| (e.id, e.page, e.category, e.index)).collect::<Vec<_>>();
    assert_eq!(
        places,
        vec![
            (AuthoringElementId(1), 0, AuthoringCategory::Shapes, 0),
            (AuthoringElementId(2), 0, AuthoringCategory::Texts, 0),
            (AuthoringElementId(3), 1, AuthoringCategory::Texts, 0),
        ]
    );
    assert!(same_json(&listed[1].element, &text(0)));
    assert!(same_json(&listed[0].element, &text(1)));
}

fn created_text() -> JsonValue {
    object(vec![
        (
            "objectData",
            object(vec![
                ("layer", num(0)),
                ("lock", JsonValue::Bool(false)),
                ("visible", JsonValue::Bool(true)),
            ]),
        ),
        ("text", JsonValue::String("请多关照!".into())),
        ("fontId", num(1)),
        ("size", num(24)),
    ])
}

fn create_text() -> AuthoringCommand {
    AuthoringCommand::Create { page: 0, category: AuthoringCategory::Texts, element: created_text() }
}

/// A blank session holding `count` created texts, and their IDs.
fn session_with_texts(count: usize) -> (AuthoringSession, Vec<AuthoringElementId>) {
    let mut s = AuthoringSession::new(GameProfileDocument::blank());
    let ids = (0..count).map(|_| s.apply(create_text()).unwrap().changes[0].id).collect();
    (s, ids)
}

fn text_layer(s: &AuthoringSession, index: usize) -> Option<u64> {
    layer_at(s, "texts", index)
}

fn change_layer(change: &sekai_profile_renderer::authoring_session::AuthoringElementChange) -> Option<u64> {
    match change.element.as_ref().and_then(|e| e.get("objectData")).and_then(|o| o.get("layer")) {
        Some(JsonValue::Number(JsonNumber::PosInt(n))) => Some(*n),
        _ => None,
    }
}

#[test]
fn created_elements_take_the_next_id_the_page_layer_and_the_selection() {
    let (mut s, ids) = session_with_texts(3);
    assert_eq!(ids, vec![AuthoringElementId(1), AuthoringElementId(2), AuthoringElementId(3)]);
    assert_eq!(s.selected_id(), Some(AuthoringElementId(3)));
    assert_eq!(s.revision(), 3);
    assert_eq!(text_layer(&s, 0), Some(0));
    assert_eq!(text_layer(&s, 2), Some(2));
    let undone = s.undo().unwrap().unwrap();
    assert_eq!(undone.changes.len(), 1);
    assert_eq!(undone.changes[0].kind, AuthoringChangeKind::Removed);
    assert!(undone.changes[0].element.is_none());
    assert_eq!(s.element_ids(0).unwrap(), vec![AuthoringElementId(1), AuthoringElementId(2)]);
    let redone = s.redo().unwrap().unwrap();
    assert_eq!(redone.changes[0].kind, AuthoringChangeKind::Inserted);
    assert_eq!(change_layer(&redone.changes[0]), Some(2));
}

#[test]
fn creation_is_refused_for_missing_pages_and_malformed_elements() {
    let (mut s, _) = session_with_texts(1);
    assert!(matches!(
        s.apply(AuthoringCommand::Create { page: 1, category: AuthoringCategory::Texts, element: created_text() }),
        Err(AuthoringError::PageNotFound(1))
    ));
    assert!(matches!(
        s.apply(AuthoringCommand::Create { page: 0, category: AuthoringCategory::Texts, element: num(3) }),
        Err(AuthoringError::ElementMustBeObject)
    ));
    assert!(matches!(
        s.apply(AuthoringCommand::Create {
            page: 0,
            category: AuthoringCategory::Texts,
            element: object(vec![("objectData", num(1))]),
        }),
        Err(AuthoringError::InvalidObjectData)
    ));
    assert_eq!(s.revision(), 1);
    assert_eq!(s.element_ids(0).unwrap(), vec![AuthoringElementId(1)]);
}

#[test]
fn a_page_at_the_element_limit_takes_no_more() {
    let (mut s, _) = session_with_texts(150);
    assert!(matches!(s.apply(create_text()), Err(AuthoringError::ElementLimitReached { page: 0, max: 150 })));
    assert_eq!(s.element_ids(0).unwrap().len(), 150);
}

#[test]
fn history_is_bounded_to_150_commands() {
    let mut s = AuthoringSession::new(GameProfileDocument::blank());
    let id = s.apply(create_text()).unwrap().changes[0].id;
    for index in 0..200 {
        s.apply(AuthoringCommand::SetVisible { id, visible: index % 2 == 0 }).unwrap();
    }
    let mut count = 0;
    while s.undo().unwrap().is_some() {
        count += 1;
    }
    assert_eq!(count, AUTHORING_HISTORY_LIMIT);
}

#[test]
fn commands_that_change_nothing_leave_history_and_revision_alone() {
    let (mut s, ids) = session_with_texts(2);
    s.undo().unwrap().unwrap();
    let revision = s.revision();
    let id = ids[0];
    let no_ops = vec![
        AuthoringCommand::SetVisible { id, visible: true },
        AuthoringCommand::SetLock { id, lock: false },
        AuthoringCommand::SetParameters { id, values: vec![("size".to_string(), num(24))] },
        AuthoringCommand::SetParameters { id, values: Vec::new() },
        AuthoringCommand::ChangeLayer { id, layer: 0 },
    ];
    for command in no_ops {
        let delta = s.apply(command).unwrap();
        assert_eq!(delta.revision, revision);
        assert!(delta.changes.is_empty());
        assert!(delta.can_redo);
    }
    assert_eq!(s.revision(), revision);
    s.undo().unwrap().unwrap();
    assert!(s.element_ids(0).unwrap().is_empty());
    assert!(s.undo().unwrap().is_none());
}

#[test]
fn icon_categories_share_the_page_layers_and_stay_absent_until_used() {
    let mut s = session(vec![with_icons(page(vec![text(0), text(2)], Vec::new()), vec![text(1)])]);
    let listed = s.list_elements();
    assert_eq!(listed.len(), 3);
    let icon = listed.iter().find(|e| e.category == AuthoringCategory::CharacterIcons).unwrap().id;
    let ui_icon = object(vec![
        (
            "objectData",
            object(vec![("layer", num(0)), ("lock", JsonValue::Bool(false)), ("visible", JsonValue::Bool(true))]),
        ),
        ("id", num(1)),
        ("colorId", num(1)),
    ]);
    let created = s
        .apply(AuthoringCommand::Create { page: 0, category: AuthoringCategory::UserInterfaceIcons, element: ui_icon })
        .unwrap();
    assert_eq!(change_layer(&created.changes[0]), Some(3));
    s.apply(AuthoringCommand::Delete { id: icon }).unwrap();
    let card = s
        .export_value()
        .get("userCustomProfileCards")
        .unwrap()
        .at(0)
        .unwrap()
        .get("customProfileCard")
        .unwrap();
    assert!(matches!(card.get("characterIcons"), Some(JsonValue::Array(items)) if items.is_empty()));
    assert_eq!(layer_at(&s, "texts", 0), Some(0));
    assert_eq!(layer_at(&s, "texts", 1), Some(1));
    assert_eq!(layer_at(&s, "userInterfaceIcons", 0), Some(2));
    assert!(card.get("materials").is_none());
}

#[test]
fn checkpoint_restores_stable_ids_selection_and_both_history_directions() {
    let mut s = AuthoringSession::new(GameProfileDocument::blank());
    let id = s.apply(create_text()).unwrap().changes[0].id;
    s.apply(AuthoringCommand::SetVisible { id, visible: false }).unwrap();
    s.undo().unwrap().unwrap();

    let checkpoint: AuthoringCheckpoint = s.checkpoint().unwrap();
    assert_eq!(checkpoint.schema, AUTHORING_CHECKPOINT_SCHEMA);
    assert_eq!(checkpoint.undo.len(), 1);
    assert_eq!(checkpoint.redo.len(), 1);

    let mut restored = AuthoringSession::from_checkpoint(checkpoint).unwrap();
    assert_eq!(restored.revision(), s.revision());
    assert_eq!(restored.selected_id(), Some(id));
    assert_eq!(restored.element_ids(0).unwrap(), vec![id]);
    assert_eq!(flag(&restored, 0, "texts", 0, "visible"), Some(true));

    let redone = restored.redo().unwrap().unwrap();
    assert_eq!(redone.selected_id, Some(id));
    assert_eq!(flag(&restored, 0, "texts", 0, "visible"), Some(false));
    restored.undo().unwrap().unwrap();
    assert_eq!(flag(&restored, 0, "texts", 0, "visible"), Some(true));
    restored.undo().unwrap().unwrap();
    assert!(restored.element_ids(0).unwrap().is_empty());
    assert_eq!(restored.redo().unwrap().unwrap().changes[0].id, id);
}

#[test]
fn checkpoint_is_bounded_and_rejects_corrupt_identity_state() {
    let mut s = AuthoringSession::new(GameProfileDocument::blank());
    let first = s.apply(create_text()).unwrap().changes[0].id;
    s.apply(create_text()).unwrap();
    for index in 0..200 {
        s.apply(AuthoringCommand::SetVisible { id: first, visible: index % 2 == 0 }).unwrap();
    }
    let checkpoint = s.checkpoint().unwrap();
    assert_eq!(checkpoint.undo.len(), AUTHORING_HISTORY_LIMIT);

    let mut wrong_schema = s.checkpoint().unwrap();
    wrong_schema.schema = "allium.renderer-authoring-checkpoint/v2".to_string();
    assert!(matches!(AuthoringSession::from_checkpoint(wrong_schema), Err(AuthoringError::InvalidCheckpoint(_))));

    let mut duplicate_id = s.checkpoint().unwrap();
    let texts = AuthoringCategory::Texts.index();
    duplicate_id.ids[0][texts][1] = duplicate_id.ids[0][texts][0];
    assert!(matches!(AuthoringSession::from_checkpoint(duplicate_id), Err(AuthoringError::InvalidCheckpoint(_))));

    let mut invalid_next = checkpoint;
    invalid_next.next_id = first.0;
    assert!(matches!(AuthoringSession::from_checkpoint(invalid_next), Err(AuthoringError::InvalidCheckpoint(_))));
}

#[test]
fn checkpoint_rejects_an_active_gesture() {
    let mut s = AuthoringSession::new(GameProfileDocument::blank());
    let id = s.apply(create_text()).unwrap().changes[0].id;
    s.begin_gesture(id).unwrap();
    assert!(matches!(s.checkpoint(), Err(AuthoringError::CheckpointGestureInProgress)));
}

#[test]
fn checkpoint_rejects_a_revision_that_cannot_round_trip_through_javascript() {
    let (s, _) = session_with_texts(1);
    for revision in [u64::MAX, 1u64 << 53] {
        let mut corrupt = s.checkpoint().unwrap();
        corrupt.revision = revision;
        assert!(matches!(AuthoringSession::from_checkpoint(corrupt), Err(AuthoringError::InvalidCheckpoint(_))));
    }
    let mut largest = s.checkpoint().unwrap();
    largest.revision = (1u64 << 53) - 1;
    assert!(AuthoringSession::from_checkpoint(largest).is_ok());
}

#[test]
fn exhausted_element_ids_fail_closed() {
    let (s, ids) = session_with_texts(1);
    let mut checkpoint = s.checkpoint().unwrap();
    checkpoint.next_id = u32::MAX - 1;
    let mut restored = AuthoringSession::from_checkpoint(checkpoint).unwrap();
    let last = restored.apply(create_text()).unwrap().changes[0].id;
    assert_eq!(last, AuthoringElementId(u32::MAX - 1));
    let revision = restored.revision();
    assert!(matches!(restored.apply(create_text()), Err(AuthoringError::ElementIdsExhausted)));
    assert!(matches!(restored.duplicate_page(0), Err(AuthoringError::ElementIdsExhausted)));
    assert_eq!(restored.revision(), revision);
    assert_eq!(restored.element_ids(0).unwrap(), vec![ids[0], last]);
    restored.append_blank_page().unwrap();
}

#[test]
fn a_checkpoint_whose_document_is_refused_reports_the_document() {
    let (s, _) = session_with_texts(1);
    let mut corrupt = s.checkpoint().unwrap();
    corrupt.document = num(1);
    assert!(matches!(AuthoringSession::from_checkpoint(corrupt), Err(AuthoringError::Document(_))));
    let mut lost = s.checkpoint().unwrap();
    lost.selected_id = Some(AuthoringElementId(7));
    assert!(matches!(AuthoringSession::from_checkpoint(lost), Err(AuthoringError::InvalidCheckpoint(_))));
}

#[test]
fn appending_a_blank_page_records_one_page_insertion() {
    let (mut s, _) = session_with_texts(1);
    let revision = s.revision();
    let delta = s.append_blank_page().unwrap();
    assert_eq!(delta.revision, revision + 1);
    assert_eq!(
        delta.page_changes,
        vec![AuthoringPageChange { kind: AuthoringPageChangeKind::Inserted, page: 1, from_page: None }]
    );
    assert!(s.element_ids(1).unwrap().is_empty());
    assert_eq!(seq_at(&s, 1), Some(2));
    s.undo().unwrap().unwrap();
    assert_eq!(page_count(&s), 1);
}

#[test]
fn duplicating_a_page_gives_fresh_ids_and_clears_the_selection() {
    let (mut s, ids) = session_with_texts(2);
    let delta = s.duplicate_page(0).unwrap();
    assert_eq!(
        delta.page_changes,
        vec![AuthoringPageChange { kind: AuthoringPageChangeKind::Inserted, page: 1, from_page: Some(0) }]
    );
    assert_eq!(s.selected_id(), None);
    assert_eq!(s.element_ids(0).unwrap(), ids);
    assert_eq!(s.element_ids(1).unwrap(), vec![AuthoringElementId(3), AuthoringElementId(4)]);
    assert_eq!(seq_at(&s, 1), Some(2));
    assert!(matches!(s.duplicate_page(5), Err(AuthoringError::PageNotFound(5))));
}

fn card_id_at(s: &AuthoringSession, page: usize) -> Option<u64> {
    match s.export_value().get("userCustomProfileCards")?.at(page)?.get("customProfileCardId")? {
        JsonValue::Number(JsonNumber::PosInt(n)) => Some(*n),
        _ => None,
    }
}

#[test]
fn page_operations_preserve_game_sequence_and_round_trip_through_history() {
    let mut s = AuthoringSession::new(GameProfileDocument::blank());
    s.apply(create_text()).unwrap();
    let duplicated = s.duplicate_page(0).unwrap();
    assert_eq!(duplicated.page_changes[0].kind, AuthoringPageChangeKind::Inserted);
    assert_eq!(page_count(&s), 2);
    assert_eq!(seq_at(&s, 0), Some(1));
    assert_eq!(seq_at(&s, 1), Some(2));
    assert_eq!(card_id_at(&s, 1), Some(0));
    assert_ne!(s.element_ids(0).unwrap(), s.element_ids(1).unwrap());

    s.move_page(1, 0).unwrap();
    s.delete_page(1).unwrap();
    assert_eq!(page_count(&s), 1);
    s.undo().unwrap().unwrap();
    assert_eq!(page_count(&s), 2);
}

#[test]
fn checkpoints_keep_the_page_order_their_ids_were_captured_with() {
    let mut first = page(vec![created_text()], Vec::new());
    if let JsonValue::Object(members) = &mut first {
        for (k, v) in members.iter_mut() {
            if k == "seq" {
                *v = num(2);
            }
        }
    }
    let second = page(Vec::new(), Vec::new());
    let s = session(vec![first, second]);
    let text_id = s.element_ids(0).unwrap()[0];
    let restored = AuthoringSession::from_checkpoint(s.checkpoint().unwrap()).unwrap();
    assert_eq!(restored.element_ids(0).unwrap(), vec![text_id]);
    assert!(restored.element_ids(1).unwrap().is_empty());
    assert!(same_json(restored.export_value(), s.export_value()));
}

#[test]
fn a_custom_profile_holds_at_most_ten_pages() {
    let mut s = AuthoringSession::new(GameProfileDocument::blank());
    for _ in 1..10 {
        s.append_blank_page().unwrap();
    }
    assert_eq!(page_count(&s), 10);
    let revision = s.revision();
    assert!(matches!(s.append_blank_page(), Err(AuthoringError::PageLimitReached { max: 10 })));
    assert!(matches!(s.duplicate_page(0), Err(AuthoringError::PageLimitReached { max: 10 })));
    assert_eq!(s.revision(), revision);
    assert_eq!(page_count(&s), 10);
    s.delete_page(9).unwrap();
    s.duplicate_page(0).unwrap();
}

#[test]
fn undo_and_redo_are_rejected_while_a_gesture_is_active() {
    let mut s = AuthoringSession::new(GameProfileDocument::blank());
    let id = s.apply(create_text()).unwrap().changes[0].id;
    s.begin_gesture(id).unwrap();
    assert!(matches!(s.undo(), Err(AuthoringError::GestureInProgress)));
    assert!(matches!(s.redo(), Err(AuthoringError::GestureInProgress)));
    s.cancel_gesture().unwrap();
    assert!(s.undo().unwrap().is_some());
}
