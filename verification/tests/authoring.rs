use sekai_profile_renderer::authoring_document::GameProfileDocumentError;
use sekai_profile_renderer::authoring_session::{
    allocate_ids, reverse_change_kind, AuthoringCategory, AuthoringChangeKind,
    AuthoringElementId, AuthoringError,
};

#[test]
fn categories_name_their_page_arrays() {
    let all = AuthoringCategory::all();
    assert_eq!(all.len(), 15);
    assert_eq!(all[0].key(), "bondsHonors");
    assert_eq!(AuthoringCategory::UserInterfaceIcons.key(), "userInterfaceIcons");
    assert_eq!(AuthoringCategory::StoryBackgrounds.key(), "storyBackgrounds");
    let mut sorted = all;
    sorted.sort();
    assert_eq!(sorted, all);
}

#[test]
fn undoing_swaps_insertions_and_removals() {
    for kind in [
        AuthoringChangeKind::Inserted,
        AuthoringChangeKind::Updated,
        AuthoringChangeKind::Removed,
    ] {
        assert_eq!(reverse_change_kind(reverse_change_kind(kind)), kind);
    }
    assert_eq!(
        reverse_change_kind(AuthoringChangeKind::Inserted),
        AuthoringChangeKind::Removed
    );
}

#[test]
fn id_allocation_fails_closed_before_wrapping() {
    assert_eq!(
        allocate_ids(5, 3),
        Some((
            vec![
                AuthoringElementId(5),
                AuthoringElementId(6),
                AuthoringElementId(7)
            ],
            8
        ))
    );
    assert_eq!(allocate_ids(u32::MAX - 1, 1), Some((vec![AuthoringElementId(u32::MAX - 1)], u32::MAX)));
    assert_eq!(allocate_ids(u32::MAX - 1, 2), None);
    assert_eq!(allocate_ids(u32::MAX, 0), Some((vec![], u32::MAX)));
}

#[test]
fn errors_read_as_their_messages() {
    assert_eq!(
        GameProfileDocumentError::ElementLimitExceeded { page: 2, count: 151, max: 150 }.message(),
        "userCustomProfileCards[2] contains 151 elements; maximum is 150"
    );
    assert_eq!(
        GameProfileDocumentError::MissingCardCategory { page: 0, category: "texts" }.message(),
        "userCustomProfileCards[0].customProfileCard.texts is missing"
    );
    assert_eq!(
        AuthoringError::ElementNotFound(AuthoringElementId(9)).message(),
        "element AuthoringElementId(9) does not exist"
    );
    assert_eq!(
        AuthoringError::InvalidLayer { page: 1, layer: 7, count: 3 }.message(),
        "layer 7 is outside page 1 element range 0..3"
    );
    assert_eq!(
        AuthoringError::from(GameProfileDocumentError::ProfileMustBeObject).message(),
        "profile must be a JSON object"
    );
}
