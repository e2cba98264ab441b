use sekai_profile_renderer::badge_material::normal_map_resource;
use sekai_profile_renderer::profile_resolve::{
    card_artwork_key, music_results, AuthoredProfileResolveError, ResourceAvailability,
};
use sekai_profile_renderer::profile_data::{MusicDifficultyStats, MusicResults};
use sekai_profile_renderer::profile_scene::{
    authored_kind_name, element_source_key, ordered_profile_elements, resource_lookup_key, AuthoredElementKind,
    ProfileElementRef, ProfileResolveError,
};
use sekai_profile_renderer::profile_source::{CustomProfileCard, ObjectData};

fn object(layer: i32) -> ObjectData {
    ObjectData { layer, visible: true }
}

fn card_with(texts: Vec<i32>, shapes: Vec<i32>, honors: Vec<i32>) -> CustomProfileCard {
    CustomProfileCard {
        texts: texts.into_iter().map(object).collect(),
        shapes: shapes.into_iter().map(object).collect(),
        card_members: Vec::new(),
        stamps: Vec::new(),
        others: Vec::new(),
        bonds_honors: Vec::new(),
        honors: honors.into_iter().map(object).collect(),
        collections: Vec::new(),
        generals: Vec::new(),
        general_backgrounds: Vec::new(),
        stand_members: Vec::new(),
        story_backgrounds: Vec::new(),
    }
}

#[test]
fn kinds_have_their_layer_names() {
    assert_eq!(authored_kind_name(AuthoredElementKind::CardMember), "card-member");
    assert_eq!(
        authored_kind_name(AuthoredElementKind::GeneralBackground),
        "general-background"
    );
    assert_eq!(authored_kind_name(AuthoredElementKind::Text), "text");
}

#[test]
fn card_artwork_follows_the_member_type() {
    assert_eq!(
        card_artwork_key("res001_no001", 1, true),
        "character/member_cutout/res001_no001/after_training"
    );
    assert_eq!(
        card_artwork_key("res001_no001", 2, false),
        "character/member_small/res001_no001/card_normal"
    );
}

#[test]
fn badges_light_with_the_static_normal_map() {
    let key = normal_map_resource();
    assert_eq!(key.namespace, "static");
    assert_eq!(key.key, "ui/sekai_badge_normal");
}

#[test]
fn resolve_errors_read_as_their_messages() {
    assert_eq!(
        ProfileResolveError::MissingRegionFont(-2).message(),
        "missing region fontId=-2"
    );
    assert_eq!(
        AuthoredProfileResolveError::Scene(ProfileResolveError::MissingResource("x".into())).message(),
        "missing resolved resource descriptor x"
    );
    assert_eq!(
        AuthoredProfileResolveError::MissingFont(3).message(),
        "master data did not resolve font id 3"
    );
    assert_eq!(ResourceAvailability::default(), ResourceAvailability::Unknown);
}

#[test]
fn elements_are_drawn_by_layer_then_kind_then_index() {
    let card = card_with(vec![3, 1, 1], vec![1, 0], vec![1]);
    let ordered = ordered_profile_elements(&card, "doc");
    let keys = ordered
        .iter()
        .map(|element| (element.object().layer, element.kind, element.source_index))
        .collect::<Vec<_>>();
    assert_eq!(
        keys,
        vec![
            (0, AuthoredElementKind::Shape, 1),
            (1, AuthoredElementKind::Text, 1),
            (1, AuthoredElementKind::Text, 2),
            (1, AuthoredElementKind::Shape, 0),
            (1, AuthoredElementKind::Honor, 0),
            (3, AuthoredElementKind::Text, 0),
        ]
    );
    assert_eq!(ordered[0].source_key, "doc\0shape-source-1");
    assert_eq!(ordered[5].source_key, "doc\0text-source-0");
    assert!(matches!(ordered[4].value, ProfileElementRef::Honor(_)));
    assert_eq!(ordered[4].value.object().layer, 1);
}

#[test]
fn an_empty_card_has_no_elements() {
    let card = card_with(Vec::new(), Vec::new(), Vec::new());
    assert!(ordered_profile_elements(&card, "doc").is_empty());
}

#[test]
fn element_keys_name_the_document_kind_and_index() {
    assert_eq!(
        element_source_key("page-2", AuthoredElementKind::StandMember, 12),
        "page-2\0stand-member-source-12"
    );
}

#[test]
fn resource_keys_join_kind_id_and_variant() {
    assert_eq!(resource_lookup_key("honor", 42, "frame"), "honor\u{0}42\u{0}frame");
    assert_eq!(resource_lookup_key("card", -7, ""), "card\u{0}-7\u{0}");
}

#[test]
fn music_results_keep_each_difficulty_in_its_place() {
    let stats = |clear: i32, full_combo: i32, all_perfect: i32| MusicDifficultyStats { clear, full_combo, all_perfect };
    let results = MusicResults {
        easy: stats(10, 9, 8),
        normal: stats(20, 19, 18),
        hard: stats(30, 29, 28),
        expert: stats(40, 39, 38),
        master: stats(50, 49, 48),
        append: stats(60, 59, 58),
    };
    let snapshot = music_results(&results);
    assert_eq!(snapshot.easy.clear, 10);
    assert_eq!(snapshot.normal.full_combo, 19);
    assert_eq!(snapshot.hard.all_perfect, 28);
    assert_eq!(snapshot.expert.clear, 40);
    assert_eq!(snapshot.master.full_combo, 49);
    assert_eq!(snapshot.append.all_perfect, 58);
}
