use std::collections::BTreeMap;

use sekai_profile_renderer::json::{JsonNumber, JsonValue};
use sekai_profile_renderer::profile_data::{
    bonds_honor_view_flags, placed_bonds_honor_level, placed_honor_level, story_favorite_slots,
    HonorSlot, OwnedHonorLevels, ProfileData,
};

fn num(n: i64) -> JsonValue {
    if n >= 0 {
        JsonValue::Number(JsonNumber::PosInt(n as u64))
    } else {
        JsonValue::Number(JsonNumber::NegInt(n))
    }
}

fn text(s: &str) -> JsonValue {
    JsonValue::String(s.to_string())
}

fn object(members: Vec<(&str, JsonValue)>) -> JsonValue {
    JsonValue::Object(members.into_iter().map(|(k, v)| (k.to_string(), v)).collect())
}

#[test]
fn story_favorite_slots_follow_share_numbers() {
    let stories = [(30, 3), (31, 1), (32, 3), (33, 0)];
    let slots = story_favorite_slots(&stories, |story| story.1);
    assert_eq!(
        slots
            .iter()
            .map(|slot| slot.map(|story| story.0))
            .collect::<Vec<_>>(),
        vec![Some(31), None, Some(32)]
    );
}

#[test]
fn bonds_honor_view_type_preserves_composed_flags() {
    let slot = HonorSlot {
        bonds_honor_view_type: Some("reverse_unit_virtual_singer".into()),
        ..HonorSlot::default()
    };
    assert_eq!(slot.bonds_honor_view_flags(), (true, true));

    let normal = HonorSlot::default();
    assert_eq!(normal.bonds_honor_view_flags(), (false, false));
}

#[test]
fn view_flags_are_found_anywhere_in_the_value() {
    assert_eq!(bonds_honor_view_flags(Some("reverse")), (true, false));
    assert_eq!(bonds_honor_view_flags(Some("unit_virtual_singer")), (false, true));
    assert_eq!(bonds_honor_view_flags(Some("normal")), (false, false));
    assert_eq!(bonds_honor_view_flags(Some("x_reverse_y")), (true, false));
    assert_eq!(bonds_honor_view_flags(None), (false, false));
}

#[test]
fn no_story_takes_a_slot_below_one() {
    let stories = [(1, 0), (2, -4)];
    assert!(story_favorite_slots(&stories, |story| story.1).is_empty());
    let empty: [(i32, i32); 0] = [];
    assert!(story_favorite_slots(&empty, |story| story.1).is_empty());
}

#[test]
fn owned_honor_lists_decide_placed_honor_levels() {
    let profile = ProfileData::from_json(&object(vec![
        (
            "userHonors",
            JsonValue::Array(vec![
                JsonValue::Array(vec![num(5), num(12), num(1_700_000_000_000)]),
                object(vec![("honorId", num(6)), ("level", num(2))]),
                JsonValue::Array(vec![text("bad")]),
            ]),
        ),
        (
            "userBondsHonors",
            JsonValue::Array(vec![object(vec![("bondsHonorId", num(7)), ("level", num(3))])]),
        ),
    ]));
    let owned = Some(&profile.owned_honors);
    assert_eq!(placed_honor_level(owned, 5, 1), Some(12));
    assert_eq!(placed_honor_level(owned, 6, 1), Some(2));
    assert_eq!(placed_honor_level(owned, 8, 1), None);
    assert_eq!(placed_bonds_honor_level(owned, 7, 1), Some(3));
    assert_eq!(placed_bonds_honor_level(owned, 5, 1), None);

    let unknown = ProfileData::from_json(&object(Vec::new()));
    assert_eq!(unknown.owned_honors, OwnedHonorLevels::default());
    assert_eq!(placed_honor_level(Some(&unknown.owned_honors), 8, 4), Some(4));
    assert_eq!(placed_bonds_honor_level(None, 8, 2), Some(2));
}

#[test]
fn placed_levels_read_a_known_map() {
    let owned = OwnedHonorLevels {
        honors: Some(BTreeMap::from([(5, 12), (6, 2)])),
        bonds_honors: Some(BTreeMap::from([(7, 3)])),
    };
    assert_eq!(placed_honor_level(Some(&owned), 6, 9), Some(2));
    assert_eq!(placed_bonds_honor_level(Some(&owned), 6, 9), None);
}

#[test]
fn extracts_profile_components_without_retaining_raw_json() {
    let raw = object(vec![
        (
            "user",
            object(vec![("name", text("Sample")), ("rank", num(42)), ("privateToken", text("must-not-survive"))]),
        ),
        ("userProfile", object(vec![("word", text("Hello"))])),
        (
            "userCards",
            JsonValue::Array(vec![object(vec![
                ("cardId", num(7)),
                ("defaultImage", text("special_training")),
                ("masterRank", num(3)),
                ("level", num(60)),
            ])]),
        ),
        ("userDeck", object(vec![("leader", num(7)), ("member1", num(7))])),
        (
            "userCharacters",
            JsonValue::Array(vec![object(vec![("characterId", num(2)), ("characterRank", num(31))])]),
        ),
        (
            "userChallengeLiveSoloStages",
            JsonValue::Array(vec![
                object(vec![("characterId", num(2)), ("rank", num(1))]),
                object(vec![("characterId", num(2)), ("rank", num(9))]),
                object(vec![("characterId", num(2)), ("rank", num(4))]),
            ]),
        ),
    ]);
    let profile = ProfileData::from_json(&raw);
    assert_eq!(profile.user_name, "Sample");
    assert_eq!(profile.user_rank, 42);
    assert_eq!(profile.word, "Hello");
    assert_eq!(profile.leader_card.as_ref().map(|card| card.after_training), Some(true));
    assert_eq!(profile.deck_members.len(), 1);
    assert_eq!(profile.deck_members[0].master_rank, 3);
    assert_eq!(profile.character_ranks[0].rank, 31);
    assert_eq!(profile.challenge_ranks[0].rank, 9);
    assert!(!format!("{profile:?}").contains("privateToken"));
    assert!(!format!("{profile:?}").contains("must-not-survive"));
}

#[test]
fn rarity_training_follows_special_training_status_not_the_illustration() {
    let card = |id: i64, image: &str, status: &str| {
        object(vec![
            ("cardId", num(id)),
            ("defaultImage", text(image)),
            ("specialTrainingStatus", text(status)),
        ])
    };
    let profile = ProfileData::from_json(&object(vec![(
        "userCards",
        JsonValue::Array(vec![
            card(1, "original", "done"),
            card(2, "special_training", "done"),
            card(3, "original", "not_doing"),
        ]),
    )]));
    let state = |id: i32| {
        let card = &profile.user_cards[&id];
        (card.after_training, card.special_training_done)
    };
    assert_eq!(state(1), (false, true));
    assert_eq!(state(2), (true, true));
    assert_eq!(state(3), (false, false));
    assert_eq!(profile.user_cards[&1].level, 60);
}

#[test]
fn story_favorites_keep_share_slots_and_only_panel_story_types() {
    let story = |id: i64, kind: &str, share_no: i64| {
        object(vec![("storyId", num(id)), ("storyType", text(kind)), ("shareNo", num(share_no))])
    };
    let profile = ProfileData::from_json(&object(vec![(
        "userStoryFavorites",
        JsonValue::Array(vec![
            story(30, "event_story", 3),
            story(31, "unit_story", 1),
            story(32, "event_story", 0),
            story(33, "card_story", 2),
        ]),
    )]));
    assert_eq!(
        profile
            .story_favorites
            .iter()
            .map(|story| (story.story_id, story.share_no))
            .collect::<Vec<_>>(),
        vec![(30, 3), (31, 1)]
    );
}

#[test]
fn honor_slots_music_results_and_missions_are_read() {
    let profile = ProfileData::from_json(&object(vec![
        (
            "userProfileHonors",
            JsonValue::Array(vec![
                object(vec![("honorId", num(11)), ("honorLevel", num(0)), ("seq", num(2))]),
                object(vec![
                    ("honorId", num(12)),
                    ("honorLevel", num(4)),
                    ("seq", num(1)),
                    ("profileHonorType", text("bonds")),
                    ("bondsHonorWordId", num(99)),
                    ("bondsHonorViewType", text("reverse")),
                ]),
            ]),
        ),
        (
            "userMusicDifficultyClearCount",
            JsonValue::Array(vec![
                object(vec![("musicDifficultyType", text("expert")), ("liveClear", num(5)), ("fullCombo", num(2))]),
                object(vec![("musicDifficultyType", text("expert")), ("liveClear", num(99))]),
            ]),
        ),
        (
            "userHonorMissions",
            JsonValue::Array(vec![object(vec![("honorMissionType", text("live_master")), ("progress", num(7))])]),
        ),
        ("totalPower", object(vec![("totalPower", num(-3))])),
    ]));
    assert_eq!(profile.honor_slots.len(), 2);
    assert_eq!(profile.honor_slots[0].honor_level, 1);
    assert!(profile.honor_slots[0].full_size);
    assert_eq!(profile.honor_slots[0].profile_honor_type, "normal");
    assert_eq!(profile.honor_slots[1].profile_honor_type, "bonds");
    assert_eq!(profile.honor_slots[1].bonds_honor_word_id, Some(99));
    assert_eq!(profile.honor_slots[1].bonds_honor_view_type.as_deref(), Some("reverse"));
    let music = profile.music_results.unwrap();
    assert_eq!((music.expert.clear, music.expert.full_combo, music.expert.all_perfect), (5, 2, 0));
    assert_eq!(music.easy.clear, 0);
    assert_eq!(profile.honor_mission_progress.get("live_master"), Some(&7));
    assert_eq!(profile.total_power, -3);
    assert!(profile.leader_card.is_none());
}
