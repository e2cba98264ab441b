use sekai_profile_renderer::json::{JsonNumber, JsonValue};
use sekai_profile_renderer::masterdata::JsonMasterData;
use sekai_profile_renderer::profile_component::build_component;
use sekai_profile_renderer::profile_data::{CardState, CharacterRank, HonorSlot, ProfileData};
use sekai_profile_renderer::profile_resolve::AuthoredProfileResolveError;
use sekai_profile_renderer::ResourceKey;

fn num(n: i64) -> JsonValue {
    JsonValue::Number(JsonNumber::PosInt(n as u64))
}

fn text(s: &str) -> JsonValue {
    JsonValue::String(s.to_string())
}

fn object(members: Vec<(&str, JsonValue)>) -> JsonValue {
    JsonValue::Object(members.into_iter().map(|(k, v)| (k.to_string(), v)).collect())
}

fn card_row(id: i64, bundle: &str) -> JsonValue {
    object(vec![
        ("id", num(id)),
        ("assetbundleName", text(bundle)),
        ("cardRarityType", text("rarity_4")),
        ("attr", text("cool")),
        ("characterId", num(1)),
    ])
}

fn masterdata(with_font: bool) -> JsonMasterData {
    let mut md = JsonMasterData::new("jp");
    md.insert_value("cards", JsonValue::Array(vec![card_row(7, "res001_no007")])).unwrap();
    let honor_row = |id: i64| {
        object(vec![
            ("id", num(id)),
            ("assetbundleName", text("honor_sample")),
            ("honorRarity", text("high")),
            ("groupId", num(4)),
            ("levels", JsonValue::Array(Vec::new())),
            ("honorMissionType", JsonValue::Null),
        ])
    };
    md.insert_value("honors", JsonValue::Array(vec![honor_row(1), honor_row(2)])).unwrap();
    md.insert_value(
        "honorGroups",
        JsonValue::Array(vec![object(vec![("id", num(4)), ("honorType", text("character"))])]),
    )
    .unwrap();
    if with_font {
        md.insert_value(
            "customProfileTextFonts",
            JsonValue::Array(vec![object(vec![("id", num(1)), ("fontName", text("FOT-RodinNTLGPro-DB"))])]),
        )
        .unwrap();
    }
    md
}

fn card(card_id: i32, after_training: bool, done: bool) -> CardState {
    CardState { card_id, after_training, special_training_done: done, master_rank: 3, level: 50 }
}

fn slot(honor_id: i32, full_size: bool) -> HonorSlot {
    HonorSlot {
        honor_id,
        honor_level: 1,
        full_size,
        profile_honor_type: "normal".into(),
        bonds_honor_word_id: None,
        bonds_honor_view_type: None,
    }
}

fn profile() -> ProfileData {
    ProfileData {
        challenge_character_id: 5,
        leader_card: Some(card(7, true, false)),
        deck_members: vec![card(7, false, true), card(99, false, false)],
        character_ranks: vec![CharacterRank { character_id: 5, rank: 40 }, CharacterRank { character_id: 6, rank: 2 }],
        challenge_ranks: vec![CharacterRank { character_id: 5, rank: 9 }],
        honor_slots: vec![slot(1, false), slot(2, true), slot(3, false)],
        ..ProfileData::default()
    }
}

#[test]
fn a_missing_region_font_fails_only_when_a_panel_draws_text() {
    let md = masterdata(false);
    assert_eq!(
        build_component(&profile(), &md, "ja", |_: &ResourceKey| false, None, true).err(),
        Some(AuthoredProfileResolveError::MissingFont(1))
    );
    let plan = build_component(&profile(), &md, "ja", |_: &ResourceKey| false, None, false).unwrap();
    assert!(plan.region_fonts.is_empty());
    let with_font = masterdata(true);
    let plan = build_component(&profile(), &with_font, "ja", |_: &ResourceKey| false, None, true).unwrap();
    assert_eq!(plan.region_fonts, vec![(1, "FOT-RodinNTLGPro-DB".to_string())]);
}

#[test]
fn component_cards_ranks_and_honors_follow_the_game() {
    let md = masterdata(false);
    let plan = build_component(&profile(), &md, "ja", |_: &ResourceKey| false, None, false).unwrap();
    // Only deck members master data lists are drawn, cut out, with trained stars once training is done.
    assert_eq!(plan.deck_members.len(), 1);
    let deck = &plan.deck_members[0];
    assert!(deck.after_training);
    assert_eq!(
        deck.image.descriptor.as_ref().unwrap().resource.key,
        "character/member_cutout/res001_no007/normal"
    );
    // The leader card shows the trained small illustration and its thumbnail is the avatar.
    let leader = plan.leader_card.as_ref().unwrap();
    assert_eq!(
        leader.image.descriptor.as_ref().unwrap().resource.key,
        "character/member_small/res001_no007/card_after_training"
    );
    assert_eq!(
        plan.player_avatar.as_ref().unwrap().descriptor.as_ref().unwrap().resource.key,
        "thumbnail/chara/res001_no007_after_training"
    );
    // Challenge ranks join by character.
    assert_eq!(plan.character_ranks[0].challenge_rank, Some(9));
    assert_eq!(plan.character_ranks[1].challenge_rank, None);
    assert_eq!(plan.character_ranks[0].avatar.descriptor.as_ref().unwrap().resource.key, "chara_avatar/chara05_02");
    assert_eq!(plan.challenge_avatar.as_ref().unwrap().source_id, "5");
    // Full-size first, then the first two exchanged; honor 3, which master
    // data does not list, is left out.
    let order = plan.honor_slots.iter().map(|s| (s.slot, s.full_size)).collect::<Vec<_>>();
    assert_eq!(order, vec![(0, true), (1, false)]);
}

#[test]
fn unavailable_resources_are_planned_without_a_descriptor() {
    let md = masterdata(false);
    let plan = build_component(
        &profile(),
        &md,
        "ja",
        |key: &ResourceKey| key.key.starts_with("chara_avatar/"),
        None,
        false,
    )
    .unwrap();
    assert!(plan.character_ranks.iter().all(|rank| rank.avatar.descriptor.is_none()));
    assert!(plan.leader_card.unwrap().image.descriptor.is_some());
}

#[test]
fn labels_come_from_the_snapshot_in_key_order() {
    let md = masterdata(false);
    let snapshot = vec![
        ("custom_profile.general.card_level".to_string(), "Lv.".to_string()),
        ("custom_profile.general.comment.title".to_string(), "Comment".to_string()),
    ];
    let plan = build_component(&profile(), &md, "en", |_: &ResourceKey| false, Some(&snapshot), false).unwrap();
    assert_eq!(
        plan.localized_text,
        vec![
            ("custom_profile.general.comment.title".to_string(), "Comment".to_string()),
            ("custom_profile.general.card_level".to_string(), "Lv.".to_string()),
        ]
    );
    let none = build_component(&profile(), &md, "en", |_: &ResourceKey| false, None, false).unwrap();
    assert!(none.localized_text.is_empty());
}
