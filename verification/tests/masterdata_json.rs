use sekai_profile_renderer::json::{JsonNumber, JsonValue};
use sekai_profile_renderer::profile_resolve::{authored_resource, AuthoredResource, AuthoredResourceElement};
use sekai_profile_renderer::masterdata::{
    CollectionResourceType, JsonMasterData, MasterDataError, OmikujiRow, ProfileMasterData, ResolvedColor,
    PROFILE_MASTERDATA_TABLES, PROFILE_OPTIONAL_MASTERDATA_TABLES,
};

fn num(n: i64) -> JsonValue {
    if n >= 0 {
        JsonValue::Number(JsonNumber::PosInt(n as u64))
    } else {
        JsonValue::Number(JsonNumber::NegInt(n))
    }
}

fn text(s: &str) -> JsonValue {
    JsonValue::String(s.to_string())
}

fn object(members: Vec<(&str, JsonValue)>) -> JsonValue {
    JsonValue::Object(members.into_iter().map(|(k, v)| (k.to_string(), v)).collect())
}

fn rows(items: Vec<JsonValue>) -> JsonValue {
    JsonValue::Array(items)
}

fn font_table() -> JsonValue {
    rows(vec![object(vec![("id", num(1)), ("fontName", text("FOT-RodinNTLGPro-DB"))])])
}

#[test]
fn json_provider_maps_fonts_by_region_without_mutating_source_tables() {
    let mut cn = JsonMasterData::new("cn");
    cn.insert_value("customProfileTextFonts", font_table()).unwrap();
    let mut jp = JsonMasterData::new("jp");
    jp.insert_value("customProfileTextFonts", font_table()).unwrap();
    assert_eq!(cn.resolve_font(1).as_deref(), Some("FZLanTingHei-DB-GBK"));
    assert_eq!(jp.resolve_font(1).as_deref(), Some("FOT-RodinNTLGPro-DB"));
}

#[test]
fn missing_honor_group_fields_remain_absent() {
    let honor = || {
        rows(vec![object(vec![
            ("id", num(3)),
            ("assetbundleName", text("honor_sample")),
            ("honorRarity", text("high")),
            ("groupId", num(4)),
            ("levels", rows(Vec::new())),
            ("honorMissionType", JsonValue::Null),
        ])])
    };
    let mut data = JsonMasterData::new("cn");
    data.insert_value("honors", honor()).unwrap();
    data.insert_value("honorGroups", rows(vec![object(vec![("id", num(4)), ("honorType", text("character"))])]))
        .unwrap();
    let resolved = data.resolve_honor(3, 1).unwrap();
    assert_eq!(resolved.background_asset_bundle_name, None);
    assert_eq!(resolved.frame_name, None);
    assert_eq!(resolved.honor_type, "character");

    data.insert_value(
        "honorGroups",
        rows(vec![object(vec![
            ("id", num(4)),
            ("honorType", text("character")),
            ("backgroundAssetbundleName", text("")),
            ("frameName", text("")),
        ])]),
    )
    .unwrap();
    let resolved = data.resolve_honor(3, 1).unwrap();
    assert_eq!(resolved.background_asset_bundle_name, None);
    assert_eq!(resolved.frame_name, None);
}

#[test]
fn cn_limited_event_top_honor_resolves_shared_background_without_rank_overlay() {
    let mut data = JsonMasterData::new("cn");
    data.insert_value(
        "honors",
        rows(vec![object(vec![
            ("id", num(10140)),
            ("assetbundleName", text("honor_top_000020")),
            ("honorRarity", text("low")),
            ("groupId", num(10034)),
            ("levels", rows(vec![object(vec![("level", num(1))])])),
            ("honorMissionType", JsonValue::Null),
        ])]),
    )
    .unwrap();
    data.insert_value("honorGroups", rows(vec![object(vec![("id", num(10034)), ("honorType", text("limitevent"))])]))
        .unwrap();
    let honor = data.resolve_honor(10140, 1).unwrap();
    assert_eq!(honor.effective_background_asset_bundle_name(), "honor_bg_event_cheerteam");
    assert!(!honor.has_rank_overlay());
}

fn collection_row(id: i64, collection_type: Option<JsonValue>) -> JsonValue {
    let mut members = vec![
        ("id", num(id)),
        ("customProfileResourceType", text("collection")),
        ("resourceLoadVal", text("custom_profile/collection/fixture")),
        ("fileName", JsonValue::String(format!("item_{id}"))),
    ];
    if let Some(value) = collection_type {
        members.push(("customProfileResourceCollectionType", value));
    }
    object(members)
}

#[test]
fn collection_rows_carry_their_collection_type_and_unknown_values_read_as_none() {
    let mut data = JsonMasterData::new("jp");
    data.insert_value(
        "customProfileCollectionResources",
        rows(vec![
            collection_row(1, Some(text("can_badge"))),
            collection_row(2, Some(text("omikuji"))),
            collection_row(3, Some(text("acrylic_stand"))),
            collection_row(4, None),
            collection_row(5, Some(JsonValue::Null)),
            collection_row(6, Some(text("a_future_kind"))),
            collection_row(7, Some(text("none"))),
            collection_row(8, Some(text("tapestry"))),
        ]),
    )
    .unwrap();
    data.insert_value(
        "customProfileEtcResources",
        rows(vec![object(vec![
            ("id", num(1)),
            ("customProfileResourceType", text("etc")),
            ("resourceLoadVal", text("custom_profile/etc")),
            ("fileName", text("etc_001")),
        ])]),
    )
    .unwrap();
    let kind = |id| data.resolve_resource("collection", id).expect("collection row").collection_type;
    assert_eq!(kind(1), CollectionResourceType::CanBadge);
    assert_eq!(kind(2), CollectionResourceType::Omikuji);
    assert_eq!(kind(3), CollectionResourceType::AcrylicStand);
    for id in [4, 5, 6, 7] {
        assert_eq!(kind(id), CollectionResourceType::Plain, "row {id}");
    }
    assert_eq!(kind(8), CollectionResourceType::Tapestry);
    let etc = data.resolve_resource("etc", 1).unwrap();
    assert_eq!(etc.collection_type, CollectionResourceType::Plain);
    assert_eq!(etc.file_name, "etc_001");
    assert_eq!(etc.load_value, "custom_profile/etc");
    assert!(data.resolve_resource("unknown", 1).is_none());
    for (value, expected) in [
        ("none", CollectionResourceType::Plain),
        ("omikuji", CollectionResourceType::Omikuji),
        ("can_badge", CollectionResourceType::CanBadge),
        ("keyholder", CollectionResourceType::Keyholder),
        ("acrylic_stand", CollectionResourceType::AcrylicStand),
        ("sticker", CollectionResourceType::Sticker),
        ("towel", CollectionResourceType::Towel),
        ("silver_tape", CollectionResourceType::SilverTape),
        ("ticket_holder", CollectionResourceType::TicketHolder),
        ("tapestry", CollectionResourceType::Tapestry),
    ] {
        assert_eq!(CollectionResourceType::parse(Some(value)), expected);
    }
    assert_eq!(CollectionResourceType::parse(None), CollectionResourceType::Plain);
}

fn omikuji_row_value(id: i64, unit: &str, skip: Option<&str>) -> JsonValue {
    let members = vec![
        ("id", num(id)),
        ("omikujiGroupId", num(1)),
        ("unit", text(unit)),
        ("fortuneType", text("grate_fortune")),
        ("summary", text("夢の実現に\n近づく年")),
        ("title1", text("願望")),
        ("description1", text("必ず叶う")),
        ("title2", text("健康")),
        ("description2", text("大変良好")),
        ("title3", text("待人")),
        ("description3", text("必ず来る")),
        ("unitAssetbundleName", text("lottery_game/new_year_2022_material")),
        ("fortuneAssetbundleName", text("lottery_game/new_year_2022_material")),
        ("omikujiCoverAssetbundleName", text("lottery_game/new_year_2022_material")),
        ("unitFilePath", text("bird_VIRTUAL SINGER")),
        ("fortuneFilePath", text("unsei_daikichi")),
        ("omikujiCoverFilePath", text("omikuji_VIRTUAL SINGER")),
    ];
    object(members.into_iter().filter(|(key, _)| Some(*key) != skip).collect())
}

#[test]
fn omikuji_rows_resolve_by_id_and_missing_tables_rows_or_fields_resolve_to_none() {
    let mut data = JsonMasterData::new("cn");
    assert_eq!(data.resolve_omikuji(1), None);
    data.insert_value(
        "omikujis",
        rows(vec![omikuji_row_value(1, "piapro", None), omikuji_row_value(3, "idol", Some("fortuneFilePath"))]),
    )
    .unwrap();
    assert_eq!(
        data.resolve_omikuji(1),
        Some(OmikujiRow {
            id: 1,
            unit: "piapro".into(),
            summary: "夢の実現に\n近づく年".into(),
            title1: "願望".into(),
            description1: "必ず叶う".into(),
            title2: "健康".into(),
            description2: "大変良好".into(),
            title3: "待人".into(),
            description3: "必ず来る".into(),
            fortune_assetbundle_name: "lottery_game/new_year_2022_material".into(),
            fortune_file_path: "unsei_daikichi".into(),
            omikuji_cover_assetbundle_name: "lottery_game/new_year_2022_material".into(),
            omikuji_cover_file_path: "omikuji_VIRTUAL SINGER".into(),
        })
    );
    assert_eq!(data.resolve_omikuji(2), None);
    assert_eq!(data.resolve_omikuji(3), None);
    assert!(PROFILE_OPTIONAL_MASTERDATA_TABLES.contains(&"omikujis"));
    assert!(!PROFILE_MASTERDATA_TABLES.contains(&"omikujis"));
}

#[test]
fn live_master_honor_falls_back_to_the_last_known_level() {
    let mut data = JsonMasterData::new("cn");
    data.insert_value(
        "honors",
        rows(vec![object(vec![
            ("id", num(7)),
            ("assetbundleName", JsonValue::Null),
            ("honorRarity", JsonValue::Null),
            ("groupId", JsonValue::Null),
            ("honorMissionType", text("master_full_perfect")),
            (
                "levels",
                rows(vec![
                    object(vec![("level", num(1)), ("assetbundleName", text("honor_live_1")), ("honorRarity", text("low"))]),
                    object(vec![("level", num(5)), ("assetbundleName", text("honor_live_5")), ("honorRarity", text("high"))]),
                ]),
            ),
        ])]),
    )
    .unwrap();
    let honor = data.resolve_honor(7, 9).unwrap();
    assert!(honor.is_live_master);
    assert_eq!(honor.asset_bundle_name, "honor_live_5");
    assert_eq!(honor.honor_rarity, "high");
    let honor = data.resolve_honor(7, 1).unwrap();
    assert_eq!(honor.asset_bundle_name, "honor_live_1");
    assert_eq!(honor.honor_rarity, "low");
}

#[test]
fn unknown_color_and_font_ids_fall_back_to_the_default_rows() {
    let mut data = JsonMasterData::new("jp");
    data.insert_value(
        "customProfileTextColors",
        rows(vec![
            object(vec![("id", num(5)), ("colorCode", text("#444466"))]),
            object(vec![("id", num(1)), ("colorCode", text("#ffffff"))]),
        ]),
    )
    .unwrap();
    data.insert_value(
        "customProfileTextFonts",
        rows(vec![
            object(vec![("id", num(2)), ("fontName", text("Second"))]),
            object(vec![("id", num(1)), ("fontName", text("First"))]),
        ]),
    )
    .unwrap();
    let first_row = ResolvedColor { r: 0x44, g: 0x44, b: 0x66, a: 0xff };
    assert_eq!(data.resolve_color(404), None);
    assert_eq!(data.resolve_color_or_default(404), Some(first_row));
    assert_eq!(data.resolve_color_or_default(1).map(|color| color.r), Some(0xff));
    assert_eq!(data.resolve_font_or_default(404).as_deref(), Some("First"));
    assert_eq!(data.resolve_font_or_default(2).as_deref(), Some("Second"));
    assert_eq!(JsonMasterData::new("jp").resolve_color_or_default(1), None);
}

#[test]
fn region_aliases_canonicalize_to_the_font_mapping_region() {
    for region in ["CN", "zh-cn", "sc"] {
        let mut data = JsonMasterData::new(region);
        data.insert_value("customProfileTextFonts", font_table()).unwrap();
        assert_eq!(
            data.resolve_font(1).as_deref(),
            Some("FZLanTingHei-DB-GBK"),
            "region {region} must map the CN font"
        );
    }
}

#[test]
fn tables_are_listed_by_name_and_replaced_by_name() {
    let mut data = JsonMasterData::new("jp");
    data.insert_value("stamps", rows(vec![object(vec![("id", num(1)), ("assetbundleName", text("old"))])]))
        .unwrap();
    data.insert_value("cards", rows(Vec::new())).unwrap();
    data.insert_value("stamps", object(vec![("id", num(1)), ("assetbundleName", text("new"))])).unwrap();
    assert_eq!(data.loaded_tables(), vec!["cards", "stamps"]);
    assert_eq!(data.resolve_stamp(1).as_deref(), Some("new"));
    assert_eq!(
        data.insert_value("honors", num(3)).err(),
        Some(MasterDataError::InvalidTable { table: "honors".into() })
    );
    assert_eq!(data.loaded_tables(), vec!["cards", "stamps"]);
}

#[test]
fn later_rows_of_an_id_win_and_rows_without_an_id_are_not_found() {
    let mut data = JsonMasterData::new("jp");
    data.insert_value(
        "stamps",
        rows(vec![
            object(vec![("id", num(9)), ("assetbundleName", text("first"))]),
            object(vec![("assetbundleName", text("no id"))]),
            object(vec![("id", num(9)), ("assetbundleName", text("second"))]),
        ]),
    )
    .unwrap();
    assert_eq!(data.resolve_stamp(9).as_deref(), Some("second"));
    assert_eq!(data.resolve_stamp(0), None);
}

#[test]
fn story_banners_cards_and_bonds_rows_are_read_by_id() {
    let mut data = JsonMasterData::new("jp");
    data.insert_value("eventStories", rows(vec![object(vec![("id", num(4)), ("assetbundleName", text("event_x"))])]))
        .unwrap();
    assert_eq!(
        data.resolve_story_banner("event_story", 4).as_deref(),
        Some("event_story/event_x/screen_image/banner_event_story")
    );
    assert_eq!(data.resolve_story_banner("unit_story", 4), None);
    assert_eq!(data.resolve_story_banner("card_story", 4), None);
    data.insert_value(
        "cards",
        rows(vec![
            object(vec![
                ("id", num(11)),
                ("assetbundleName", text("res011")),
                ("cardRarityType", text("rarity_4")),
                ("attr", text("cool")),
            ]),
            object(vec![("id", num(12)), ("assetbundleName", num(5)), ("cardRarityType", text("r")), ("attr", text("a"))]),
        ]),
    )
    .unwrap();
    let card = data.get_card(11).unwrap();
    assert_eq!((card.asset_bundle_name.as_str(), card.character_id), ("res011", 0));
    assert!(data.get_card(12).is_none());
    data.insert_value(
        "bondsHonors",
        rows(vec![object(vec![
            ("id", num(2)),
            ("gameCharacterUnitId1", num(1)),
            ("gameCharacterUnitId2", num(21)),
            ("honorRarity", text("middle")),
        ])]),
    )
    .unwrap();
    let bonds = data.get_bonds_honor(2).unwrap();
    assert_eq!((bonds.game_character_unit_id1, bonds.game_character_unit_id2), (1, 21));
    data.insert_value("bondsHonorWords", rows(vec![object(vec![("id", num(5_000_000_000)), ("assetbundleName", text("w"))])]))
        .unwrap();
    assert_eq!(data.get_bonds_honor_word(5_000_000_000).map(|word| word.assetbundle_name), Some("w".to_string()));
}

#[test]
fn virtual_singers_take_the_unit_of_their_partner() {
    let unit = |id: i64, character: i64, name: &str| {
        object(vec![("id", num(id)), ("gameCharacterId", num(character)), ("unit", text(name))])
    };
    let mut data = JsonMasterData::new("jp");
    assert_eq!(data.resolve_unit_virtual_singer(27, 1), 27);
    data.insert_value(
        "gameCharacterUnits",
        rows(vec![unit(1, 1, "light_sound"), unit(21, 21, "piapro"), unit(27, 21, "light_sound")]),
    )
    .unwrap();
    assert_eq!(data.resolve_unit_virtual_singer(21, 1), 27);
    assert_eq!(data.resolve_unit_virtual_singer(1, 21), 1);
    assert_eq!(data.resolve_unit_virtual_singer(21, 99), 21);
}

#[test]
fn tables_load_from_json_text_and_text_that_is_not_json_changes_nothing() {
    let mut data = JsonMasterData::new("jp");
    data.insert_json("customProfileTextFonts", r#"[{"id": 1, "fontName": "FOT-RodinNTLGPro-DB"}]"#).unwrap();
    assert_eq!(data.resolve_font(1).as_deref(), Some("FOT-RodinNTLGPro-DB"));
    assert_eq!(
        data.insert_json("stamps", "[{"),
        Err(MasterDataError::InvalidJson { table: "stamps".to_string() })
    );
    assert_eq!(data.loaded_tables(), vec!["customProfileTextFonts"]);
    assert_eq!(
        data.insert_json("stamps", "3"),
        Err(MasterDataError::InvalidTable { table: "stamps".to_string() })
    );
    assert_eq!(
        MasterDataError::InvalidJson { table: "stamps".to_string() }.message(),
        "master-data table stamps is not JSON text"
    );
}

fn resource_key(kind: &str, id: i32) -> String {
    sekai_profile_renderer::profile_scene::resource_lookup_key(kind, id, "")
}

#[test]
fn authored_elements_request_the_resources_their_rows_name() {
    let mut data = JsonMasterData::new("jp");
    data.insert_value(
        "customProfileEtcResources",
        rows(vec![object(vec![
            ("id", num(1)),
            ("customProfileResourceType", text("etc")),
            ("resourceLoadVal", text("custom_profile/etc")),
            ("fileName", text("etc_001")),
        ])]),
    )
    .unwrap();
    data.insert_value("stamps", rows(vec![object(vec![("id", num(5)), ("assetbundleName", text("stamp0005"))])]))
        .unwrap();
    match authored_resource(&AuthoredResourceElement::Other(1), &data) {
        AuthoredResource::Request(q) => {
            assert_eq!(q.lookup_key, resource_key("other", 1));
            assert_eq!(q.resource.namespace, "assets");
            assert_eq!(q.resource.key, "custom_profile/etc/etc_001");
            assert_eq!((q.fallback_width, q.fallback_height), (100, 100));
        },
        _ => panic!("expected a request"),
    }
    match authored_resource(&AuthoredResourceElement::Stamp(5), &data) {
        AuthoredResource::Request(q) => {
            assert_eq!(q.lookup_key, resource_key("stamp", 5));
            assert_eq!(q.resource.key, "stamp/stamp0005/stamp0005");
            assert_eq!((q.fallback_width, q.fallback_height), (100, 100));
        },
        _ => panic!("expected a request"),
    }
    assert!(matches!(authored_resource(&AuthoredResourceElement::Other(2), &data), AuthoredResource::MissingRow));
    assert!(matches!(authored_resource(&AuthoredResourceElement::Shape(1), &data), AuthoredResource::MissingRow));
    assert!(matches!(authored_resource(&AuthoredResourceElement::Stamp(6), &data), AuthoredResource::MissingRow));
    assert!(matches!(authored_resource(&AuthoredResourceElement::Text, &data), AuthoredResource::NoResource));
    assert!(matches!(authored_resource(&AuthoredResourceElement::Honor, &data), AuthoredResource::NoResource));
}

#[test]
fn card_members_request_the_card_artwork_for_their_crop() {
    let mut data = JsonMasterData::new("jp");
    data.insert_value(
        "cards",
        rows(vec![object(vec![
            ("id", num(7)),
            ("characterId", num(1)),
            ("cardRarityType", text("rarity_4")),
            ("attr", text("cool")),
            ("assetbundleName", text("res001_no007")),
        ])]),
    )
    .unwrap();
    let member = |member_type: Option<i32>, after_training: Option<bool>| AuthoredResourceElement::CardMember {
        id: 7,
        member_type,
        after_training,
        lookup_key: "card-member-7".to_string(),
    };
    match authored_resource(&member(Some(1), Some(true)), &data) {
        AuthoredResource::Request(q) => {
            assert_eq!(q.lookup_key, "card-member-7");
            assert_eq!(q.resource.key, "character/member_cutout/res001_no007/after_training");
            assert_eq!((q.fallback_width, q.fallback_height), (312, 512));
        },
        _ => panic!("expected a request"),
    }
    match authored_resource(&member(None, None), &data) {
        AuthoredResource::Request(q) => {
            assert_eq!(q.resource.key, "character/member_small/res001_no007/card_normal");
            assert_eq!((q.fallback_width, q.fallback_height), (940, 530));
        },
        _ => panic!("expected a request"),
    }
    let missing = AuthoredResourceElement::CardMember {
        id: 8,
        member_type: None,
        after_training: None,
        lookup_key: String::new(),
    };
    assert!(matches!(authored_resource(&missing, &data), AuthoredResource::MissingRow));
}
