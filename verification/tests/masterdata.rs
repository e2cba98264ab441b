use sekai_profile_renderer::masterdata::{
    bonds_honor_asset_plan, effective_honor_background_asset_bundle_name, honor_has_rank_overlay,
    honor_level_star_count, honor_rarity_number, normalize_region, plan_bonds_honor,
    resolve_honor_entry, BondsHonorEntry, BondsHonorWordEntry, CardEntry, CollectionResourceType,
    HonorEntry, HonorGroupEntry, HonorLevelEntry, MasterDataError, OmikujiRow,
    ProfileMasterData, ResolvedColor, ResolvedHonor, ResourceInfo,
};

fn planned_honor() -> ResolvedHonor {
    ResolvedHonor {
        asset_bundle_name: "honor_sample".into(),
        honor_rarity: "low".into(),
        honor_type: "character".into(),
        background_asset_bundle_name: None,
        frame_name: Some("custom_frame".into()),
        is_live_master: false,
        has_star: true,
        honor_mission_type: None,
    }
}

#[test]
fn standard_honor_plan_keeps_ordered_frames_and_namespaces_for_all_rarities() {
    for (rarity, number) in [("low", 1), ("middle", 2), ("high", 3), ("highest", 4)] {
        for (full_size, size) in [(true, "m"), (false, "s")] {
            let mut honor = planned_honor();
            honor.honor_rarity = rarity.into();
            let plan = honor.asset_plan(10, full_size);
            let frames = plan
                .frame_candidates
                .iter()
                .flatten()
                .map(|key| (key.namespace.as_str(), key.key.clone()))
                .collect::<Vec<_>>();
            let mut expected = Vec::new();
            if number >= 3 {
                expected.push((
                    "assets",
                    format!("honor_frame/custom_frame/frame_degree_{size}_{number}"),
                ));
            }
            expected.push(("static", format!("honor/frame_degree_{size}_{number}")));
            assert_eq!(frames, expected);
            assert_eq!(plan.star.as_ref().unwrap().namespace, "static");
            assert_eq!(plan.star_high.as_ref().unwrap().namespace, "static");
            assert_eq!(plan.resources().len(), 3 + expected.len());
        }
    }
}

#[test]
fn standard_honor_plan_requests_stars_only_when_they_are_drawn() {
    let mut honor = planned_honor();
    for (level, normal, high) in [
        (-1, false, false),
        (0, false, false),
        (1, true, false),
        (5, true, false),
        (6, true, true),
        (10, true, true),
        (11, true, false),
        (20, true, true),
    ] {
        let plan = honor.asset_plan(level, false);
        assert_eq!(
            (plan.star.is_some(), plan.star_high.is_some()),
            (normal, high),
            "level={level}"
        );
    }
    for honor_type in ["event", "birthday"] {
        honor.honor_type = honor_type.into();
        let plan = honor.asset_plan(10, true);
        assert!(plan.star.is_none() && plan.star_high.is_none());
    }
    honor.honor_type = "achievement".into();
    assert!(honor.asset_plan(10, true).star_high.is_some());
    honor.has_star = false;
    assert!(honor.asset_plan(10, true).star.is_none());
    honor.has_star = true;
    honor.is_live_master = true;
    let plan = honor.asset_plan(10, true);
    assert!(plan.star.is_none() && plan.star_high.is_none());
    assert_eq!(plan.overlay.unwrap().key, "honor/honor_sample/scroll");
}

#[test]
fn rank_overlay_follows_the_honor_type() {
    let mut honor = planned_honor();
    for (honor_type, bundle, expected) in [
        ("event", "honor_0305", true),
        ("event", "honor_top_000001", true),
        ("sekai_echo", "honor_0182", true),
        ("event", "", false),
        ("limitevent", "honor_top_000020", false),
        ("character", "honor_memorial_0001", false),
        ("achievement", "honor_0105", false),
    ] {
        honor.honor_type = honor_type.into();
        honor.asset_bundle_name = bundle.into();
        assert_eq!(honor.has_rank_overlay(), expected, "{honor_type} {bundle}");
        let overlay = honor.asset_plan(1, true).overlay;
        assert_eq!(overlay.is_some(), expected, "{honor_type} {bundle}");
        if let Some(overlay) = overlay {
            assert_eq!(overlay.key, format!("honor/{bundle}/rank_main"));
        }
    }
}

#[test]
fn level_stars_follow_the_honor_type() {
    let mut honor = planned_honor();
    for (honor_type, expected) in [
        ("character", true),
        ("achievement", true),
        ("limitevent", true),
        ("normal", true),
        ("event", false),
        ("birthday", false),
    ] {
        honor.honor_type = honor_type.into();
        let plan = honor.asset_plan(7, true);
        assert_eq!(plan.star.is_some(), expected, "{honor_type}");
        assert_eq!(plan.star_high.is_some(), expected, "{honor_type}");
    }
}

#[test]
fn dedicated_frames_need_the_group_rarity() {
    for (honor_type, rarity, dedicated) in [
        ("event", "low", false),
        ("event", "middle", false),
        ("event", "high", true),
        ("event", "highest", true),
        ("birthday", "low", false),
        ("birthday", "middle", true),
        ("birthday", "high", true),
        ("birthday", "highest", true),
    ] {
        let mut honor = planned_honor();
        honor.honor_type = honor_type.into();
        honor.honor_rarity = rarity.into();
        let plan = honor.asset_plan(1, false);
        assert_eq!(
            plan.frame_candidates[0].is_some(),
            dedicated,
            "{honor_type} {rarity}"
        );
        assert!(plan.frame_candidates[1].is_some(), "{honor_type} {rarity}");
    }
    let mut honor = planned_honor();
    honor.honor_rarity = "highest".into();
    honor.frame_name = None;
    assert!(honor.asset_plan(1, true).frame_candidates[0].is_none());
}

#[test]
fn level_star_count_wraps_every_ten_levels() {
    for (level, stars) in [
        (-3, 0),
        (0, 0),
        (1, 1),
        (5, 5),
        (10, 10),
        (11, 1),
        (20, 10),
        (21, 1),
        (27, 7),
    ] {
        assert_eq!(honor_level_star_count(level), stars, "level {level}");
    }
}

struct PairData {
    rarity: &'static str,
}

impl ProfileMasterData for PairData {
    fn resolve_story_banner(&self, _: &str, _: i32) -> Option<String> {
        None
    }
    fn get_card(&self, _: i32) -> Option<CardEntry> {
        None
    }
    fn resolve_color(&self, _: i32) -> Option<ResolvedColor> {
        None
    }
    fn resolve_font(&self, _: i32) -> Option<String> {
        None
    }
    fn resolve_stamp(&self, _: i32) -> Option<String> {
        None
    }
    fn resolve_resource(&self, _: &str, _: i32) -> Option<ResourceInfo> {
        None
    }
    fn resolve_honor(&self, _: i32, _: i32) -> Option<ResolvedHonor> {
        None
    }
    fn get_bonds_honor(&self, id: i32) -> Option<BondsHonorEntry> {
        Some(BondsHonorEntry {
            id,
            game_character_unit_id1: 21,
            game_character_unit_id2: 1,
            honor_rarity: self.rarity.into(),
        })
    }
    fn get_bonds_honor_word(&self, id: i64) -> Option<BondsHonorWordEntry> {
        Some(BondsHonorWordEntry {
            id,
            assetbundle_name: "honorname_0121_01".into(),
        })
    }
    fn resolve_unit_virtual_singer(&self, self_id: i32, partner_id: i32) -> i32 {
        match (self_id, partner_id) {
            (21, 1) => 27,
            // Only reachable when the partner was already substituted.
            (1, 27) => 99,
            _ => self_id,
        }
    }
}

#[test]
fn bonds_plan_substitutes_only_the_character_art() {
    let plan =
        bonds_honor_asset_plan(&PairData { rarity: "middle" }, 5, true, 3, false, true).unwrap();
    let resources = plan.resources();
    let keys = resources
        .iter()
        .map(|key| (key.namespace.as_str(), key.key.as_str()))
        .collect::<Vec<_>>();
    assert_eq!(plan.character_ids, [27, 1]);
    assert_eq!(
        keys,
        vec![
            ("static", "honor/bonds/21"),
            ("static", "honor/bonds/1"),
            ("assets", "bonds_honor/chr_sd_27_01"),
            ("assets", "bonds_honor/chr_sd_01_01"),
            ("static", "honor/mask_degree_main"),
            ("static", "honor/frame_degree_m_2"),
            ("assets", "bonds_honor/word/honorname_0121_01_02"),
            ("static", "honor/icon_degreeLv"),
            ("static", "honor/icon_degreeLv6"),
        ]
    );

    let plan =
        bonds_honor_asset_plan(&PairData { rarity: "low" }, 5, false, 3, true, false).unwrap();
    assert_eq!(plan.character_ids, [1, 21]);
    assert_eq!(plan.backgrounds[0].key, "honor/bonds/1_sub");
    assert_eq!(plan.characters[1].key, "bonds_honor/chr_sd_21_01");
    assert_eq!(plan.frame.key, "honor/frame_degree_s_1");
    assert_eq!(plan.mask.key, "honor/mask_degree_sub");
    assert_eq!(plan.word, None);
}

#[test]
fn from_hex_rejects_multi_byte_input_without_panicking() {
    // The length check counts bytes; a string slice at a non-char-boundary
    // index would panic on multi-byte input.
    assert_eq!(ResolvedColor::from_hex("日日"), None);
    assert_eq!(ResolvedColor::from_hex("#日日日"), None);
    assert_eq!(ResolvedColor::from_hex("#11223g"), None);
    assert_eq!(
        ResolvedColor::from_hex("#112233"),
        Some(ResolvedColor {
            r: 0x11,
            g: 0x22,
            b: 0x33,
            a: 255
        })
    );
}

#[test]
fn hex_colours_read_alpha_and_signed_pairs() {
    assert_eq!(
        ResolvedColor::from_hex("AABBCC80"),
        Some(ResolvedColor { r: 0xAA, g: 0xBB, b: 0xCC, a: 0x80 })
    );
    // `u8::from_str_radix` accepts a leading plus sign.
    assert_eq!(
        ResolvedColor::from_hex("+f0000ff"),
        Some(ResolvedColor { r: 0x0F, g: 0x00, b: 0x00, a: 0xFF })
    );
    assert_eq!(ResolvedColor::from_hex("-f0000"), None);
    assert_eq!(ResolvedColor::from_hex("##112233"), None);
    assert_eq!(ResolvedColor::from_hex("12345"), None);
}

#[test]
fn collection_types_parse_their_master_data_values() {
    for (value, expected) in [
        ("none", CollectionResourceType::Plain),
        ("omikuji", CollectionResourceType::Omikuji),
        ("can_badge", CollectionResourceType::CanBadge),
        ("keyholder", CollectionResourceType::Keyholder),
        ("acrylic_stand", CollectionResourceType::AcrylicStand),
        ("sticker", CollectionResourceType::Sticker),
        ("towel", CollectionResourceType::Towel),
        ("silver_tape", CollectionResourceType::SilverTape),
        ("ticket_holder", CollectionResourceType::TicketHolder),
        ("tapestry", CollectionResourceType::Tapestry),
        ("a_future_kind", CollectionResourceType::Plain),
    ] {
        assert_eq!(CollectionResourceType::parse(Some(value)), expected);
    }
    assert_eq!(
        CollectionResourceType::parse(None),
        CollectionResourceType::Plain
    );
    assert_eq!(
        CollectionResourceType::default(),
        CollectionResourceType::Plain
    );
}

#[test]
fn limited_event_top_honors_share_the_cheer_team_background() {
    assert_eq!(
        effective_honor_background_asset_bundle_name("limitevent", "honor_top_000020", None),
        "honor_bg_event_cheerteam"
    );
    assert_eq!(
        effective_honor_background_asset_bundle_name("limitevent", "honor_top_000020", Some("")),
        "honor_bg_event_cheerteam"
    );
    assert_eq!(
        effective_honor_background_asset_bundle_name("event", "honor_top_000020", None),
        "honor_top_000020"
    );
    assert_eq!(
        effective_honor_background_asset_bundle_name("limitevent", "honor_0001", Some("own_bg")),
        "own_bg"
    );
    assert!(!honor_has_rank_overlay("limitevent", "honor_top_000020", false));
    assert!(honor_has_rank_overlay("rank_match", "", false));
    assert!(honor_has_rank_overlay("normal", "", true));
}

#[test]
fn rank_match_honors_live_in_the_rank_directory() {
    let mut honor = planned_honor();
    honor.honor_type = "rank_match".into();
    let plan = honor.asset_plan(1, false);
    assert_eq!(plan.background.key, "rank_live/honor/honor_sample/degree_sub");
    assert_eq!(
        plan.overlay.unwrap().key,
        "rank_live/honor/honor_sample/sub"
    );
}

#[test]
fn rarity_numbers_name_the_frames() {
    assert_eq!(honor_rarity_number("low"), 1);
    assert_eq!(honor_rarity_number("middle"), 2);
    assert_eq!(honor_rarity_number("high"), 3);
    assert_eq!(honor_rarity_number("highest"), 4);
    assert_eq!(honor_rarity_number("unknown"), 4);
}

#[test]
fn region_aliases_canonicalize() {
    for (raw, region) in [
        ("CN", "cn"),
        (" zh-Hans ", "cn"),
        ("sc", "cn"),
        ("ja-JP", "jp"),
        ("zh-hant", "tw"),
        ("World", "en"),
        ("ko", "kr"),
        ("\tDE\n", "de"),
        ("", ""),
    ] {
        assert_eq!(normalize_region(raw), region, "{raw:?}");
    }
}

#[test]
fn bonds_plans_pad_negative_and_large_units_as_format_does() {
    let plan = plan_bonds_honor(-3, 123, [-3, 123], "high", None, true);
    assert_eq!(plan.backgrounds[0].key, "honor/bonds/-3");
    assert_eq!(plan.characters[0].key, "bonds_honor/chr_sd_-3_01");
    assert_eq!(plan.characters[1].key, "bonds_honor/chr_sd_123_01");
    assert_eq!(plan.frame.key, "honor/frame_degree_m_3");
    assert_eq!(plan.word, None);
    let plan = plan_bonds_honor(1, 2, [1, 2], "highest", Some("w"), false);
    assert_eq!(plan.word, None);
    let plan = plan_bonds_honor(1, 2, [1, 2], "highest", Some("w"), true);
    assert_eq!(plan.word.unwrap().key, "bonds_honor/word/w_04");
}

#[test]
fn resolved_entries_fall_back_to_the_last_level() {
    let honor = HonorEntry {
        id: 7,
        assetbundle_name: None,
        honor_rarity: None,
        group_id: None,
        honor_mission_type: Some("master_full_perfect".into()),
        levels: vec![
            HonorLevelEntry {
                level: 1,
                assetbundle_name: Some("honor_live_1".into()),
                honor_rarity: Some("low".into()),
            },
            HonorLevelEntry {
                level: 5,
                assetbundle_name: Some("honor_live_5".into()),
                honor_rarity: Some("high".into()),
            },
        ],
    };
    let resolved = resolve_honor_entry(&honor, None, 9);
    assert!(resolved.is_live_master);
    assert_eq!(resolved.asset_bundle_name, "honor_live_5");
    assert_eq!(resolved.honor_rarity, "high");
    assert_eq!(resolved.honor_type, "normal");
    assert!(resolved.has_star);
    let resolved = resolve_honor_entry(&honor, None, 1);
    assert_eq!(resolved.asset_bundle_name, "honor_live_1");
    assert_eq!(resolved.honor_rarity, "low");
}

#[test]
fn empty_group_fields_resolve_as_absent() {
    let honor = HonorEntry {
        id: 3,
        assetbundle_name: Some("honor_sample".into()),
        honor_rarity: Some("high".into()),
        group_id: Some(4),
        levels: vec![],
        honor_mission_type: None,
    };
    let group = HonorGroupEntry {
        honor_type: Some("character".into()),
        background_asset_bundle_name: Some("".into()),
        frame_name: None,
    };
    let resolved = resolve_honor_entry(&honor, Some(&group), 1);
    assert_eq!(resolved.honor_type, "character");
    assert_eq!(resolved.background_asset_bundle_name, None);
    assert_eq!(resolved.frame_name, None);
    assert!(!resolved.is_live_master);
    assert!(!resolved.has_star);
    assert_eq!(resolved.asset_bundle_name, "honor_sample");
}

#[test]
fn default_rows_stand_in_for_unknown_colours_and_fonts() {
    struct Tables;
    impl ProfileMasterData for Tables {
        fn resolve_story_banner(&self, _: &str, _: i32) -> Option<String> {
            None
        }
        fn get_card(&self, _: i32) -> Option<CardEntry> {
            None
        }
        fn resolve_color(&self, id: i32) -> Option<ResolvedColor> {
            (id == 1).then_some(ResolvedColor { r: 0xff, g: 0xff, b: 0xff, a: 0xff })
        }
        fn default_color(&self) -> Option<ResolvedColor> {
            Some(ResolvedColor { r: 0x44, g: 0x44, b: 0x66, a: 0xff })
        }
        fn resolve_font(&self, id: i32) -> Option<String> {
            match id {
                1 => Some("First".into()),
                2 => Some("Second".into()),
                _ => None,
            }
        }
        fn resolve_stamp(&self, _: i32) -> Option<String> {
            None
        }
        fn resolve_resource(&self, _: &str, _: i32) -> Option<ResourceInfo> {
            None
        }
        fn resolve_honor(&self, _: i32, _: i32) -> Option<ResolvedHonor> {
            None
        }
        fn get_bonds_honor(&self, _: i32) -> Option<BondsHonorEntry> {
            None
        }
        fn get_bonds_honor_word(&self, _: i64) -> Option<BondsHonorWordEntry> {
            None
        }
        fn resolve_unit_virtual_singer(&self, self_id: i32, _: i32) -> i32 {
            self_id
        }
    }
    let data = Tables;
    assert_eq!(data.resolve_color_or_default(404).map(|c| c.r), Some(0x44));
    assert_eq!(data.resolve_color_or_default(1).map(|c| c.r), Some(0xff));
    assert_eq!(data.resolve_font_or_default(404).as_deref(), Some("First"));
    assert_eq!(data.resolve_font_or_default(2).as_deref(), Some("Second"));
    assert_eq!(data.resolve_omikuji(1), None::<OmikujiRow>);
    assert!(bonds_honor_asset_plan(&data, 1, true, 1, false, false).is_none());
}

#[test]
fn invalid_tables_name_themselves() {
    let error = MasterDataError::InvalidTable {
        table: "cards".into(),
    };
    assert_eq!(
        error.message(),
        "master-data table cards is not a JSON array or object"
    );
}
