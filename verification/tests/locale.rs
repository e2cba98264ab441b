use sekai_profile_renderer::locale::{general_localization_keys, profile_localization_demands, LocalizationDemand};

#[test]
fn profile_localization_demands_are_exact_deduplicated_and_region_scoped() {
    let demands = profile_localization_demands(&[Some(4), Some(16), Some(16), Some(13)], "en", "en-US");
    assert_eq!(
        demands
            .iter()
            .map(|value| value.key.as_str())
            .collect::<Vec<_>>(),
        vec![
            "custom_profile.general.comment.title",
            "custom_profile.general.music.clear",
            "custom_profile.general.music.full_combo",
            "custom_profile.general.music.all_perfect",
            "custom_profile.general.music.difficulty.easy",
            "custom_profile.general.music.difficulty.normal",
            "custom_profile.general.music.difficulty.hard",
            "custom_profile.general.music.difficulty.expert",
            "custom_profile.general.music.difficulty.master",
            "custom_profile.general.music.difficulty.append",
        ]
    );
    assert!(demands.iter().all(|value| value.region == "en"));
    assert!(demands.iter().all(|value| value.locale == "en-US"));
}

#[test]
fn components_without_a_type_or_labels_demand_nothing() {
    assert!(profile_localization_demands(&[None, Some(13), Some(1)], "jp", "ja").is_empty());
    let demands = profile_localization_demands(&[Some(11), Some(15)], "jp", "ja");
    assert_eq!(demands.len(), 2);
}

#[test]
fn general_types_share_their_label_lists() {
    assert_eq!(general_localization_keys(11), general_localization_keys(15));
    assert_eq!(general_localization_keys(12), general_localization_keys(16));
    assert_eq!(general_localization_keys(9).len(), 4);
    assert_eq!(
        general_localization_keys(17),
        vec!["custom_profile.general.player_level.label"]
    );
    assert!(general_localization_keys(0).is_empty());
}

#[test]
fn card_level_is_demanded_by_deck_not_leader_member() {
    let demands = profile_localization_demands(&[Some(3), Some(5)], "cn", "zh-CN");
    assert_eq!(
        demands,
        vec![LocalizationDemand {
            region: "cn".into(),
            locale: "zh-CN".into(),
            key: "custom_profile.general.card_level".into(),
        }]
    );
    assert!(profile_localization_demands(&[Some(5)], "cn", "zh-CN").is_empty());
}
