use sekai_profile_renderer::masterdata::OmikujiRow;
use sekai_profile_renderer::omikuji::{
    displayed, prefab, prefabs, unit_rgb, OmikujiClient, OmikujiPlan, PREFAB_FILE,
};
use sekai_profile_renderer::ResourceKey;

fn row(unit: &str) -> OmikujiRow {
    OmikujiRow {
        id: 1,
        unit: unit.into(),
        summary: "夢の実現に\n近づく年".into(),
        title1: "願望".into(),
        description1: "必ず叶う".into(),
        title2: "健康".into(),
        description2: "大変良好".into(),
        title3: "待人".into(),
        description3: "必ず来る".into(),
        fortune_assetbundle_name: "lottery_game/new_year_2022_material".into(),
        fortune_file_path: "unsei_daikichi".into(),
        omikuji_cover_assetbundle_name: "lottery_game/new_year_2022_material".into(),
        omikuji_cover_file_path: "omikuji_VIRTUAL SINGER".into(),
    }
}

#[test]
fn prefabs_are_known_by_bundle_and_prefab_file() {
    assert_eq!(
        prefab("lottery_game/new_year_2022", "Prefabs/Omikuji").map(|p| p.font_family),
        Some("FOT-Omikuji")
    );
    for year in [2023, 2024, 2025] {
        let found = prefab(&format!("lottery_game/new_year_{year}"), PREFAB_FILE);
        assert_eq!(found.map(|p| p.font_family), Some("FOT-UDMinchoPro-B"));
    }
    assert_eq!(prefab("lottery_game/new_year_2026", PREFAB_FILE), None);
    assert_eq!(prefab("lottery_game/new_year_2022", "Prefabs/Other"), None);
}

#[test]
fn only_the_first_prefab_turns_periods_and_commas() {
    let all = prefabs();
    assert!(all[0].turns_periods_and_commas);
    assert!(all[1..].iter().all(|p| !p.turns_periods_and_commas));
}

#[test]
fn the_slip_requests_its_cover_and_fortune_images_by_their_row_keys() {
    let plan = OmikujiPlan {
        prefab: prefab("lottery_game/new_year_2022", PREFAB_FILE).unwrap(),
        row: row("piapro"),
    };
    let key = |key: &str| ResourceKey {
        namespace: "assets".into(),
        key: key.into(),
    };
    assert_eq!(
        plan.cover(),
        key("lottery_game/new_year_2022_material/bg_omikuji_VIRTUAL SINGER")
    );
    assert_eq!(
        plan.fortune(),
        key("lottery_game/new_year_2022_material/unsei_daikichi")
    );
}

#[test]
fn regions_set_up_their_clients() {
    let fitted = OmikujiClient {
        fit_title_backgrounds: true,
        summary_at_description_size: false,
    };
    assert_eq!(OmikujiClient::for_region("cn"), fitted);
    assert_eq!(OmikujiClient::for_region("zh-Hant"), fitted);
    assert_eq!(
        OmikujiClient::for_region("ko-KR"),
        OmikujiClient {
            fit_title_backgrounds: true,
            summary_at_description_size: true,
        }
    );
    assert_eq!(OmikujiClient::for_region("jp"), OmikujiClient::default());
    assert_eq!(OmikujiClient::for_region("en"), OmikujiClient::default());
}

#[test]
fn strings_show_no_break_spaces() {
    assert_eq!(displayed("a b  c"), "a\u{a0}b\u{a0}\u{a0}c");
    assert_eq!(displayed("\u{3000}"), "\u{3000}");
}

#[test]
fn title_backgrounds_take_the_unit_colour() {
    assert_eq!(unit_rgb("piapro"), [0x00, 0xcc, 0xbb]);
    assert_eq!(unit_rgb("light_sound"), [0x44, 0x55, 0xdd]);
    assert_eq!(unit_rgb("school_refusal"), [0x88, 0x44, 0x99]);
    assert_eq!(unit_rgb("unknown"), [0x00, 0xcc, 0xbb]);
}
