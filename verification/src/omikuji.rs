//! The omikuji fortune slip an omikuji collection shows: which slip prefabs
//! are known, how each region's client sets the slip up, the images a row
//! names and the strings its text nodes show.
//!
//! An omikuji collection row names a slip prefab (`resourceLoadVal`
//! `lottery_game/new_year_<year>`, `fileName` `Prefabs/Omikuji`) and the
//! element's `targetId` picks the `omikujis` row it shows. Strings are shown
//! as the game sets them: every U+0020 becomes U+00A0, which draws as a blank
//! glyph rather than a space.

use vstd::prelude::*;

use crate::masterdata::{canonical_region, normalize_region, OmikujiRow};
use crate::resource::{key_view, ResourceKey, ResourceKeyView};
use crate::text::{lower_ascii_seq, str_eq, trim_spec};
use crate::unicode::string_push;
use vstd::string::StringExecFns;

verus! {

broadcast use vstd::string::group_string_axioms;

/// `fileName` of the slip prefab in its bundle.
pub const PREFAB_FILE: &'static str = "Prefabs/Omikuji";

/// A slip prefab this module lays out.
#[derive(Clone, Copy, Debug, PartialEq, Eq)]
pub struct OmikujiPrefab {
    /// `resourceLoadVal` of the collection row.
    pub bundle: &'static str,
    /// Font asset of the text nodes, requested by this family name.
    pub font_family: &'static str,
    /// The vertical-text modifier also turns `.` and `,`.
    pub turns_periods_and_commas: bool,
}

/// The characters of a prefab.
pub open spec fn prefab_view(p: OmikujiPrefab) -> (Seq<char>, Seq<char>, bool) {
    (p.bundle@, p.font_family@, p.turns_periods_and_commas)
}

/// The slip prefabs this module lays out, as (bundle, font family, whether
/// `.` and `,` turn). They share their geometry and differ in the font asset
/// and in the modifier's offsets.
pub open spec fn known_prefabs() -> Seq<(Seq<char>, Seq<char>, bool)> {
    seq![
        ("lottery_game/new_year_2022"@, "FOT-Omikuji"@, true),
        ("lottery_game/new_year_2023"@, "FOT-UDMinchoPro-B"@, false),
        ("lottery_game/new_year_2024"@, "FOT-UDMinchoPro-B"@, false),
        ("lottery_game/new_year_2025"@, "FOT-UDMinchoPro-B"@, false),
    ]
}

/// The slip prefabs this module lays out.
pub fn prefabs() -> (r: [OmikujiPrefab; 4])
    ensures
        r@.map_values(|p: OmikujiPrefab| prefab_view(p)) == known_prefabs(),
{
    let r = [
        OmikujiPrefab {
            bundle: "lottery_game/new_year_2022",
            font_family: "FOT-Omikuji",
            turns_periods_and_commas: true,
        },
        OmikujiPrefab {
            bundle: "lottery_game/new_year_2023",
            font_family: "FOT-UDMinchoPro-B",
            turns_periods_and_commas: false,
        },
        OmikujiPrefab {
            bundle: "lottery_game/new_year_2024",
            font_family: "FOT-UDMinchoPro-B",
            turns_periods_and_commas: false,
        },
        OmikujiPrefab {
            bundle: "lottery_game/new_year_2025",
            font_family: "FOT-UDMinchoPro-B",
            turns_periods_and_commas: false,
        },
    ];
    assert(r@.map_values(|p: OmikujiPrefab| prefab_view(p)) =~= known_prefabs());
    r
}

/// The first known prefab at or after `i` whose bundle is `load_value`.
pub open spec fn find_prefab(load_value: Seq<char>, i: int) -> Option<(Seq<char>, Seq<char>, bool)>
    decreases 4 - i,
{
    if i >= 4 || i < 0 {
        None
    } else if known_prefabs()[i].0 == load_value {
        Some(known_prefabs()[i])
    } else {
        find_prefab(load_value, i + 1)
    }
}

/// The prefab a collection row names: the known prefab whose bundle is the
/// row's `resourceLoadVal`, when its `fileName` is the prefab file.
pub open spec fn prefab_spec(load_value: Seq<char>, file_name: Seq<char>) -> Option<(Seq<char>, Seq<char>, bool)> {
    if file_name != PREFAB_FILE@ {
        None
    } else {
        find_prefab(load_value, 0)
    }
}

/// The prefab a collection row names, or `None` for a prefab this module
/// does not lay out.
pub fn prefab(load_value: &str, file_name: &str) -> (r: Option<OmikujiPrefab>)
    ensures
        match r {
            Some(p) => prefab_spec(load_value@, file_name@) == Some(prefab_view(p)),
            None => prefab_spec(load_value@, file_name@) is None,
        },
{
    if !str_eq(file_name, PREFAB_FILE) {
        return None;
    }
    let all = prefabs();
    let mut i: usize = 0;
    while i < 4
        invariant
            i <= 4,
            file_name@ == PREFAB_FILE@,
            all@.map_values(|p: OmikujiPrefab| prefab_view(p)) == known_prefabs(),
            find_prefab(load_value@, 0) == find_prefab(load_value@, i as int),
        decreases 4 - i,
    {
        assert(prefab_view(all@[i as int]) == known_prefabs()[i as int]);
        if str_eq(all[i].bundle, load_value) {
            return Some(all[i]);
        }
        i = i + 1;
    }
    None
}

/// How a region's game client sets the slip up.
#[derive(Clone, Copy, Debug, Default, PartialEq, Eq, Structural)]
pub struct OmikujiClient {
    /// Each title background keeps its top edge and its height becomes its
    /// title's preferred width plus a fixed padding.
    pub fit_title_backgrounds: bool,
    /// The summary takes the descriptions' font size.
    pub summary_at_description_size: bool,
}

/// The setup of the client of a canonical region: `cn` and `tw` fit the
/// title backgrounds, `kr` also shrinks the summary, every other region
/// keeps the prefab as it ships.
pub open spec fn client_for(region: Seq<char>) -> OmikujiClient {
    if region == "cn"@ || region == "tw"@ {
        OmikujiClient { fit_title_backgrounds: true, summary_at_description_size: false }
    } else if region == "kr"@ {
        OmikujiClient { fit_title_backgrounds: true, summary_at_description_size: true }
    } else {
        OmikujiClient { fit_title_backgrounds: false, summary_at_description_size: false }
    }
}

impl OmikujiClient {
    /// The setup for a region code or locale tag.
    pub fn for_region(region: &str) -> (r: Self)
        ensures
            r == client_for(canonical_region(lower_ascii_seq(trim_spec(region@)))),
    {
        let canonical = normalize_region(region);
        let c = canonical.as_str();
        if str_eq(c, "cn") || str_eq(c, "tw") {
            OmikujiClient { fit_title_backgrounds: true, summary_at_description_size: false }
        } else if str_eq(c, "kr") {
            OmikujiClient { fit_title_backgrounds: true, summary_at_description_size: true }
        } else {
            OmikujiClient { fit_title_backgrounds: false, summary_at_description_size: false }
        }
    }
}

/// Colour of the title backgrounds for an `omikujis` `unit`: the unit's
/// colour, or the prefab's own teal (also `piapro`'s) for any other unit.
pub open spec fn unit_rgb_spec(unit: Seq<char>) -> [u8; 3] {
    if unit == "light_sound"@ {
        [0x44, 0x55, 0xdd]
    } else if unit == "idol"@ {
        [0x88, 0xdd, 0x44]
    } else if unit == "street"@ {
        [0xee, 0x11, 0x66]
    } else if unit == "theme_park"@ {
        [0xff, 0x99, 0x00]
    } else if unit == "school_refusal"@ {
        [0x88, 0x44, 0x99]
    } else {
        [0x00, 0xcc, 0xbb]
    }
}

/// Colour of the title backgrounds for an `omikujis` `unit`, as 8-bit RGB.
pub fn unit_rgb(unit: &str) -> (r: [u8; 3])
    ensures
        r == unit_rgb_spec(unit@),
{
    if str_eq(unit, "light_sound") {
        [0x44, 0x55, 0xdd]
    } else if str_eq(unit, "idol") {
        [0x88, 0xdd, 0x44]
    } else if str_eq(unit, "street") {
        [0xee, 0x11, 0x66]
    } else if str_eq(unit, "theme_park") {
        [0xff, 0x99, 0x00]
    } else if str_eq(unit, "school_refusal") {
        [0x88, 0x44, 0x99]
    } else {
        [0x00, 0xcc, 0xbb]
    }
}

/// An omikuji collection to draw: its prefab and its `omikujis` row.
#[derive(Clone, Debug, PartialEq)]
pub struct OmikujiPlan {
    pub prefab: OmikujiPrefab,
    pub row: OmikujiRow,
}

impl OmikujiPlan {
    /// The cover image, drawn over the whole slip.
    pub fn cover(&self) -> (r: ResourceKey)
        ensures
            r@ == key_view(
                "assets"@,
                self.row.omikuji_cover_assetbundle_name@ + "/bg_"@ + self.row.omikuji_cover_file_path@,
            ),
    {
        let mut key = String::from_str(self.row.omikuji_cover_assetbundle_name.as_str());
        key.append("/bg_");
        key.append(self.row.omikuji_cover_file_path.as_str());
        ResourceKey::new("assets", key)
    }

    /// The fortune image.
    pub fn fortune(&self) -> (r: ResourceKey)
        ensures
            r@ == key_view(
                "assets"@,
                self.row.fortune_assetbundle_name@ + "/"@ + self.row.fortune_file_path@,
            ),
    {
        let mut key = String::from_str(self.row.fortune_assetbundle_name.as_str());
        key.append("/");
        key.append(self.row.fortune_file_path.as_str());
        ResourceKey::new("assets", key)
    }
}

/// A string as the slip's text nodes show it.
pub open spec fn displayed_spec(text: Seq<char>) -> Seq<char> {
    text.map_values(|c: char| if c == ' ' { '\u{a0}' } else { c })
}

/// A string as the slip's text nodes show it: every U+0020 becomes U+00A0.
pub fn displayed(text: &str) -> (r: String)
    ensures
        r@ == displayed_spec(text@),
{
    let mut out = String::new();
    for c in it: text.chars()
        invariant
            it.seq() == text@,
            out@ == displayed_spec(it.seq().take(it.index() as int)),
    {
        let ghost k = it.index();
        if c == ' ' {
            string_push(&mut out, '\u{a0}');
        } else {
            string_push(&mut out, c);
        }
        assert(out@ =~= displayed_spec(it.seq().take(k + 1)));
    }
    assert(text@.take(text@.len() as int) =~= text@);
    out
}

/// The slip shows every character of a string in place, with no U+0020
/// left: the string keeps its length and only spaces change.
pub proof fn law_displayed_strings_keep_their_shape(text: Seq<char>)
    ensures
        displayed_spec(text).len() == text.len(),
        forall|i: int| 0 <= i < text.len() ==> #[trigger] displayed_spec(text)[i] != ' ',
        forall|i: int| 0 <= i < text.len() && text[i] != ' ' ==> #[trigger] displayed_spec(text)[i] == text[i],
{
}


/// The units the title backgrounds have colours for.
pub open spec fn is_colour_unit(unit: Seq<char>) -> bool {
    unit == "piapro"@ || unit == "light_sound"@ || unit == "idol"@ || unit == "street"@ || unit == "theme_park"@
        || unit == "school_refusal"@
}

/// Each unit's title background is that unit's own colour: piapro keeps the
/// prefab's teal `#00ccbb`, Leo/need is `#4455dd`, MORE MORE JUMP! `#88dd44`,
/// Vivid BAD SQUAD `#ee1166`, Wonderlands×Showtime `#ff9900` and Nightcord
/// at 25:00 `#884499`; any other unit keeps the prefab's teal.
pub proof fn law_unit_colours(unit: Seq<char>)
    ensures
        unit == "piapro"@ ==> unit_rgb_spec(unit) == [0x00u8, 0xccu8, 0xbbu8],
        unit == "light_sound"@ ==> unit_rgb_spec(unit) == [0x44u8, 0x55u8, 0xddu8],
        unit == "idol"@ ==> unit_rgb_spec(unit) == [0x88u8, 0xddu8, 0x44u8],
        unit == "street"@ ==> unit_rgb_spec(unit) == [0xeeu8, 0x11u8, 0x66u8],
        unit == "theme_park"@ ==> unit_rgb_spec(unit) == [0xffu8, 0x99u8, 0x00u8],
        unit == "school_refusal"@ ==> unit_rgb_spec(unit) == [0x88u8, 0x44u8, 0x99u8],
        !is_colour_unit(unit) ==> unit_rgb_spec(unit) == [0x00u8, 0xccu8, 0xbbu8],
{
    reveal_strlit("piapro");
    reveal_strlit("light_sound");
    reveal_strlit("idol");
    reveal_strlit("street");
    reveal_strlit("theme_park");
    reveal_strlit("school_refusal");
    assert("idol"@.len() == 4 && "light_sound"@.len() == 11);
    assert("piapro"@.len() == 6 && "street"@.len() == 6 && "theme_park"@.len() == 10);
    assert("school_refusal"@.len() == 14);
    assert("piapro"@[0] != "street"@[0]);
}

/// Distinct units have distinct title background colours, and every unit
/// without a colour of its own shares piapro's.
pub proof fn law_distinct_units_have_distinct_colours(a: Seq<char>, b: Seq<char>)
    ensures
        is_colour_unit(a) && is_colour_unit(b) && a != b ==> unit_rgb_spec(a) != unit_rgb_spec(b),
        !is_colour_unit(a) ==> unit_rgb_spec(a) == unit_rgb_spec("piapro"@),
{
    law_unit_colours(a);
    law_unit_colours(b);
    law_unit_colours("piapro"@);
}

} // verus!
