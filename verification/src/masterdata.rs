//! Backend-neutral master-data rules used by profile resolution: colours,
//! collection kinds, honor layers and the resources each honor draws.

use vstd::prelude::*;

use crate::resource::{key_view, opt_key_view, ResourceKey, ResourceKeyView};
use crate::text::{
    chars_eq_str, digit_char, has_prefix, lower_ascii_seq, padded_decimal, push_padded_decimal,
    str_eq, str_starts_with, trim_spec, trimmed_lower,
};
use crate::unicode::string_push;
use vstd::string::{StringExecFns, StringSliceAdditionalSpecFns};

pub mod json_tables;

pub use json_tables::{JsonMasterData, JsonTable};

verus! {

broadcast use vstd::string::group_string_axioms;

/// Master-data tables a profile is resolved from.
pub const PROFILE_MASTERDATA_TABLES: [&'static str; 17] = [
    "cards",
    "stamps",
    "honors",
    "honorGroups",
    "bondsHonors",
    "bondsHonorWords",
    "gameCharacterUnits",
    "customProfileTextColors",
    "customProfileTextFonts",
    "customProfileShapeResources",
    "customProfileEtcResources",
    "customProfileCollectionResources",
    "customProfileGeneralBackgroundResources",
    "customProfileMemberStandingPictureResources",
    "customProfileStoryBackgroundResources",
    "eventStories",
    "unitStoryEpisodeGroups",
];

/// Tables a table set may lack: the icon resource tables, which only some
/// regions ship, and `omikujis`, which only omikuji collections read. Without
/// one, the elements that draw from it have no master-data row and are left
/// out; nothing else changes.
pub const PROFILE_OPTIONAL_MASTERDATA_TABLES: [&'static str; 4] = [
    "customProfileCharacterIconResources",
    "customProfileMaterialResources",
    "customProfileUserInterfaceIconResources",
    "omikujis",
];

/// An RGBA colour.
#[derive(Clone, Copy, Debug, PartialEq, Eq, Structural)]
pub struct ResolvedColor {
    pub r: u8,
    pub g: u8,
    pub b: u8,
    pub a: u8,
}

/// The value of one hexadecimal digit byte.
pub open spec fn hex_digit_value(b: u8) -> Option<u8> {
    if 48 <= b && b <= 57 {
        Some((b - 48) as u8)
    } else if 65 <= b && b <= 70 {
        Some((b - 55) as u8)
    } else if 97 <= b && b <= 102 {
        Some((b - 87) as u8)
    } else {
        None
    }
}

/// `u8::from_str_radix(pair, 16)` on a two-byte string: two hex digits, or a
/// `+` sign and one digit.
pub open spec fn hex_pair_value(high: u8, low: u8) -> Option<u8> {
    if high == 43 {
        hex_digit_value(low)
    } else {
        match (hex_digit_value(high), hex_digit_value(low)) {
            (Some(h), Some(l)) => Some((h * 16 + l) as u8),
            _ => None,
        }
    }
}

/// The colour that `from_hex` reads from the bytes of its argument.
pub open spec fn color_from_hex(bytes: Seq<u8>) -> Option<ResolvedColor> {
    let b = if bytes.len() > 0 && bytes[0] == 35 { bytes.drop_first() } else { bytes };
    if b.len() != 6 && b.len() != 8 {
        None
    } else {
        match (
            hex_pair_value(b[0], b[1]),
            hex_pair_value(b[2], b[3]),
            hex_pair_value(b[4], b[5]),
            if b.len() == 8 { hex_pair_value(b[6], b[7]) } else { Some(255u8) },
        ) {
            (Some(r), Some(g), Some(bl), Some(a)) => Some(ResolvedColor { r, g, b: bl, a }),
            _ => None,
        }
    }
}

fn hex_digit(b: u8) -> (r: Option<u8>)
    ensures
        r == hex_digit_value(b),
{
    if 48 <= b && b <= 57 {
        Some(b - 48)
    } else if 65 <= b && b <= 70 {
        Some(b - 55)
    } else if 97 <= b && b <= 102 {
        Some(b - 87)
    } else {
        None
    }
}

fn hex_pair(high: u8, low: u8) -> (r: Option<u8>)
    ensures
        r == hex_pair_value(high, low),
{
    if high == 43 {
        hex_digit(low)
    } else {
        match (hex_digit(high), hex_digit(low)) {
            (Some(h), Some(l)) => Some(h * 16 + l),
            _ => None,
        }
    }
}

impl ResolvedColor {
    /// Reads `RRGGBB` or `RRGGBBAA`, with an optional leading `#`. The length
    /// is counted in bytes, so multi-byte input is refused, not split.
    pub fn from_hex(value: &str) -> (r: Option<Self>)
        ensures
            r == color_from_hex(value.spec_bytes()),
    {
        broadcast use vstd::slice::axiom_spec_len;

        let all = value.as_bytes();
        let skip: usize = if all.len() > 0 && all[0] == 35 { 1 } else { 0 };
        let n = all.len() - skip;
        let ghost b = if all@.len() > 0 && all@[0] == 35 { all@.drop_first() } else { all@ };
        assert(n == b.len());
        assert(forall|i: int| 0 <= i < n ==> all@[i + skip] == b[i]);
        if n != 6 && n != 8 {
            return None;
        }
        let r = hex_pair(all[skip], all[skip + 1]);
        let g = hex_pair(all[skip + 2], all[skip + 3]);
        let bl = hex_pair(all[skip + 4], all[skip + 5]);
        let a = if n == 8 { hex_pair(all[skip + 6], all[skip + 7]) } else { Some(255u8) };
        match (r, g, bl, a) {
            (Some(r), Some(g), Some(bl), Some(a)) => Some(ResolvedColor { r, g, b: bl, a }),
            _ => None,
        }
    }
}

/// Kind of a `customProfileCollectionResources` row, from its
/// `customProfileResourceCollectionType` column.
///
/// Only [`Self::Omikuji`] and [`Self::CanBadge`] draw differently from a plain
/// image: an omikuji row names a fortune-slip prefab, and a can badge draws
/// its image with the lit badge material. Every other kind draws the row's
/// image as is.
#[derive(Clone, Copy, Debug, Default, PartialEq, Eq, Hash, Structural)]
pub enum CollectionResourceType {
    /// `none`, and also a missing, `null` or unrecognised value.
    #[default]
    Plain,
    Omikuji,
    CanBadge,
    Keyholder,
    AcrylicStand,
    Sticker,
    Towel,
    SilverTape,
    TicketHolder,
    Tapestry,
}

/// The kind a master-data value names.
pub open spec fn collection_type_of(value: Option<Seq<char>>) -> CollectionResourceType {
    match value {
        Some(v) => if v == "omikuji"@ {
            CollectionResourceType::Omikuji
        } else if v == "can_badge"@ {
            CollectionResourceType::CanBadge
        } else if v == "keyholder"@ {
            CollectionResourceType::Keyholder
        } else if v == "acrylic_stand"@ {
            CollectionResourceType::AcrylicStand
        } else if v == "sticker"@ {
            CollectionResourceType::Sticker
        } else if v == "towel"@ {
            CollectionResourceType::Towel
        } else if v == "silver_tape"@ {
            CollectionResourceType::SilverTape
        } else if v == "ticket_holder"@ {
            CollectionResourceType::TicketHolder
        } else if v == "tapestry"@ {
            CollectionResourceType::Tapestry
        } else {
            CollectionResourceType::Plain
        },
        None => CollectionResourceType::Plain,
    }
}

/// The view of an optional string slice.
pub open spec fn opt_str_view(o: Option<&str>) -> Option<Seq<char>> {
    match o {
        Some(s) => Some(s@),
        None => None,
    }
}

/// The view of an optional string.
pub open spec fn opt_string_view(o: Option<String>) -> Option<Seq<char>> {
    match o {
        Some(s) => Some(s@),
        None => None,
    }
}

impl CollectionResourceType {
    /// Reads a master-data value. A missing or unrecognised value is
    /// [`Self::Plain`], which draws like any plain image.
    pub fn parse(value: Option<&str>) -> (r: Self)
        ensures
            r == collection_type_of(opt_str_view(value)),
    {
        match value {
            Some(v) => if str_eq(v, "omikuji") {
                CollectionResourceType::Omikuji
            } else if str_eq(v, "can_badge") {
                CollectionResourceType::CanBadge
            } else if str_eq(v, "keyholder") {
                CollectionResourceType::Keyholder
            } else if str_eq(v, "acrylic_stand") {
                CollectionResourceType::AcrylicStand
            } else if str_eq(v, "sticker") {
                CollectionResourceType::Sticker
            } else if str_eq(v, "towel") {
                CollectionResourceType::Towel
            } else if str_eq(v, "silver_tape") {
                CollectionResourceType::SilverTape
            } else if str_eq(v, "ticket_holder") {
                CollectionResourceType::TicketHolder
            } else if str_eq(v, "tapestry") {
                CollectionResourceType::Tapestry
            } else {
                CollectionResourceType::Plain
            },
            None => CollectionResourceType::Plain,
        }
    }
}

/// One row of a custom-profile resource table.
#[derive(Clone, Debug, PartialEq, Eq)]
pub struct ResourceInfo {
    pub file_name: String,
    pub load_value: String,
    pub resource_type: String,
    /// `customProfileResourceCollectionType` of the row; rows of the other
    /// resource tables carry none.
    pub collection_type: CollectionResourceType,
}

/// One `omikujis` row: the fortune an omikuji collection shows, picked by the
/// element's `targetId`.
#[derive(Clone, Debug, PartialEq, Eq)]
pub struct OmikujiRow {
    pub id: i32,
    /// Unit whose colour the title backgrounds take (`piapro`, `light_sound`,
    /// ...).
    pub unit: String,
    pub summary: String,
    pub title1: String,
    pub description1: String,
    pub title2: String,
    pub description2: String,
    pub title3: String,
    pub description3: String,
    pub fortune_assetbundle_name: String,
    pub fortune_file_path: String,
    pub omikuji_cover_assetbundle_name: String,
    pub omikuji_cover_file_path: String,
}

/// One `cards` row.
#[derive(Clone, Debug, PartialEq, Eq)]
pub struct CardEntry {
    pub id: i32,
    pub asset_bundle_name: String,
    pub card_rarity_type: String,
    pub attr: String,
    pub character_id: i32,
}

/// One level of an `honors` row.
#[derive(Clone, Debug, PartialEq, Eq)]
pub struct HonorLevelEntry {
    pub level: i32,
    pub assetbundle_name: Option<String>,
    pub honor_rarity: Option<String>,
}

/// One `honors` row.
#[derive(Clone, Debug, PartialEq, Eq)]
pub struct HonorEntry {
    pub id: i32,
    pub assetbundle_name: Option<String>,
    pub honor_rarity: Option<String>,
    pub group_id: Option<i32>,
    pub levels: Vec<HonorLevelEntry>,
    pub honor_mission_type: Option<String>,
}

/// A standard honor with its group, ready to draw.
#[derive(Clone, Debug, PartialEq, Eq)]
pub struct ResolvedHonor {
    pub asset_bundle_name: String,
    pub honor_rarity: String,
    pub honor_type: String,
    pub background_asset_bundle_name: Option<String>,
    pub frame_name: Option<String>,
    pub is_live_master: bool,
    pub has_star: bool,
    pub honor_mission_type: Option<String>,
}

/// The characters of a [`ResolvedHonor`].
pub struct ResolvedHonorView {
    pub asset_bundle_name: Seq<char>,
    pub honor_rarity: Seq<char>,
    pub honor_type: Seq<char>,
    pub background_asset_bundle_name: Option<Seq<char>>,
    pub frame_name: Option<Seq<char>>,
    pub is_live_master: bool,
    pub has_star: bool,
    pub honor_mission_type: Option<Seq<char>>,
}

impl View for ResolvedHonor {
    type V = ResolvedHonorView;

    open spec fn view(&self) -> ResolvedHonorView {
        ResolvedHonorView {
            asset_bundle_name: self.asset_bundle_name@,
            honor_rarity: self.honor_rarity@,
            honor_type: self.honor_type@,
            background_asset_bundle_name: opt_string_view(self.background_asset_bundle_name),
            frame_name: opt_string_view(self.frame_name),
            is_live_master: self.is_live_master,
            has_star: self.has_star,
            honor_mission_type: opt_string_view(self.honor_mission_type),
        }
    }
}

/// The bundle that owns a standard honor's degree layer: the group's own
/// background when it names one, the shared cheer-team background for the
/// top honors of limited events, else the honor's bundle.
pub open spec fn effective_background(
    honor_type: Seq<char>,
    asset_bundle_name: Seq<char>,
    background: Option<Seq<char>>,
) -> Seq<char> {
    match background {
        Some(b) if b.len() > 0 => b,
        _ => if honor_type == "limitevent"@ && has_prefix(asset_bundle_name, "honor_top_"@) {
            "honor_bg_event_cheerteam"@
        } else {
            asset_bundle_name
        },
    }
}

/// Resolves the bundle that owns a standard honor's degree layer.
///
/// This is a backend-neutral game-data rule. Native and browser renderers
/// must call it instead of maintaining independent bundle fallbacks.
pub fn effective_honor_background_asset_bundle_name<'a>(
    honor_type: &str,
    asset_bundle_name: &'a str,
    background_asset_bundle_name: Option<&'a str>,
) -> (r: &'a str)
    ensures
        r@ == effective_background(honor_type@, asset_bundle_name@, opt_str_view(background_asset_bundle_name)),
{
    if let Some(background) = background_asset_bundle_name {
        if !background.is_empty() {
            return background;
        }
    }
    if str_eq(honor_type, "limitevent") && str_starts_with(asset_bundle_name, "honor_top_") {
        return "honor_bg_event_cheerteam";
    }
    asset_bundle_name
}

/// Whether a standard honor owns a rank/progress overlay layer.
pub open spec fn rank_overlay(honor_type: Seq<char>, asset_bundle_name: Seq<char>, is_live_master: bool) -> bool {
    is_live_master || honor_type == "rank_match"@ || ((honor_type == "event"@ || honor_type
        == "sekai_echo"@) && asset_bundle_name.len() > 0)
}

/// Returns whether a standard honor owns a rank/progress overlay layer.
///
/// Live Master honors draw their scroll and rank-match honors their rank
/// plate. Otherwise only event and SEKAI ECHO honors draw the `rank_main` /
/// `rank_sub` art of their own bundle; other honor types never show it,
/// whatever their bundle contains.
pub fn honor_has_rank_overlay(honor_type: &str, asset_bundle_name: &str, is_live_master: bool) -> (r: bool)
    ensures
        r == rank_overlay(honor_type@, asset_bundle_name@, is_live_master),
{
    is_live_master || str_eq(honor_type, "rank_match") || ((str_eq(honor_type, "event") || str_eq(
        honor_type,
        "sekai_echo",
    )) && !asset_bundle_name.is_empty())
}

/// Stars drawn for `level`: levels 1 to 10 show that many, and every further
/// ten levels start over at one.
pub open spec fn level_star_count(level: int) -> int {
    if level <= 0 {
        0
    } else {
        (level - 1) % 10 + 1
    }
}

/// Number of level stars drawn for `level`. Levels 1 to 10 show that many
/// stars and higher levels start over, so level 11 shows one star again;
/// the sixth to tenth stars replace the first five with the upgraded star.
pub fn honor_level_star_count(level: i32) -> (r: i32)
    ensures
        r == level_star_count(level as int),
        0 <= r <= 10,
{
    if level <= 0 {
        0
    } else {
        (level - 1) % 10 + 1
    }
}

/// Numeric suffix of an honor rarity in frame and word asset names.
pub open spec fn rarity_number(rarity: Seq<char>) -> u8 {
    if rarity == "low"@ {
        1
    } else if rarity == "middle"@ {
        2
    } else if rarity == "high"@ {
        3
    } else {
        4
    }
}

/// Numeric suffix of an honor rarity in frame and word asset names.
pub fn honor_rarity_number(rarity: &str) -> (r: u8)
    ensures
        r == rarity_number(rarity@),
        1 <= r <= 4,
{
    if str_eq(rarity, "low") {
        1
    } else if str_eq(rarity, "middle") {
        2
    } else if str_eq(rarity, "high") {
        3
    } else {
        4
    }
}


/// Resource identities for one standard honor. Frame candidates are ordered
/// alternatives, not independent requirements: custom first, then default.
#[derive(Clone, Debug, PartialEq, Eq)]
pub struct StandardHonorAssetPlan {
    pub background: ResourceKey,
    pub overlay: Option<ResourceKey>,
    pub frame_candidates: [Option<ResourceKey>; 2],
    pub star: Option<ResourceKey>,
    pub star_high: Option<ResourceKey>,
}

/// The keys of a [`StandardHonorAssetPlan`].
pub struct StandardHonorAssetPlanView {
    pub background: ResourceKeyView,
    pub overlay: Option<ResourceKeyView>,
    pub dedicated_frame: Option<ResourceKeyView>,
    pub shared_frame: Option<ResourceKeyView>,
    pub star: Option<ResourceKeyView>,
    pub star_high: Option<ResourceKeyView>,
}

impl View for StandardHonorAssetPlan {
    type V = StandardHonorAssetPlanView;

    open spec fn view(&self) -> StandardHonorAssetPlanView {
        StandardHonorAssetPlanView {
            background: self.background@,
            overlay: opt_key_view(self.overlay),
            dedicated_frame: opt_key_view(self.frame_candidates@[0]),
            shared_frame: opt_key_view(self.frame_candidates@[1]),
            star: opt_key_view(self.star),
            star_high: opt_key_view(self.star_high),
        }
    }
}

/// The keys of an optional key, as a sequence of zero or one.
pub open spec fn opt_seq(k: Option<ResourceKeyView>) -> Seq<ResourceKeyView> {
    match k {
        Some(k) => seq![k],
        None => Seq::empty(),
    }
}

/// Every key a standard plan can draw, in the order `resources` lists them.
pub open spec fn standard_plan_resources(p: StandardHonorAssetPlanView) -> Seq<ResourceKeyView> {
    seq![p.background] + opt_seq(p.overlay) + opt_seq(p.dedicated_frame) + opt_seq(p.shared_frame)
        + opt_seq(p.star) + opt_seq(p.star_high)
}

fn push_opt(out: &mut Vec<ResourceKey>, k: &Option<ResourceKey>)
    ensures
        final(out)@.map_values(|r: ResourceKey| r@) == old(out)@.map_values(|r: ResourceKey| r@)
            + opt_seq(opt_key_view(*k)),
{
    if let Some(k) = k {
        out.push(k.duplicate());
    }
    assert(final(out)@.map_values(|r: ResourceKey| r@) =~= old(out)@.map_values(|r: ResourceKey| r@)
        + opt_seq(opt_key_view(*k))) by {
        if k.is_some() {
            assert(out@.map_values(|r: ResourceKey| r@) =~= old(out)@.map_values(|r: ResourceKey| r@).push(k.unwrap()@));
        }
    }
}

impl StandardHonorAssetPlan {
    /// All possible source keys, including both sides of the frame fallback.
    pub fn resources(&self) -> (r: Vec<ResourceKey>)
        ensures
            r@.map_values(|k: ResourceKey| k@) == standard_plan_resources(self@),
    {
        let mut out: Vec<ResourceKey> = Vec::new();
        out.push(self.background.duplicate());
        proof {
            assert(out@.map_values(|k: ResourceKey| k@) =~= seq![self.background@]);
        }
        push_opt(&mut out, &self.overlay);
        push_opt(&mut out, &self.frame_candidates[0]);
        push_opt(&mut out, &self.frame_candidates[1]);
        push_opt(&mut out, &self.star);
        push_opt(&mut out, &self.star_high);
        out
    }
}

/// Whether the honor draws the shared level stars.
pub open spec fn draws_level_stars(h: ResolvedHonorView) -> bool {
    h.has_star && !h.is_live_master && !(h.honor_type == "event"@ || h.honor_type == "birthday"@)
}

/// Whether the group's own frame replaces the shared rarity frame.
pub open spec fn uses_dedicated_frame(h: ResolvedHonorView) -> bool {
    &&& h.frame_name is Some
    &&& h.frame_name.unwrap().len() > 0
    &&& if h.honor_type == "birthday"@ {
        rarity_number(h.honor_rarity) >= 2
    } else {
        rarity_number(h.honor_rarity) >= 3
    }
}

/// The directory of a standard honor's bundles.
pub open spec fn honor_directory(h: ResolvedHonorView) -> Seq<char> {
    if h.honor_type == "rank_match"@ {
        "rank_live/honor"@
    } else {
        "honor"@
    }
}

/// `main` for the full-size slot, `sub` for the small one.
pub open spec fn slot_suffix(full_size: bool) -> Seq<char> {
    if full_size {
        "main"@
    } else {
        "sub"@
    }
}

/// `m` for the full-size slot, `s` for the small one.
pub open spec fn size_letter(full_size: bool) -> Seq<char> {
    if full_size {
        "m"@
    } else {
        "s"@
    }
}

/// The rarity digit of frame names.
pub open spec fn rarity_digit(rarity: Seq<char>) -> Seq<char> {
    seq![digit_char(rarity_number(rarity) as nat)]
}

/// The key of the shared frame for a slot size and rarity.
pub open spec fn shared_frame_key(full_size: bool, rarity: Seq<char>) -> ResourceKeyView {
    key_view("static"@, "honor/frame_degree_"@ + size_letter(full_size) + "_"@ + rarity_digit(rarity))
}

/// The keys `asset_plan` gives `h` at `level` in a slot of the given size.
pub open spec fn standard_plan(h: ResolvedHonorView, level: int, full_size: bool) -> StandardHonorAssetPlanView {
    let dir = honor_directory(h);
    let suffix = slot_suffix(full_size);
    let stars = if draws_level_stars(h) { level_star_count(level) } else { 0 };
    StandardHonorAssetPlanView {
        background: key_view(
            "assets"@,
            dir + "/"@ + effective_background(h.honor_type, h.asset_bundle_name, h.background_asset_bundle_name)
                + "/degree_"@ + suffix,
        ),
        overlay: if rank_overlay(h.honor_type, h.asset_bundle_name, h.is_live_master) {
            Some(key_view(
                "assets"@,
                dir + "/"@ + h.asset_bundle_name + "/"@ + if h.honor_type == "rank_match"@ {
                    suffix
                } else if h.is_live_master {
                    "scroll"@
                } else {
                    "rank_"@ + suffix
                },
            ))
        } else {
            None
        },
        dedicated_frame: if uses_dedicated_frame(h) {
            Some(key_view(
                "assets"@,
                "honor_frame/"@ + h.frame_name.unwrap() + "/frame_degree_"@ + size_letter(full_size) + "_"@
                    + rarity_digit(h.honor_rarity),
            ))
        } else {
            None
        },
        shared_frame: Some(shared_frame_key(full_size, h.honor_rarity)),
        star: if stars > 0 { Some(key_view("static"@, "honor/icon_degreeLv"@)) } else { None },
        star_high: if stars > 5 { Some(key_view("static"@, "honor/icon_degreeLv6"@)) } else { None },
    }
}

fn digit(d: u8) -> (c: char)
    requires
        d < 10,
    ensures
        c == digit_char(d as nat),
{
    (d + 48) as char
}

impl ResolvedHonor {
    /// The keys this honor draws at `level` in a full-size or small slot.
    pub fn asset_plan(&self, level: i32, full_size: bool) -> (plan: StandardHonorAssetPlan)
        ensures
            plan@ == standard_plan(self@, level as int, full_size),
    {
        let suffix: &str = if full_size { "main" } else { "sub" };
        let size_char: &str = if full_size { "m" } else { "s" };
        let directory: &str = if str_eq(self.honor_type.as_str(), "rank_match") {
            "rank_live/honor"
        } else {
            "honor"
        };
        let rarity = honor_rarity_number(self.honor_rarity.as_str());
        let rc = digit(rarity);
        let ghost h = self@;
        let dedicated = if self.uses_dedicated_frame() {
            match &self.frame_name {
                Some(name) => {
                    let mut k = String::from_str("honor_frame/");
                    k.append(name.as_str());
                    k.append("/frame_degree_");
                    k.append(size_char);
                    k.append("_");
                    string_push(&mut k, rc);
                    assert(k@ =~= "honor_frame/"@ + h.frame_name.unwrap() + "/frame_degree_"@ + size_letter(full_size)
                        + "_"@ + rarity_digit(h.honor_rarity));
                    Some(ResourceKey::new("assets", k))
                },
                None => None,
            }
        } else {
            None
        };
        let mut shared = String::from_str("honor/frame_degree_");
        shared.append(size_char);
        shared.append("_");
        string_push(&mut shared, rc);
        assert(shared@ =~= "honor/frame_degree_"@ + size_letter(full_size) + "_"@ + rarity_digit(h.honor_rarity));
        let frame_candidates = [dedicated, Some(ResourceKey::new("static", shared))];
        let overlay = if self.has_rank_overlay() {
            let mut k = String::from_str(directory);
            k.append("/");
            k.append(self.asset_bundle_name.as_str());
            k.append("/");
            let ghost prefix = k@;
            if str_eq(self.honor_type.as_str(), "rank_match") {
                k.append(suffix);
            } else if self.is_live_master {
                k.append("scroll");
            } else {
                k.append("rank_");
                k.append(suffix);
                assert(k@ =~= prefix + ("rank_"@ + slot_suffix(full_size)));
            }
            assert(k@ =~= honor_directory(h) + "/"@ + h.asset_bundle_name + "/"@ + if h.honor_type == "rank_match"@ {
                slot_suffix(full_size)
            } else if h.is_live_master {
                "scroll"@
            } else {
                "rank_"@ + slot_suffix(full_size)
            });
            Some(ResourceKey::new("assets", k))
        } else {
            None
        };
        let star_count = if self.draws_level_stars() {
            honor_level_star_count(level)
        } else {
            0
        };
        let mut background = String::from_str(directory);
        background.append("/");
        background.append(self.effective_background_asset_bundle_name());
        background.append("/degree_");
        background.append(suffix);
        assert(background@ =~= honor_directory(h) + "/"@ + effective_background(h.honor_type, h.asset_bundle_name,
            h.background_asset_bundle_name) + "/degree_"@ + slot_suffix(full_size));
        let star = if star_count > 0 {
            Some(ResourceKey::new("static", String::from_str("honor/icon_degreeLv")))
        } else {
            None
        };
        let star_high = if star_count > 5 {
            Some(ResourceKey::new("static", String::from_str("honor/icon_degreeLv6")))
        } else {
            None
        };
        let plan = StandardHonorAssetPlan {
            background: ResourceKey::new("assets", background),
            overlay,
            frame_candidates,
            star,
            star_high,
        };
        proof {
            let want = standard_plan(h, level as int, full_size);
            assert(plan@.background == want.background);
            assert(plan@.overlay == want.overlay);
            assert(plan@.dedicated_frame == want.dedicated_frame);
            assert(plan@.shared_frame == want.shared_frame);
        }
        plan
    }

    /// The bundle that owns this honor's degree layer.
    pub fn effective_background_asset_bundle_name(&self) -> (r: &str)
        ensures
            r@ == effective_background(self.honor_type@, self.asset_bundle_name@, self@.background_asset_bundle_name),
    {
        let background: Option<&str> = match &self.background_asset_bundle_name {
            Some(b) => Some(b.as_str()),
            None => None,
        };
        effective_honor_background_asset_bundle_name(
            self.honor_type.as_str(),
            self.asset_bundle_name.as_str(),
            background,
        )
    }

    /// Whether this honor owns a rank/progress overlay layer.
    pub fn has_rank_overlay(&self) -> (r: bool)
        ensures
            r == rank_overlay(self.honor_type@, self.asset_bundle_name@, self.is_live_master),
    {
        honor_has_rank_overlay(self.honor_type.as_str(), self.asset_bundle_name.as_str(), self.is_live_master)
    }

    /// Whether the honor draws the shared level stars. Single-level honors,
    /// Live Master honors (which show their clear count instead), event
    /// honors and birthday honors (which carry their own level art) draw none.
    pub fn draws_level_stars(&self) -> (r: bool)
        ensures
            r == draws_level_stars(self@),
    {
        self.has_star && !self.is_live_master && !(str_eq(self.honor_type.as_str(), "event") || str_eq(
            self.honor_type.as_str(),
            "birthday",
        ))
    }

    /// Whether the group's own frame replaces the shared rarity frame.
    /// Birthday honors use it from the middle rarity up, every other honor
    /// only at the high and highest rarities.
    pub fn uses_dedicated_frame(&self) -> (r: bool)
        ensures
            r == uses_dedicated_frame(self@),
    {
        let rarity = honor_rarity_number(self.honor_rarity.as_str());
        let named = match &self.frame_name {
            Some(name) => !name.as_str().is_empty(),
            None => false,
        };
        named && if str_eq(self.honor_type.as_str(), "birthday") {
            rarity >= 2
        } else {
            rarity >= 3
        }
    }
}

/// Resource identities for one bonds honor.
#[derive(Clone, Debug, PartialEq, Eq)]
pub struct BondsHonorAssetPlan {
    /// Character units in draw order after the optional virtual-singer
    /// substitution, which only affects the character art.
    pub character_ids: [i32; 2],
    /// Left and right background halves, keyed by the listed character units.
    pub backgrounds: [ResourceKey; 2],
    pub characters: [ResourceKey; 2],
    pub mask: ResourceKey,
    pub frame: ResourceKey,
    /// Word art; only the full-size slot shows it.
    pub word: Option<ResourceKey>,
    pub star: ResourceKey,
    pub star_high: ResourceKey,
}

/// The keys of a [`BondsHonorAssetPlan`].
pub struct BondsHonorAssetPlanView {
    pub character_ids: (i32, i32),
    pub backgrounds: (ResourceKeyView, ResourceKeyView),
    pub characters: (ResourceKeyView, ResourceKeyView),
    pub mask: ResourceKeyView,
    pub frame: ResourceKeyView,
    pub word: Option<ResourceKeyView>,
    pub star: ResourceKeyView,
    pub star_high: ResourceKeyView,
}

impl View for BondsHonorAssetPlan {
    type V = BondsHonorAssetPlanView;

    open spec fn view(&self) -> BondsHonorAssetPlanView {
        BondsHonorAssetPlanView {
            character_ids: (self.character_ids@[0], self.character_ids@[1]),
            backgrounds: (self.backgrounds@[0]@, self.backgrounds@[1]@),
            characters: (self.characters@[0]@, self.characters@[1]@),
            mask: self.mask@,
            frame: self.frame@,
            word: opt_key_view(self.word),
            star: self.star@,
            star_high: self.star_high@,
        }
    }
}

/// Every key a bonds plan can draw, in the order `resources` lists them.
pub open spec fn bonds_plan_resources(p: BondsHonorAssetPlanView) -> Seq<ResourceKeyView> {
    seq![p.backgrounds.0, p.backgrounds.1, p.characters.0, p.characters.1, p.mask, p.frame] + opt_seq(
        p.word,
    ) + seq![p.star, p.star_high]
}

impl BondsHonorAssetPlan {
    /// Every source key the honor can draw.
    pub fn resources(&self) -> (r: Vec<ResourceKey>)
        ensures
            r@.map_values(|k: ResourceKey| k@) == bonds_plan_resources(self@),
    {
        let mut out: Vec<ResourceKey> = Vec::new();
        out.push(self.backgrounds[0].duplicate());
        out.push(self.backgrounds[1].duplicate());
        out.push(self.characters[0].duplicate());
        out.push(self.characters[1].duplicate());
        out.push(self.mask.duplicate());
        out.push(self.frame.duplicate());
        let ghost head = out@.map_values(|k: ResourceKey| k@);
        assert(head =~= seq![self@.backgrounds.0, self@.backgrounds.1, self@.characters.0, self@.characters.1,
            self@.mask, self@.frame]);
        push_opt(&mut out, &self.word);
        let ghost middle = out@.map_values(|k: ResourceKey| k@);
        out.push(self.star.duplicate());
        out.push(self.star_high.duplicate());
        proof {
            assert(out@.map_values(|k: ResourceKey| k@) =~= middle + seq![self@.star, self@.star_high]);
            assert(out@.map_values(|k: ResourceKey| k@) =~= bonds_plan_resources(self@));
        }
        out
    }
}

/// One `bondsHonors` row.
#[derive(Clone, Debug, PartialEq, Eq)]
pub struct BondsHonorEntry {
    pub id: i32,
    pub game_character_unit_id1: i32,
    pub game_character_unit_id2: i32,
    pub honor_rarity: String,
}

/// One `bondsHonorWords` row.
#[derive(Clone, Debug, PartialEq, Eq)]
pub struct BondsHonorWordEntry {
    pub id: i64,
    pub assetbundle_name: String,
}

/// The background half keyed by a character unit.
pub open spec fn bonds_background_key(unit: i32, full_size: bool) -> ResourceKeyView {
    key_view(
        "static"@,
        "honor/bonds/"@ + padded_decimal(unit as int, 0) + if full_size {
            Seq::empty()
        } else {
            "_sub"@
        },
    )
}

/// The character art of a character unit.
pub open spec fn bonds_character_key(unit: i32) -> ResourceKeyView {
    key_view("assets"@, "bonds_honor/chr_sd_"@ + padded_decimal(unit as int, 2) + "_01"@)
}

/// The keys of a bonds honor whose units are `first` and `second` in draw
/// order, whose character art shows `character_ids`, of `rarity`, with the
/// word bundle `word` when one was found.
pub open spec fn bonds_plan(
    first: i32,
    second: i32,
    character_ids: (i32, i32),
    rarity: Seq<char>,
    word: Option<Seq<char>>,
    full_size: bool,
) -> BondsHonorAssetPlanView {
    BondsHonorAssetPlanView {
        character_ids,
        backgrounds: (bonds_background_key(first, full_size), bonds_background_key(second, full_size)),
        characters: (bonds_character_key(character_ids.0), bonds_character_key(character_ids.1)),
        mask: key_view("static"@, "honor/mask_degree_"@ + slot_suffix(full_size)),
        frame: shared_frame_key(full_size, rarity),
        word: match word {
            Some(w) if full_size => Some(
                key_view(
                    "assets"@,
                    "bonds_honor/word/"@ + w + "_"@ + padded_decimal(rarity_number(rarity) as int, 2),
                ),
            ),
            _ => None,
        },
        star: key_view("static"@, "honor/icon_degreeLv"@),
        star_high: key_view("static"@, "honor/icon_degreeLv6"@),
    }
}

fn bonds_background(unit: i32, full_size: bool) -> (k: ResourceKey)
    ensures
        k@ == bonds_background_key(unit, full_size),
{
    let mut key = String::from_str("honor/bonds/");
    push_padded_decimal(&mut key, unit as i64, 0);
    if !full_size {
        key.append("_sub");
    }
    ResourceKey::new("static", key)
}

fn bonds_character(unit: i32) -> (k: ResourceKey)
    ensures
        k@ == bonds_character_key(unit),
{
    let mut key = String::from_str("bonds_honor/chr_sd_");
    push_padded_decimal(&mut key, unit as i64, 2);
    key.append("_01");
    ResourceKey::new("assets", key)
}

/// Plans the keys of one bonds honor from its row's fields: the units in
/// draw order, the units whose character art is shown, the rarity and, for
/// a full-size slot, the word bundle that was found.
pub fn plan_bonds_honor(
    first: i32,
    second: i32,
    character_ids: [i32; 2],
    honor_rarity: &str,
    word: Option<&str>,
    full_size: bool,
) -> (plan: BondsHonorAssetPlan)
    ensures
        plan@ == bonds_plan(
            first,
            second,
            (character_ids@[0], character_ids@[1]),
            honor_rarity@,
            opt_str_view(word),
            full_size,
        ),
{
    let rarity = honor_rarity_number(honor_rarity);
    let slot: &str = if full_size { "main" } else { "sub" };
    let size_char: &str = if full_size { "m" } else { "s" };
    let mut mask = String::from_str("honor/mask_degree_");
    mask.append(slot);
    let mut frame = String::from_str("honor/frame_degree_");
    frame.append(size_char);
    frame.append("_");
    string_push(&mut frame, digit(rarity));
    assert(frame@ =~= "honor/frame_degree_"@ + size_letter(full_size) + "_"@ + rarity_digit(honor_rarity@));
    let word_key = match word {
        Some(w) => if full_size {
            let mut k = String::from_str("bonds_honor/word/");
            k.append(w);
            k.append("_");
            push_padded_decimal(&mut k, rarity as i64, 2);
            Some(ResourceKey::new("assets", k))
        } else {
            None
        },
        None => None,
    };
    let plan = BondsHonorAssetPlan {
        character_ids,
        backgrounds: [bonds_background(first, full_size), bonds_background(second, full_size)],
        characters: [bonds_character(character_ids[0]), bonds_character(character_ids[1])],
        mask: ResourceKey::new("static", mask),
        frame: ResourceKey::new("static", frame),
        word: word_key,
        star: ResourceKey::new("static", String::from_str("honor/icon_degreeLv")),
        star_high: ResourceKey::new("static", String::from_str("honor/icon_degreeLv6")),
    };
    plan
}

/// Font id drawn for a text element whose `fontId` has no
/// `customProfileTextFonts` row. The game keeps the text component's default
/// font in that case; font 1 stands in for it.
pub const DEFAULT_TEXT_FONT_ID: i32 = 1;

/// The master-data queries profile resolution makes. Each backend implements
/// it over its own tables.
pub trait ProfileMasterData {
    fn resolve_story_banner(&self, story_type: &str, story_id: i32) -> Option<String>;

    fn get_card(&self, card_id: i32) -> Option<CardEntry>;

    fn resolve_color(&self, color_id: i32) -> Option<ResolvedColor>;

    /// Colour of the first `customProfileTextColors` row, or `None` when the
    /// table is empty or not loaded.
    fn default_color(&self) -> (r: Option<ResolvedColor>)
        default_ensures
            r is None,
    {
        None
    }

    /// Colour a text or shape element draws with. A `colorId` the table does
    /// not contain uses the table's first row, as the game does.
    fn resolve_color_or_default(&self, color_id: i32) -> (r: Option<ResolvedColor>)
        default_ensures
            exists|color: Option<ResolvedColor>|
                {
                    &&& #[trigger] call_ensures(Self::resolve_color, (self, color_id), color)
                    &&& match color {
                        Some(_) => r == color,
                        None => call_ensures(Self::default_color, (self,), r),
                    }
                },
    {
        match self.resolve_color(color_id) {
            Some(color) => Some(color),
            None => self.default_color(),
        }
    }

    fn resolve_font(&self, font_id: i32) -> Option<String>;

    /// Font family a text element draws with. A `fontId` the table does not
    /// contain keeps the default face ([`DEFAULT_TEXT_FONT_ID`]) instead of
    /// failing the element.
    fn resolve_font_or_default(&self, font_id: i32) -> (r: Option<String>)
        default_ensures
            exists|font: Option<String>|
                {
                    &&& #[trigger] call_ensures(Self::resolve_font, (self, font_id), font)
                    &&& match font {
                        Some(_) => r == font,
                        None => call_ensures(Self::resolve_font, (self, DEFAULT_TEXT_FONT_ID), r),
                    }
                },
    {
        match self.resolve_font(font_id) {
            Some(font) => Some(font),
            None => self.resolve_font(DEFAULT_TEXT_FONT_ID),
        }
    }

    fn resolve_stamp(&self, stamp_id: i32) -> Option<String>;

    fn resolve_resource(&self, resource_type: &str, id: i32) -> Option<ResourceInfo>;

    fn resolve_honor(&self, honor_id: i32, honor_level: i32) -> Option<ResolvedHonor>;

    fn get_bonds_honor(&self, id: i32) -> Option<BondsHonorEntry>;

    fn get_bonds_honor_word(&self, id: i64) -> Option<BondsHonorWordEntry>;

    fn resolve_unit_virtual_singer(&self, self_id: i32, partner_id: i32) -> i32;

    fn resolve_localized_text(&self, key: &str) -> (r: Option<String>)
        default_ensures
            r is None,
    {
        None
    }

    /// The `omikujis` row `id`, or `None` when the table or the row is
    /// missing (the table is optional) or the row lacks a field.
    fn resolve_omikuji(&self, id: i32) -> (r: Option<OmikujiRow>)
        default_ensures
            r is None,
    {
        None
    }
}

/// Plans the resources of one bonds honor, or `None` when the master data
/// does not list it.
///
/// The honor's units are taken in row order, or swapped when `inverse`; with
/// `use_unit_virtual_singer` each unit's character art is substituted as
/// `masterdata` resolves it against the other unit. The word is looked up
/// only for a full-size slot.
pub fn bonds_honor_asset_plan<M: ProfileMasterData>(
    masterdata: &M,
    bonds_honor_id: i32,
    full_size: bool,
    word_id: i64,
    inverse: bool,
    use_unit_virtual_singer: bool,
) -> (r: Option<BondsHonorAssetPlan>)
    ensures
        exists|entry: Option<BondsHonorEntry>|
            {
                &&& #[trigger] call_ensures(M::get_bonds_honor, (masterdata, bonds_honor_id), entry)
                &&& match entry {
                    None => r is None,
                    Some(e) => exists|ids: (i32, i32), word: Option<Seq<char>>|
                        {
                            &&& r is Some
                            &&& r.unwrap()@ == #[trigger] bonds_plan(
                                unit_pair(e, inverse).0,
                                unit_pair(e, inverse).1,
                                ids,
                                e.honor_rarity@,
                                word,
                                full_size,
                            )
                            &&& if use_unit_virtual_singer {
                                &&& call_ensures(
                                    M::resolve_unit_virtual_singer,
                                    (masterdata, unit_pair(e, inverse).0, unit_pair(e, inverse).1),
                                    ids.0,
                                )
                                &&& call_ensures(
                                    M::resolve_unit_virtual_singer,
                                    (masterdata, unit_pair(e, inverse).1, unit_pair(e, inverse).0),
                                    ids.1,
                                )
                            } else {
                                ids == unit_pair(e, inverse)
                            }
                            &&& if full_size {
                                exists|w: Option<BondsHonorWordEntry>|
                                    {
                                        &&& #[trigger] call_ensures(M::get_bonds_honor_word, (masterdata, word_id), w)
                                        &&& word == word_name(w)
                                    }
                            } else {
                                word is None
                            }
                        },
                }
            },
{
    let entry = match masterdata.get_bonds_honor(bonds_honor_id) {
        Some(entry) => entry,
        None => return None,
    };
    let ghost found = Some(entry);
    let (first, second) = if inverse {
        (entry.game_character_unit_id2, entry.game_character_unit_id1)
    } else {
        (entry.game_character_unit_id1, entry.game_character_unit_id2)
    };
    assert((first, second) == unit_pair(entry, inverse));
    let character_ids = if use_unit_virtual_singer {
        [
            masterdata.resolve_unit_virtual_singer(first, second),
            masterdata.resolve_unit_virtual_singer(second, first),
        ]
    } else {
        [first, second]
    };
    let word_entry = if full_size {
        let w = masterdata.get_bonds_honor_word(word_id);
        assert(call_ensures(M::get_bonds_honor_word, (masterdata, word_id), w));
        w
    } else {
        None
    };
    let word: Option<&str> = match &word_entry {
        Some(w) => Some(w.assetbundle_name.as_str()),
        None => None,
    };
    assert(opt_str_view(word) == word_name(word_entry));
    let plan = plan_bonds_honor(first, second, character_ids, entry.honor_rarity.as_str(), word, full_size);
    let r = Some(plan);
    proof {
        let ids = (character_ids@[0], character_ids@[1]);
        let wv = opt_str_view(word);
        assert(r.unwrap()@ == bonds_plan(
            unit_pair(entry, inverse).0,
            unit_pair(entry, inverse).1,
            ids,
            entry.honor_rarity@,
            wv,
            full_size,
        ));
    }
    r
}

/// The two character units of a bonds honor, in row order or swapped.
pub open spec fn unit_pair(entry: BondsHonorEntry, inverse: bool) -> (i32, i32) {
    if inverse {
        (entry.game_character_unit_id2, entry.game_character_unit_id1)
    } else {
        (entry.game_character_unit_id1, entry.game_character_unit_id2)
    }
}

/// The word art a bonds-honor word row names, if there is a row.
pub open spec fn word_name(word: Option<BondsHonorWordEntry>) -> Option<Seq<char>> {
    match word {
        Some(w) => Some(w.assetbundle_name@),
        None => None,
    }
}

/// Why a master-data table was refused.
#[derive(Clone, Debug, PartialEq, Eq)]
pub enum MasterDataError {
    /// The table is neither a JSON array nor a JSON object.
    InvalidTable { table: String },
    /// The table's text is not JSON.
    InvalidJson { table: String },
}

impl MasterDataError {
    /// The message this error reads as.
    pub fn message(&self) -> (m: String)
        ensures
            m@ == match self {
                MasterDataError::InvalidTable { table } => "master-data table "@ + table@
                    + " is not a JSON array or object"@,
                MasterDataError::InvalidJson { table } => "master-data table "@ + table@ + " is not JSON text"@,
            },
    {
        match self {
            MasterDataError::InvalidTable { table } => {
                let mut m = String::from_str("master-data table ");
                m.append(table.as_str());
                m.append(" is not a JSON array or object");
                m
            },
            MasterDataError::InvalidJson { table } => {
                let mut m = String::from_str("master-data table ");
                m.append(table.as_str());
                m.append(" is not JSON text");
                m
            },
        }
    }
}

/// The text fields of an `honorGroups` row that honors read, each as the row
/// holds it when it is a string.
#[derive(Clone, Debug, PartialEq, Eq)]
pub struct HonorGroupEntry {
    pub honor_type: Option<String>,
    pub background_asset_bundle_name: Option<String>,
    pub frame_name: Option<String>,
}

/// A group text field: absent and empty values alike are `None`.
pub open spec fn group_text(field: Option<Seq<char>>) -> Option<Seq<char>> {
    match field {
        Some(v) if v.len() > 0 => Some(v),
        _ => None,
    }
}

/// Index of the first level entry at or after `i` whose level is `level`.
pub open spec fn find_level(levels: Seq<HonorLevelEntry>, level: i32, i: int) -> Option<int>
    decreases levels.len() - i,
{
    if i >= levels.len() {
        None
    } else if levels[i].level == level {
        Some(i)
    } else {
        find_level(levels, level, i + 1)
    }
}

/// The level entry an honor at `level` draws: the entry for that level, else
/// the last known one (master data can lag behind player progress).
pub open spec fn chosen_level(levels: Seq<HonorLevelEntry>, level: i32) -> Option<int> {
    match find_level(levels, level, 0) {
        Some(i) => Some(i),
        None => if levels.len() > 0 {
            Some(levels.len() - 1)
        } else {
            None
        },
    }
}

/// The string or the empty string.
pub open spec fn or_empty(o: Option<Seq<char>>) -> Seq<char> {
    match o {
        Some(s) => s,
        None => Seq::empty(),
    }
}

/// The string or `fallback`.
pub open spec fn or_text(o: Option<Seq<char>>, fallback: Seq<char>) -> Seq<char> {
    match o {
        Some(s) => s,
        None => fallback,
    }
}

/// What `resolve_honor_entry` makes of an `honors` row and its group.
pub open spec fn resolved_honor(honor: HonorEntry, group: Option<HonorGroupEntry>, honor_level: i32) -> ResolvedHonorView {
    let live = honor.honor_mission_type is Some && honor.assetbundle_name is None;
    let levels = honor.levels@;
    let level = chosen_level(levels, honor_level);
    let field = |f: Option<String>| group_text(opt_string_view(f));
    ResolvedHonorView {
        asset_bundle_name: if live {
            match level {
                Some(i) => or_empty(opt_string_view(levels[i].assetbundle_name)),
                None => Seq::empty(),
            }
        } else {
            or_empty(opt_string_view(honor.assetbundle_name))
        },
        honor_rarity: if live {
            match level {
                Some(i) => or_text(opt_string_view(levels[i].honor_rarity), "low"@),
                None => "low"@,
            }
        } else {
            or_text(opt_string_view(honor.honor_rarity), "low"@)
        },
        honor_type: match group {
            Some(g) => or_text(field(g.honor_type), "normal"@),
            None => "normal"@,
        },
        background_asset_bundle_name: match group {
            Some(g) => field(g.background_asset_bundle_name),
            None => None,
        },
        frame_name: match group {
            Some(g) => field(g.frame_name),
            None => None,
        },
        is_live_master: live,
        has_star: levels.len() > 1,
        honor_mission_type: opt_string_view(honor.honor_mission_type),
    }
}

fn clone_opt(o: &Option<String>) -> (r: Option<String>)
    ensures
        opt_string_view(r) == opt_string_view(*o),
{
    match o {
        Some(s) => Some(s.clone()),
        None => None,
    }
}

fn group_field(o: &Option<String>) -> (r: Option<String>)
    ensures
        opt_string_view(r) == group_text(opt_string_view(*o)),
{
    match o {
        Some(s) => if s.as_str().is_empty() {
            None
        } else {
            Some(s.clone())
        },
        None => None,
    }
}

fn text_or(o: Option<String>, fallback: &str) -> (r: String)
    ensures
        r@ == or_text(opt_string_view(o), fallback@),
{
    match o {
        Some(s) => s,
        None => fallback.to_owned(),
    }
}

/// Resolves one `honors` row and the text fields of its `honorGroups` row
/// into render inputs.
///
/// A Live Master honor (a mission type and no bundle of its own) takes its
/// bundle and rarity from the level entry for `honor_level`, or from the
/// last listed level when master data does not know that level yet. Missing
/// rarities read as `low`, a missing honor type as `normal`, and empty group
/// fields as absent.
pub fn resolve_honor_entry(honor: &HonorEntry, group: Option<&HonorGroupEntry>, honor_level: i32) -> (r: ResolvedHonor)
    ensures
        r@ == resolved_honor(
            *honor,
            match group {
                Some(g) => Some(*g),
                None => None,
            },
            honor_level,
        ),
{
    let live = honor.honor_mission_type.is_some() && honor.assetbundle_name.is_none();
    let ghost levels = honor.levels@;
    let mut i: usize = 0;
    let mut found: Option<usize> = None;
    while i < honor.levels.len()
        invariant
            levels == honor.levels@,
            i <= levels.len(),
            found is None ==> find_level(levels, honor_level, 0) == find_level(levels, honor_level, i as int),
            found is Some ==> find_level(levels, honor_level, 0) == Some(found.unwrap() as int),
            found is Some ==> found.unwrap() < levels.len(),
        decreases honor.levels.len() - i + if found is None { 1int } else { 0int },
    {
        if found.is_none() && honor.levels[i].level == honor_level {
            found = Some(i);
        }
        i = i + 1;
    }
    let level: Option<usize> = match found {
        Some(k) => Some(k),
        None => if honor.levels.len() > 0 {
            Some(honor.levels.len() - 1)
        } else {
            None
        },
    };
    assert(match level {
        Some(k) => chosen_level(levels, honor_level) == Some(k as int),
        None => chosen_level(levels, honor_level) is None,
    });
    let asset_bundle_name = if live {
        match level {
            Some(k) => text_or(clone_opt(&honor.levels[k].assetbundle_name), ""),
            None => String::new(),
        }
    } else {
        text_or(clone_opt(&honor.assetbundle_name), "")
    };
    let honor_rarity = if live {
        match level {
            Some(k) => text_or(clone_opt(&honor.levels[k].honor_rarity), "low"),
            None => String::from_str("low"),
        }
    } else {
        text_or(clone_opt(&honor.honor_rarity), "low")
    };
    let (honor_type, background, frame) = match group {
        Some(g) => (
            text_or(group_field(&g.honor_type), "normal"),
            group_field(&g.background_asset_bundle_name),
            group_field(&g.frame_name),
        ),
        None => (String::from_str("normal"), None, None),
    };
    let r = ResolvedHonor {
        asset_bundle_name,
        honor_rarity,
        honor_type,
        background_asset_bundle_name: background,
        frame_name: frame,
        is_live_master: live,
        has_star: honor.levels.len() > 1,
        honor_mission_type: clone_opt(&honor.honor_mission_type),
    };
    proof {
        reveal_strlit("");
        assert(""@ =~= Seq::<char>::empty());
        let g2 = match group {
            Some(g) => Some(*g),
            None => None,
        };
        let want = resolved_honor(*honor, g2, honor_level);
        assert(r@.asset_bundle_name == want.asset_bundle_name);
        assert(r@.honor_rarity == want.honor_rarity);
        assert(r@.honor_type == want.honor_type);
        assert(r@.background_asset_bundle_name == want.background_asset_bundle_name);
        assert(r@.frame_name == want.frame_name);
        assert(r@.has_star == want.has_star);
    }
    r
}

/// The canonical region of a lowercased, trimmed region code or locale tag;
/// unknown values stay as they are.
pub open spec fn canonical_region(r: Seq<char>) -> Seq<char> {
    if r == "cn"@ || r == "sc"@ || r == "zh-cn"@ || r == "zh-hans"@ {
        "cn"@
    } else if r == "jp"@ || r == "ja"@ || r == "ja-jp"@ {
        "jp"@
    } else if r == "tw"@ || r == "tc"@ || r == "zh-tw"@ || r == "zh-hant"@ {
        "tw"@
    } else if r == "en"@ || r == "world"@ || r == "en-us"@ || r == "en-gb"@ {
        "en"@
    } else if r == "kr"@ || r == "ko"@ || r == "ko-kr"@ {
        "kr"@
    } else {
        r
    }
}

/// Canonicalizes a region code or locale tag to one of `cn`, `jp`, `tw`, `en`
/// or `kr`, ignoring case and surrounding whitespace. This is the only region
/// alias table: the CN font-name mapping and the locale catalogs both use it.
/// Unknown values are returned lowercased.
pub fn normalize_region(region: &str) -> (r: String)
    ensures
        r@ == canonical_region(lower_ascii_seq(trim_spec(region@))),
{
    let v = trimmed_lower(region);
    let s = v.as_slice();
    if chars_eq_str(s, "cn") || chars_eq_str(s, "sc") || chars_eq_str(s, "zh-cn") || chars_eq_str(s, "zh-hans") {
        String::from_str("cn")
    } else if chars_eq_str(s, "jp") || chars_eq_str(s, "ja") || chars_eq_str(s, "ja-jp") {
        String::from_str("jp")
    } else if chars_eq_str(s, "tw") || chars_eq_str(s, "tc") || chars_eq_str(s, "zh-tw") || chars_eq_str(s, "zh-hant") {
        String::from_str("tw")
    } else if chars_eq_str(s, "en") || chars_eq_str(s, "world") || chars_eq_str(s, "en-us") || chars_eq_str(s, "en-gb") {
        String::from_str("en")
    } else if chars_eq_str(s, "kr") || chars_eq_str(s, "ko") || chars_eq_str(s, "ko-kr") {
        String::from_str("kr")
    } else {
        crate::unicode::string_from_chars(s)
    }
}

/// Level stars repeat every ten levels: a positive level shows as many
/// stars as the level ten higher, between one and ten of them.
pub proof fn law_level_stars_repeat_every_ten_levels(level: int)
    requires
        level > 0,
    ensures
        level_star_count(level + 10) == level_star_count(level),
        1 <= level_star_count(level) <= 10,
{
}

/// The upgraded star is requested exactly when more than five stars are
/// drawn, and then the plain star is requested too.
pub proof fn law_upgraded_star_needs_six_stars(h: ResolvedHonorView, level: int, full_size: bool)
    ensures
        standard_plan(h, level, full_size).star_high is Some <==> (draws_level_stars(h) && level_star_count(level)
            > 5),
        standard_plan(h, level, full_size).star_high is Some ==> standard_plan(h, level, full_size).star is Some,
{
}

/// The shared rarity frame is always a candidate, after the group's own
/// frame when that one is used.
pub proof fn law_shared_frame_is_always_a_candidate(h: ResolvedHonorView, level: int, full_size: bool)
    ensures
        standard_plan(h, level, full_size).shared_frame == Some(shared_frame_key(full_size, h.honor_rarity)),
        standard_plan(h, level, full_size).dedicated_frame is Some <==> uses_dedicated_frame(h),
{
}

/// Substituting virtual singers changes only the character art of a bonds
/// honor: every other key stays the same.
pub proof fn law_substitution_changes_only_character_art(
    first: i32,
    second: i32,
    ids: (i32, i32),
    other_ids: (i32, i32),
    rarity: Seq<char>,
    word: Option<Seq<char>>,
    full_size: bool,
)
    ensures
        ({
            let a = bonds_plan(first, second, ids, rarity, word, full_size);
            let b = bonds_plan(first, second, other_ids, rarity, word, full_size);
            &&& a.backgrounds == b.backgrounds
            &&& a.mask == b.mask
            &&& a.frame == b.frame
            &&& a.word == b.word
            &&& a.star == b.star
            &&& a.star_high == b.star_high
        }),
{
}

/// Only a full-size slot shows the word art of a bonds honor.
pub proof fn law_small_bonds_slots_show_no_word(
    first: i32,
    second: i32,
    ids: (i32, i32),
    rarity: Seq<char>,
    word: Option<Seq<char>>,
)
    ensures
        bonds_plan(first, second, ids, rarity, word, false).word is None,
        bonds_plan(first, second, ids, rarity, word, true).word is Some <==> word is Some,
{
}

/// Region names are canonical: normalizing a normalized region gives it
/// back.
pub proof fn law_normalize_region_is_idempotent(region: Seq<char>)
    ensures
        canonical_region(lower_ascii_seq(trim_spec(canonical_region(lower_ascii_seq(trim_spec(region))))))
            == canonical_region(lower_ascii_seq(trim_spec(region))),
{
    let r = lower_ascii_seq(trim_spec(region));
    crate::text::lemma_trim_lower_is_stable(region);
    let c = canonical_region(r);
    if c == r {
        assert(lower_ascii_seq(trim_spec(c)) == r);
    } else {
        reveal_strlit("cn");
        reveal_strlit("sc");
        reveal_strlit("zh-cn");
        reveal_strlit("zh-hans");
        reveal_strlit("jp");
        reveal_strlit("ja");
        reveal_strlit("ja-jp");
        reveal_strlit("tw");
        reveal_strlit("tc");
        reveal_strlit("zh-tw");
        reveal_strlit("zh-hant");
        reveal_strlit("en");
        reveal_strlit("world");
        reveal_strlit("en-us");
        reveal_strlit("en-gb");
        reveal_strlit("kr");
        reveal_strlit("ko");
        reveal_strlit("ko-kr");
        crate::text::lemma_plain_lower_word(c);
        assert(lower_ascii_seq(trim_spec(c)) == c);
        assert(canonical_region(c) == c);
    }
}


/// An event or SEKAI ECHO honor that draws a rank overlay draws its own
/// bundle's `rank_main` art in a full-size slot and its `rank_sub` art in a
/// small one, so the two slots name different overlays.
pub proof fn law_rank_overlay_names_its_slot(h: ResolvedHonorView, level: int)
    requires
        h.honor_type == "event"@ || h.honor_type == "sekai_echo"@,
        !h.is_live_master,
        h.asset_bundle_name.len() > 0,
    ensures
        standard_plan(h, level, true).overlay == Some(
            key_view("assets"@, "honor/"@ + h.asset_bundle_name + "/rank_main"@),
        ),
        standard_plan(h, level, false).overlay == Some(
            key_view("assets"@, "honor/"@ + h.asset_bundle_name + "/rank_sub"@),
        ),
        standard_plan(h, level, true).overlay != standard_plan(h, level, false).overlay,
{
    reveal_strlit("event");
    reveal_strlit("sekai_echo");
    reveal_strlit("rank_match");
    reveal_strlit("honor");
    reveal_strlit("honor/");
    reveal_strlit("/");
    reveal_strlit("main");
    reveal_strlit("sub");
    reveal_strlit("rank_");
    reveal_strlit("/rank_main");
    reveal_strlit("/rank_sub");
    assert(h.honor_type != "rank_match"@) by {
        if h.honor_type == "event"@ {
            assert(h.honor_type.len() != "rank_match"@.len());
        } else {
            assert(h.honor_type[0] != "rank_match"@[0]);
        }
    }
    let full = standard_plan(h, level, true).overlay.unwrap().key;
    let small = standard_plan(h, level, false).overlay.unwrap().key;
    assert(full =~= "honor/"@ + h.asset_bundle_name + "/rank_main"@);
    assert(small =~= "honor/"@ + h.asset_bundle_name + "/rank_sub"@);
    assert(full.len() != small.len());
}


/// A rank-match honor draws its bundle's plate, `main` in a full-size slot
/// and `sub` in a small one, from the rank-live directory; a Live Master
/// honor of another type draws its bundle's scroll in either slot.
pub proof fn law_rank_match_plate_and_live_master_scroll(h: ResolvedHonorView, level: int, full_size: bool)
    ensures
        h.honor_type == "rank_match"@ ==> standard_plan(h, level, full_size).overlay == Some(
            key_view(
                "assets"@,
                "rank_live/honor/"@ + h.asset_bundle_name + if full_size {
                    "/main"@
                } else {
                    "/sub"@
                },
            ),
        ),
        h.honor_type != "rank_match"@ && h.is_live_master ==> standard_plan(h, level, full_size).overlay == Some(
            key_view("assets"@, "honor/"@ + h.asset_bundle_name + "/scroll"@),
        ),
{
    reveal_strlit("rank_match");
    reveal_strlit("rank_live/honor");
    reveal_strlit("rank_live/honor/");
    reveal_strlit("honor");
    reveal_strlit("honor/");
    reveal_strlit("/");
    reveal_strlit("main");
    reveal_strlit("sub");
    reveal_strlit("/main");
    reveal_strlit("/sub");
    reveal_strlit("scroll");
    reveal_strlit("/scroll");
    if h.honor_type == "rank_match"@ {
        let k = standard_plan(h, level, full_size).overlay.unwrap().key;
        assert(k =~= "rank_live/honor/"@ + h.asset_bundle_name + if full_size {
            "/main"@
        } else {
            "/sub"@
        });
    } else if h.is_live_master {
        let k = standard_plan(h, level, full_size).overlay.unwrap().key;
        assert(k =~= "honor/"@ + h.asset_bundle_name + "/scroll"@);
    }
}

} // verus!
