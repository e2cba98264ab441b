//! Profile resolution rules that do not depend on layout: the artwork a card
//! member draws, what is known of a resource, and the errors resolution
//! reports.

use vstd::prelude::*;

use crate::profile_data::{MusicDifficultyStats, MusicResults};
use crate::masterdata::{CardEntry, ProfileMasterData, ResourceInfo};
use crate::profile_scene::{
    resource_lookup_key, resource_lookup_key_spec, MusicDifficultySnapshot, MusicResultsSnapshot, ProfileResolveError,
};
use crate::resource::{key_view, ResourceKey};
use crate::text::push_padded_decimal;
use vstd::string::StringExecFns;

verus! {

broadcast use vstd::string::group_string_axioms;

/// Whether a resource is known to exist.
#[derive(Clone, Copy, Debug, Default, Eq, PartialEq, Structural)]
pub enum ResourceAvailability {
    #[default]
    Unknown,
    Available,
    Unavailable,
}

/// Complete renderer-owned text input used only to derive the glyph set.
/// This also includes component, profile, master-data, and localized text
/// emitted by semantic commands.
#[derive(Clone, Debug, PartialEq)]
pub struct ProfileGlyphPreparation {
    pub text: String,
    pub font_id: i32,
    pub font_family: String,
}

/// Why an authored profile could not be resolved.
#[derive(Clone, Debug, PartialEq)]
pub enum AuthoredProfileResolveError {
    /// Master data did not resolve a font id.
    MissingFont(i32),
    /// A resolved text command names a layer without a matrix.
    MissingLayerMatrix(String),
    /// The scene could not be resolved.
    Scene(ProfileResolveError),
}

impl AuthoredProfileResolveError {
    /// The message this error reads as; a scene error reads as its own.
    pub fn message(&self) -> (m: String)
        ensures
            match self {
                AuthoredProfileResolveError::MissingFont(id) => m@ == "master data did not resolve font id "@
                    + crate::text::padded_decimal(*id as int, 0),
                AuthoredProfileResolveError::MissingLayerMatrix(layer) => m@
                    == "resolved text command references missing layer matrix "@ + layer@,
                AuthoredProfileResolveError::Scene(scene) => m@ == scene.message_spec(),
            },
    {
        match self {
            AuthoredProfileResolveError::MissingFont(id) => {
                let mut m = String::from_str("master data did not resolve font id ");
                push_padded_decimal(&mut m, *id as i64, 0);
                m
            },
            AuthoredProfileResolveError::MissingLayerMatrix(layer) => {
                let mut m = String::from_str("resolved text command references missing layer matrix ");
                m.append(layer.as_str());
                m
            },
            AuthoredProfileResolveError::Scene(scene) => scene.message(),
        }
    }
}

/// The key of a card's artwork.
pub open spec fn card_artwork(asset_bundle_name: Seq<char>, member_type: i32, after_training: bool) -> Seq<char> {
    let training = if after_training { "after_training"@ } else { "normal"@ };
    if member_type == 1 {
        "character/member_cutout/"@ + asset_bundle_name + "/"@ + training
    } else {
        "character/member_small/"@ + asset_bundle_name + "/card_"@ + training
    }
}

/// Card artwork key: the cut-out illustration for cropped cards
/// (`member_type` 1, deck slots) and the small full illustration otherwise.
pub fn card_artwork_key(asset_bundle_name: &str, member_type: i32, after_training: bool) -> (r: String)
    ensures
        r@ == card_artwork(asset_bundle_name@, member_type, after_training),
{
    let training: &str = if after_training { "after_training" } else { "normal" };
    let mut key = if member_type == 1 {
        String::from_str("character/member_cutout/")
    } else {
        String::from_str("character/member_small/")
    };
    key.append(asset_bundle_name);
    if member_type == 1 {
        key.append("/");
    } else {
        key.append("/card_");
    }
    key.append(training);
    key
}

/// The snapshot of one difficulty's clear counts.
pub open spec fn difficulty_snapshot(value: MusicDifficultyStats) -> MusicDifficultySnapshot {
    MusicDifficultySnapshot { clear: value.clear, full_combo: value.full_combo, all_perfect: value.all_perfect }
}

fn one_difficulty(value: MusicDifficultyStats) -> (r: MusicDifficultySnapshot)
    ensures
        r == difficulty_snapshot(value),
{
    MusicDifficultySnapshot { clear: value.clear, full_combo: value.full_combo, all_perfect: value.all_perfect }
}

/// The clear counts a profile component shows for a player's music results.
pub fn music_results(value: &MusicResults) -> (r: MusicResultsSnapshot)
    ensures
        r.easy == difficulty_snapshot(value.easy),
        r.normal == difficulty_snapshot(value.normal),
        r.hard == difficulty_snapshot(value.hard),
        r.expert == difficulty_snapshot(value.expert),
        r.master == difficulty_snapshot(value.master),
        r.append == difficulty_snapshot(value.append),
{
    MusicResultsSnapshot {
        easy: one_difficulty(value.easy),
        normal: one_difficulty(value.normal),
        hard: one_difficulty(value.hard),
        expert: one_difficulty(value.expert),
        master: one_difficulty(value.master),
        append: one_difficulty(value.append),
    }
}


/// What an authored element names of master data: its kind, the row it
/// draws, and for a card member the card's crop and training state and the
/// key its element is looked up by.
pub enum AuthoredResourceElement {
    Text,
    Honor,
    BondsHonor,
    General,
    Shape(i32),
    CardMember { id: i32, member_type: Option<i32>, after_training: Option<bool>, lookup_key: String },
    Stamp(i32),
    Other(i32),
    Collection(i32),
    StandMember(i32),
    GeneralBackground(i32),
    StoryBackground(i32),
    CharacterIcon(i32),
    Material(i32),
    UserInterfaceIcon(i32),
}

/// A master-data resource to load: the key it is looked up by, where it
/// lives, and the size to assume until its size is known.
pub struct ProfileResourceRequest {
    pub lookup_key: String,
    pub resource: ResourceKey,
    pub fallback_width: u32,
    pub fallback_height: u32,
}

/// The master-data resource an authored element draws.
pub enum AuthoredResource {
    /// The element draws no master-data resource of its own (text, honors
    /// and General panels).
    NoResource,
    /// The master-data row the element names does not exist.
    MissingRow,
    /// The resource to load.
    Request(ProfileResourceRequest),
}

/// `r` requests the `assets` resource `key`, looked up by `lookup`, with a
/// fallback size of `width` by `height`.
pub open spec fn requests(r: AuthoredResource, lookup: Seq<char>, key: Seq<char>, width: u32, height: u32) -> bool {
    &&& r matches AuthoredResource::Request(q)
    &&& q.lookup_key@ == lookup
    &&& q.resource@ == key_view("assets"@, key)
    &&& q.fallback_width == width
    &&& q.fallback_height == height
}

/// What a `customProfile*Resources` row gives an element of lookup kind
/// `lookup_kind` and id `id`: the row's `resourceLoadVal/fileName`, or no row.
pub open spec fn row_resource(r: AuthoredResource, lookup_kind: Seq<char>, id: i32, row: Option<ResourceInfo>, width: u32, height: u32) -> bool {
    match row {
        None => r is MissingRow,
        Some(info) => requests(
            r,
            resource_lookup_key_spec(lookup_kind, id as int, ""@),
            info.load_value@ + "/"@ + info.file_name@,
            width,
            height,
        ),
    }
}

/// The lookup kind, table kind and fallback size of an element drawn from
/// a `customProfile*Resources` table; `None` for the other kinds.
pub open spec fn table_resource(element: AuthoredResourceElement) -> Option<(Seq<char>, Seq<char>, i32, u32)> {
    match element {
        AuthoredResourceElement::Shape(id) => Some(("shape"@, "shape"@, id, 1024u32)),
        AuthoredResourceElement::Other(id) => Some(("other"@, "etc"@, id, 100u32)),
        AuthoredResourceElement::Collection(id) => Some(("collection"@, "collection"@, id, 100u32)),
        AuthoredResourceElement::StandMember(id) => Some(("stand-member"@, "standing"@, id, 100u32)),
        AuthoredResourceElement::GeneralBackground(id) => Some(("general-background"@, "general_bg"@, id, 100u32)),
        AuthoredResourceElement::StoryBackground(id) => Some(("story-background"@, "story_bg"@, id, 100u32)),
        AuthoredResourceElement::CharacterIcon(id) => Some(("character-icon"@, "character_icon"@, id, 100u32)),
        AuthoredResourceElement::Material(id) => Some(("material"@, "material"@, id, 100u32)),
        AuthoredResourceElement::UserInterfaceIcon(id) => Some(("user-interface-icon"@, "user_interface_icon"@, id, 100u32)),
        _ => None,
    }
}

fn master_request<M: ProfileMasterData>(
    masterdata: &M,
    lookup_kind: &str,
    table_kind: &str,
    id: i32,
    size: u32,
) -> (r: AuthoredResource)
    ensures
        exists|t: &str, row: Option<ResourceInfo>|
            {
                &&& t@ == table_kind@
                &&& #[trigger] call_ensures(M::resolve_resource, (masterdata, t, id), row)
                &&& row_resource(r, lookup_kind@, id, row, size, size)
            },
{
    match masterdata.resolve_resource(table_kind, id) {
        Some(info) => {
            let mut key = String::from_str(info.load_value.as_str());
            key.append("/");
            key.append(info.file_name.as_str());
            AuthoredResource::Request(
                ProfileResourceRequest {
                    lookup_key: resource_lookup_key(lookup_kind, id, ""),
                    resource: ResourceKey { namespace: String::from_str("assets"), key },
                    fallback_width: size,
                    fallback_height: size,
                },
            )
        },
        None => AuthoredResource::MissingRow,
    }
}

/// The lookup kind, table kind, id and fallback size of an element drawn
/// from a `customProfile*Resources` table.
fn table_kinds(element: &AuthoredResourceElement) -> (r: Option<(&'static str, &'static str, i32, u32)>)
    ensures
        match r {
            Some((lookup, table, id, size)) => table_resource(*element) == Some((lookup@, table@, id, size)),
            None => table_resource(*element) is None,
        },
{
    match element {
        AuthoredResourceElement::Shape(id) => Some(("shape", "shape", *id, 1024)),
        AuthoredResourceElement::Other(id) => Some(("other", "etc", *id, 100)),
        AuthoredResourceElement::Collection(id) => Some(("collection", "collection", *id, 100)),
        AuthoredResourceElement::StandMember(id) => Some(("stand-member", "standing", *id, 100)),
        AuthoredResourceElement::GeneralBackground(id) => Some(("general-background", "general_bg", *id, 100)),
        AuthoredResourceElement::StoryBackground(id) => Some(("story-background", "story_bg", *id, 100)),
        AuthoredResourceElement::CharacterIcon(id) => Some(("character-icon", "character_icon", *id, 100)),
        AuthoredResourceElement::Material(id) => Some(("material", "material", *id, 100)),
        AuthoredResourceElement::UserInterfaceIcon(id) => Some(("user-interface-icon", "user_interface_icon", *id, 100)),
        _ => None,
    }
}

/// Resolves the resource an authored image-like element draws: shapes,
/// card members, stamps and the `customProfile*Resources` kinds. Keys
/// follow the master-data rows (`resourceLoadVal/fileName`, card and stamp
/// asset bundles); a missing row gives [`AuthoredResource::MissingRow`]
/// rather than an invented key.
pub fn authored_resource<M: ProfileMasterData>(element: &AuthoredResourceElement, masterdata: &M) -> (r: AuthoredResource)
    ensures
        table_resource(*element) is Some ==> exists|t: &str, row: Option<ResourceInfo>|
            {
                &&& t@ == table_resource(*element).unwrap().1
                &&& #[trigger] call_ensures(M::resolve_resource, (masterdata, t, table_resource(*element).unwrap().2), row)
                &&& row_resource(
                    r,
                    table_resource(*element).unwrap().0,
                    table_resource(*element).unwrap().2,
                    row,
                    table_resource(*element).unwrap().3,
                    table_resource(*element).unwrap().3,
                )
            },
        *element matches AuthoredResourceElement::CardMember { id, member_type, after_training, lookup_key } ==> exists|
            card: Option<CardEntry>,
        |
            {
                let crop = match member_type {
                    Some(t) => t,
                    None => 2i32,
                };
                let trained = match after_training {
                    Some(b) => b,
                    None => false,
                };
                &&& #[trigger] call_ensures(M::get_card, (masterdata, id), card)
                &&& match card {
                    None => r is MissingRow,
                    Some(c) => requests(
                        r,
                        lookup_key@,
                        card_artwork(c.asset_bundle_name@, crop, trained),
                        if crop == 1 { 312u32 } else { 940u32 },
                        if crop == 1 { 512u32 } else { 530u32 },
                    ),
                }
            },
        *element matches AuthoredResourceElement::Stamp(id) ==> exists|bundle: Option<String>|
            {
                &&& #[trigger] call_ensures(M::resolve_stamp, (masterdata, id), bundle)
                &&& match bundle {
                    None => r is MissingRow,
                    Some(b) => requests(
                        r,
                        resource_lookup_key_spec("stamp"@, id as int, ""@),
                        "stamp/"@ + b@ + "/"@ + b@,
                        100u32,
                        100u32,
                    ),
                }
            },
        (*element is Text || *element is Honor || *element is BondsHonor || *element is General) ==> r is NoResource,
{
    if let Some((lookup, table, id, size)) = table_kinds(element) {
        let r = master_request(masterdata, lookup, table, id, size);
        proof {
            let tr = table_resource(*element).unwrap();
            assert(tr.1 == table@ && tr.2 == id && tr.0 == lookup@ && tr.3 == size);
            assert(exists|t: &str, row: Option<ResourceInfo>|
                {
                    &&& t@ == tr.1
                    &&& #[trigger] call_ensures(M::resolve_resource, (masterdata, t, tr.2), row)
                    &&& row_resource(r, tr.0, tr.2, row, tr.3, tr.3)
                });
        }
        return r;
    }
    match element {
        AuthoredResourceElement::CardMember { id, member_type, after_training, lookup_key } => {
            let crop = match member_type {
                Some(t) => *t,
                None => 2,
            };
            let trained = match after_training {
                Some(b) => *b,
                None => false,
            };
            match masterdata.get_card(*id) {
                Some(card) => {
                    let (width, height) = if crop == 1 { (312u32, 512u32) } else { (940u32, 530u32) };
                    AuthoredResource::Request(
                        ProfileResourceRequest {
                            lookup_key: String::from_str(lookup_key.as_str()),
                            resource: ResourceKey {
                                namespace: String::from_str("assets"),
                                key: card_artwork_key(card.asset_bundle_name.as_str(), crop, trained),
                            },
                            fallback_width: width,
                            fallback_height: height,
                        },
                    )
                },
                None => AuthoredResource::MissingRow,
            }
        },
        AuthoredResourceElement::Stamp(id) => match masterdata.resolve_stamp(*id) {
            Some(bundle) => {
                let mut key = String::from_str("stamp/");
                key.append(bundle.as_str());
                key.append("/");
                key.append(bundle.as_str());
                AuthoredResource::Request(
                    ProfileResourceRequest {
                        lookup_key: resource_lookup_key("stamp", *id, ""),
                        resource: ResourceKey { namespace: String::from_str("assets"), key },
                        fallback_width: 100,
                        fallback_height: 100,
                    },
                )
            },
            None => AuthoredResource::MissingRow,
        },
        _ => AuthoredResource::NoResource,
    }
}

} // verus!
