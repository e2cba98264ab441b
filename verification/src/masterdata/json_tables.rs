//! Master data read from JSON tables: each table a list of rows found by
//! their `id`, and each kind of row read into the entry it stands for.

use vstd::prelude::*;

use std::collections::BTreeMap;

use super::{
    collection_type_of, color_from_hex, resolve_honor_entry, resolved_honor, BondsHonorEntry, BondsHonorWordEntry,
    CardEntry, CollectionResourceType, HonorEntry, HonorGroupEntry, HonorLevelEntry, MasterDataError, OmikujiRow,
    ProfileMasterData, ResolvedColor, ResolvedHonor, ResourceInfo,
};
use crate::json::{member, member_int, member_str, JsonNumber, JsonValue};
use crate::json_text::{json_text_value, parse_json_text};
use crate::masterdata::opt_string_view;
use vstd::string::{StringExecFns, StringSliceAdditionalSpecFns};

verus! {

broadcast use {
    vstd::string::group_string_axioms,
    vstd::std_specs::btree::group_btree_axioms,
    vstd::laws_cmp::group_laws_cmp,
};

/// The `i32` a value holds: an integer in range.
pub open spec fn i32_of(value: JsonValue) -> Option<i32> {
    match value {
        JsonValue::Number(JsonNumber::PosInt(n)) => if n <= 0x7fff_ffffu64 {
            Some(n as i32)
        } else {
            None
        },
        JsonValue::Number(JsonNumber::NegInt(n)) => if n >= -0x8000_0000i64 {
            Some(n as i32)
        } else {
            None
        },
        _ => None,
    }
}

fn read_i32(value: &JsonValue) -> (r: Option<i32>)
    ensures
        r == i32_of(*value),
{
    match value {
        JsonValue::Number(JsonNumber::PosInt(n)) => if *n <= 0x7fff_ffffu64 {
            Some(*n as i32)
        } else {
            None
        },
        JsonValue::Number(JsonNumber::NegInt(n)) => if *n >= -0x8000_0000i64 {
            Some(*n as i32)
        } else {
            None
        },
        _ => None,
    }
}

/// A required `i32` field: present and an integer in range.
pub open spec fn field_i32(row: JsonValue, key: Seq<char>) -> Option<i32> {
    match member(row, key) {
        Some(v) => i32_of(v),
        None => None,
    }
}

/// An `i32` field that reads as 0 when it is missing.
pub open spec fn field_i32_or_zero(row: JsonValue, key: Seq<char>) -> Option<i32> {
    match member(row, key) {
        Some(v) => i32_of(v),
        None => Some(0),
    }
}

/// An optional `i32` field: `Some(None)` when missing or null, nothing when
/// it holds something other than an integer in range.
pub open spec fn field_opt_i32(row: JsonValue, key: Seq<char>) -> Option<Option<i32>> {
    match member(row, key) {
        None => Some(None),
        Some(JsonValue::Null) => Some(None),
        Some(v) => match i32_of(v) {
            Some(n) => Some(Some(n)),
            None => None,
        },
    }
}

/// An optional string field: `Some(None)` when missing or null, nothing
/// when it holds something other than a string.
pub open spec fn field_opt_str(row: JsonValue, key: Seq<char>) -> Option<Option<Seq<char>>> {
    match member(row, key) {
        None => Some(None),
        Some(JsonValue::Null) => Some(None),
        Some(JsonValue::String(s)) => Some(Some(s@)),
        Some(_) => None,
    }
}

fn read_field_i32(row: &JsonValue, key: &str) -> (r: Option<i32>)
    ensures
        r == field_i32(*row, key@),
{
    match row.get(key) {
        Some(v) => read_i32(v),
        None => None,
    }
}

fn read_field_i32_or_zero(row: &JsonValue, key: &str) -> (r: Option<i32>)
    ensures
        r == field_i32_or_zero(*row, key@),
{
    match row.get(key) {
        Some(v) => read_i32(v),
        None => Some(0),
    }
}

fn read_field_opt_i32(row: &JsonValue, key: &str) -> (r: Option<Option<i32>>)
    ensures
        r == field_opt_i32(*row, key@),
{
    match row.get(key) {
        None => Some(None),
        Some(JsonValue::Null) => Some(None),
        Some(v) => match read_i32(v) {
            Some(n) => Some(Some(n)),
            None => None,
        },
    }
}

fn read_field_string(row: &JsonValue, key: &str) -> (r: Option<String>)
    ensures
        opt_string_view(r) == member_str(*row, key@),
{
    match row.get(key) {
        Some(v) => match v.as_str() {
            Some(s) => Some(String::from_str(s)),
            None => None,
        },
        None => None,
    }
}

fn read_field_opt_string(row: &JsonValue, key: &str) -> (r: Option<Option<String>>)
    ensures
        match r {
            Some(s) => field_opt_str(*row, key@) == Some(opt_string_view(s)),
            None => field_opt_str(*row, key@) is None,
        },
{
    match row.get(key) {
        None => Some(None),
        Some(JsonValue::Null) => Some(None),
        Some(JsonValue::String(s)) => Some(Some(String::from_str(s.as_str()))),
        Some(_) => None,
    }
}

/// `card` is the `cards` row `row`.
pub open spec fn reads_as_card(row: JsonValue, card: CardEntry) -> bool {
    &&& row is Object
    &&& field_i32(row, "id"@) == Some(card.id)
    &&& member_str(row, "assetbundleName"@) == Some(card.asset_bundle_name@)
    &&& member_str(row, "cardRarityType"@) == Some(card.card_rarity_type@)
    &&& member_str(row, "attr"@) == Some(card.attr@)
    &&& field_i32_or_zero(row, "characterId"@) == Some(card.character_id)
}

/// The `cards` row `row` reads as a card: an object whose fields all hold
/// values of their types.
pub open spec fn is_card_row(row: JsonValue) -> bool {
    &&& row is Object
    &&& field_i32(row, "id"@) is Some
    &&& member_str(row, "assetbundleName"@) is Some
    &&& member_str(row, "cardRarityType"@) is Some
    &&& member_str(row, "attr"@) is Some
    &&& field_i32_or_zero(row, "characterId"@) is Some
}

/// Reads a `cards` row.
pub fn read_card(row: &JsonValue) -> (r: Option<CardEntry>)
    ensures
        match r {
            Some(card) => reads_as_card(*row, card),
            None => !is_card_row(*row),
        },
{
    if !row.is_object() {
        return None;
    }
    let id = read_field_i32(row, "id")?;
    let asset_bundle_name = read_field_string(row, "assetbundleName")?;
    let card_rarity_type = read_field_string(row, "cardRarityType")?;
    let attr = read_field_string(row, "attr")?;
    let character_id = read_field_i32_or_zero(row, "characterId")?;
    Some(CardEntry { id, asset_bundle_name, card_rarity_type, attr, character_id })
}

/// `level` is the honor level `row` describes.
pub open spec fn reads_as_honor_level(row: JsonValue, level: HonorLevelEntry) -> bool {
    &&& row is Object
    &&& field_i32(row, "level"@) == Some(level.level)
    &&& field_opt_str(row, "assetbundleName"@) == Some(opt_string_view(level.assetbundle_name))
    &&& field_opt_str(row, "honorRarity"@) == Some(opt_string_view(level.honor_rarity))
}

/// `row` reads as an honor level.
pub open spec fn is_honor_level_row(row: JsonValue) -> bool {
    &&& row is Object
    &&& field_i32(row, "level"@) is Some
    &&& field_opt_str(row, "assetbundleName"@) is Some
    &&& field_opt_str(row, "honorRarity"@) is Some
}

fn read_honor_level(row: &JsonValue) -> (r: Option<HonorLevelEntry>)
    ensures
        match r {
            Some(level) => reads_as_honor_level(*row, level),
            None => !is_honor_level_row(*row),
        },
{
    if !row.is_object() {
        return None;
    }
    let level = read_field_i32(row, "level")?;
    let assetbundle_name = read_field_opt_string(row, "assetbundleName")?;
    let honor_rarity = read_field_opt_string(row, "honorRarity")?;
    Some(HonorLevelEntry { level, assetbundle_name, honor_rarity })
}

/// The levels member of an honor row reads as levels: missing, or an array
/// of level rows.
pub open spec fn is_levels_value(levels: Option<JsonValue>) -> bool {
    match levels {
        None => true,
        Some(JsonValue::Array(items)) => forall|i: int| 0 <= i < items@.len() ==> is_honor_level_row(#[trigger] items@[i]),
        Some(_) => false,
    }
}

/// `levels` are the levels the member describes, in order.
pub open spec fn reads_as_levels(value: Option<JsonValue>, levels: Seq<HonorLevelEntry>) -> bool {
    match value {
        None => levels.len() == 0,
        Some(JsonValue::Array(items)) => {
            &&& levels.len() == items@.len()
            &&& forall|i: int| 0 <= i < items@.len() ==> reads_as_honor_level(#[trigger] items@[i], levels[i])
        },
        Some(_) => false,
    }
}

fn read_levels(value: Option<&JsonValue>) -> (r: Option<Vec<HonorLevelEntry>>)
    ensures
        match r {
            Some(levels) => reads_as_levels(
                match value {
                    Some(v) => Some(*v),
                    None => None,
                },
                levels@,
            ),
            None => !is_levels_value(
                match value {
                    Some(v) => Some(*v),
                    None => None,
                },
            ),
        },
{
    match value {
        None => Some(Vec::new()),
        Some(JsonValue::Array(items)) => {
            let mut levels: Vec<HonorLevelEntry> = Vec::new();
            let mut k: usize = 0;
            while k < items.len()
                invariant
                    k <= items@.len(),
                    match value {
                        Some(v) => *v is Array && v->Array_0@ == items@,
                        None => false,
                    },
                    levels@.len() == k,
                    forall|i: int| 0 <= i < k ==> reads_as_honor_level(#[trigger] items@[i], levels@[i]),
                    forall|i: int| 0 <= i < k ==> is_honor_level_row(#[trigger] items@[i]),
                decreases items.len() - k,
            {
                let level = match read_honor_level(&items[k]) {
                    Some(level) => level,
                    None => {
                        assert(!is_honor_level_row(items@[k as int]));
                        return None;
                    },
                };
                levels.push(level);
                k = k + 1;
            }
            Some(levels)
        },
        Some(_) => None,
    }
}

/// `honor` is the `honors` row `row`.
pub open spec fn reads_as_honor(row: JsonValue, honor: HonorEntry) -> bool {
    &&& row is Object
    &&& field_i32(row, "id"@) == Some(honor.id)
    &&& field_opt_str(row, "assetbundleName"@) == Some(opt_string_view(honor.assetbundle_name))
    &&& field_opt_str(row, "honorRarity"@) == Some(opt_string_view(honor.honor_rarity))
    &&& field_opt_i32(row, "groupId"@) == Some(honor.group_id)
    &&& reads_as_levels(member(row, "levels"@), honor.levels@)
    &&& field_opt_str(row, "honorMissionType"@) == Some(opt_string_view(honor.honor_mission_type))
}

/// `row` reads as an honor.
pub open spec fn is_honor_row(row: JsonValue) -> bool {
    &&& row is Object
    &&& field_i32(row, "id"@) is Some
    &&& field_opt_str(row, "assetbundleName"@) is Some
    &&& field_opt_str(row, "honorRarity"@) is Some
    &&& field_opt_i32(row, "groupId"@) is Some
    &&& is_levels_value(member(row, "levels"@))
    &&& field_opt_str(row, "honorMissionType"@) is Some
}

/// Reads an `honors` row.
pub fn read_honor(row: &JsonValue) -> (r: Option<HonorEntry>)
    ensures
        match r {
            Some(honor) => reads_as_honor(*row, honor),
            None => !is_honor_row(*row),
        },
{
    if !row.is_object() {
        return None;
    }
    let id = read_field_i32(row, "id")?;
    let assetbundle_name = read_field_opt_string(row, "assetbundleName")?;
    let honor_rarity = read_field_opt_string(row, "honorRarity")?;
    let group_id = read_field_opt_i32(row, "groupId")?;
    let levels = read_levels(row.get("levels"))?;
    let honor_mission_type = read_field_opt_string(row, "honorMissionType")?;
    Some(HonorEntry { id, assetbundle_name, honor_rarity, group_id, levels, honor_mission_type })
}

/// `entry` is the `bondsHonors` row `row`.
pub open spec fn reads_as_bonds_honor(row: JsonValue, entry: BondsHonorEntry) -> bool {
    &&& row is Object
    &&& field_i32(row, "id"@) == Some(entry.id)
    &&& field_i32(row, "gameCharacterUnitId1"@) == Some(entry.game_character_unit_id1)
    &&& field_i32(row, "gameCharacterUnitId2"@) == Some(entry.game_character_unit_id2)
    &&& member_str(row, "honorRarity"@) == Some(entry.honor_rarity@)
}

/// `row` reads as a bonds honor.
pub open spec fn is_bonds_honor_row(row: JsonValue) -> bool {
    &&& row is Object
    &&& field_i32(row, "id"@) is Some
    &&& field_i32(row, "gameCharacterUnitId1"@) is Some
    &&& field_i32(row, "gameCharacterUnitId2"@) is Some
    &&& member_str(row, "honorRarity"@) is Some
}

/// Reads a `bondsHonors` row.
pub fn read_bonds_honor(row: &JsonValue) -> (r: Option<BondsHonorEntry>)
    ensures
        match r {
            Some(entry) => reads_as_bonds_honor(*row, entry),
            None => !is_bonds_honor_row(*row),
        },
{
    if !row.is_object() {
        return None;
    }
    let id = read_field_i32(row, "id")?;
    let game_character_unit_id1 = read_field_i32(row, "gameCharacterUnitId1")?;
    let game_character_unit_id2 = read_field_i32(row, "gameCharacterUnitId2")?;
    let honor_rarity = read_field_string(row, "honorRarity")?;
    Some(BondsHonorEntry { id, game_character_unit_id1, game_character_unit_id2, honor_rarity })
}

/// `entry` is the `bondsHonorWords` row `row`.
pub open spec fn reads_as_bonds_honor_word(row: JsonValue, entry: BondsHonorWordEntry) -> bool {
    &&& row is Object
    &&& crate::json::member_int(row, "id"@) == Some(entry.id)
    &&& member_str(row, "assetbundleName"@) == Some(entry.assetbundle_name@)
}

/// `row` reads as a bonds honor word.
pub open spec fn is_bonds_honor_word_row(row: JsonValue) -> bool {
    &&& row is Object
    &&& crate::json::member_int(row, "id"@) is Some
    &&& member_str(row, "assetbundleName"@) is Some
}

/// Reads a `bondsHonorWords` row.
pub fn read_bonds_honor_word(row: &JsonValue) -> (r: Option<BondsHonorWordEntry>)
    ensures
        match r {
            Some(entry) => reads_as_bonds_honor_word(*row, entry),
            None => !is_bonds_honor_word_row(*row),
        },
{
    if !row.is_object() {
        return None;
    }
    let id = match row.get("id") {
        Some(v) => v.as_i64()?,
        None => {
            return None;
        },
    };
    let assetbundle_name = read_field_string(row, "assetbundleName")?;
    Some(BondsHonorWordEntry { id, assetbundle_name })
}

/// `entry` is the `omikujis` row `row`.
pub open spec fn reads_as_omikuji(row: JsonValue, entry: OmikujiRow) -> bool {
    &&& row is Object
    &&& field_i32(row, "id"@) == Some(entry.id)
    &&& member_str(row, "unit"@) == Some(entry.unit@)
    &&& member_str(row, "summary"@) == Some(entry.summary@)
    &&& member_str(row, "title1"@) == Some(entry.title1@)
    &&& member_str(row, "description1"@) == Some(entry.description1@)
    &&& member_str(row, "title2"@) == Some(entry.title2@)
    &&& member_str(row, "description2"@) == Some(entry.description2@)
    &&& member_str(row, "title3"@) == Some(entry.title3@)
    &&& member_str(row, "description3"@) == Some(entry.description3@)
    &&& member_str(row, "fortuneAssetbundleName"@) == Some(entry.fortune_assetbundle_name@)
    &&& member_str(row, "fortuneFilePath"@) == Some(entry.fortune_file_path@)
    &&& member_str(row, "omikujiCoverAssetbundleName"@) == Some(entry.omikuji_cover_assetbundle_name@)
    &&& member_str(row, "omikujiCoverFilePath"@) == Some(entry.omikuji_cover_file_path@)
}

/// `row` reads as an omikuji.
pub open spec fn is_omikuji_row(row: JsonValue) -> bool {
    &&& row is Object
    &&& field_i32(row, "id"@) is Some
    &&& member_str(row, "unit"@) is Some
    &&& member_str(row, "summary"@) is Some
    &&& member_str(row, "title1"@) is Some
    &&& member_str(row, "description1"@) is Some
    &&& member_str(row, "title2"@) is Some
    &&& member_str(row, "description2"@) is Some
    &&& member_str(row, "title3"@) is Some
    &&& member_str(row, "description3"@) is Some
    &&& member_str(row, "fortuneAssetbundleName"@) is Some
    &&& member_str(row, "fortuneFilePath"@) is Some
    &&& member_str(row, "omikujiCoverAssetbundleName"@) is Some
    &&& member_str(row, "omikujiCoverFilePath"@) is Some
}

/// Reads an `omikujis` row.
pub fn read_omikuji(row: &JsonValue) -> (r: Option<OmikujiRow>)
    ensures
        match r {
            Some(entry) => reads_as_omikuji(*row, entry),
            None => !is_omikuji_row(*row),
        },
{
    if !row.is_object() {
        return None;
    }
    let id = read_field_i32(row, "id")?;
    let unit = read_field_string(row, "unit")?;
    let summary = read_field_string(row, "summary")?;
    let title1 = read_field_string(row, "title1")?;
    let description1 = read_field_string(row, "description1")?;
    let title2 = read_field_string(row, "title2")?;
    let description2 = read_field_string(row, "description2")?;
    let title3 = read_field_string(row, "title3")?;
    let description3 = read_field_string(row, "description3")?;
    let fortune_assetbundle_name = read_field_string(row, "fortuneAssetbundleName")?;
    let fortune_file_path = read_field_string(row, "fortuneFilePath")?;
    let omikuji_cover_assetbundle_name = read_field_string(row, "omikujiCoverAssetbundleName")?;
    let omikuji_cover_file_path = read_field_string(row, "omikujiCoverFilePath")?;
    Some(
        OmikujiRow {
            id,
            unit,
            summary,
            title1,
            description1,
            title2,
            description2,
            title3,
            description3,
            fortune_assetbundle_name,
            fortune_file_path,
            omikuji_cover_assetbundle_name,
            omikuji_cover_file_path,
        },
    )
}

/// The positions of the first `k` rows by their integer `id`, a later row
/// of an id replacing an earlier one.
pub open spec fn id_positions(rows: Seq<JsonValue>, k: int) -> Map<i64, usize>
    decreases k,
{
    if k <= 0 {
        Map::empty()
    } else {
        let prev = id_positions(rows, k - 1);
        match member_int(rows[k - 1], "id"@) {
            Some(id) => prev.insert(id, (k - 1) as usize),
            None => prev,
        }
    }
}

/// The position of the last of the first `k` rows whose `id` is `id`.
pub open spec fn last_row_with_id(rows: Seq<JsonValue>, id: i64, k: int) -> Option<int>
    decreases k,
{
    if k <= 0 {
        None
    } else if member_int(rows[k - 1], "id"@) == Some(id) {
        Some(k - 1)
    } else {
        last_row_with_id(rows, id, k - 1)
    }
}

/// The last row of `rows` whose `id` is `id`.
pub open spec fn table_row(rows: Seq<JsonValue>, id: i64) -> Option<JsonValue> {
    match last_row_with_id(rows, id, rows.len() as int) {
        Some(p) => Some(rows[p]),
        None => None,
    }
}

/// The index of the first `k` rows finds the last of them of each `id`.
pub proof fn lemma_id_positions(rows: Seq<JsonValue>, k: int, id: i64)
    requires
        0 <= k <= rows.len(),
        rows.len() <= usize::MAX,
    ensures
        id_positions(rows, k).contains_key(id) == last_row_with_id(rows, id, k) is Some,
        id_positions(rows, k).contains_key(id) ==> id_positions(rows, k)[id] == last_row_with_id(rows, id, k).unwrap()
            && 0 <= id_positions(rows, k)[id] < k,
    decreases k,
{
    if k > 0 {
        lemma_id_positions(rows, k - 1, id);
    }
}

/// A master-data table: its rows, and where the last row of each `id` is.
#[derive(Debug)]
pub struct JsonTable {
    rows: Vec<JsonValue>,
    index: BTreeMap<i64, usize>,
}

impl JsonTable {
    /// The rows of the table.
    pub closed spec fn rows_spec(&self) -> Seq<JsonValue> {
        self.rows@
    }

    /// The index holds the position of the last row of each `id`.
    #[verifier::type_invariant]
    spec fn index_matches_rows(&self) -> bool {
        self.index@ == id_positions(self.rows@, self.rows@.len() as int)
    }

    /// The table a value holds: the rows of an array, or a single object as
    /// the one row. Any other value is refused, named `name`.
    pub fn new(name: &str, value: JsonValue) -> (r: Result<Self, MasterDataError>)
        ensures
            match value {
                JsonValue::Array(rows) => r is Ok && r.unwrap().rows_spec() == rows@,
                JsonValue::Object(_) => r is Ok && r.unwrap().rows_spec() == seq![value],
                _ => r matches Err(MasterDataError::InvalidTable { table }) && table@ == name@,
            },
    {
        let rows = match value {
            JsonValue::Array(rows) => rows,
            JsonValue::Object(_) => {
                let mut rows: Vec<JsonValue> = Vec::new();
                rows.push(value);
                rows
            },
            _ => {
                return Err(MasterDataError::InvalidTable { table: String::from_str(name) });
            },
        };
        let mut index: BTreeMap<i64, usize> = BTreeMap::new();
        let mut k: usize = 0;
        while k < rows.len()
            invariant
                k <= rows@.len(),
                index@ == id_positions(rows@, k as int),
            decreases rows.len() - k,
        {
            match rows[k].get("id") {
                Some(v) => match v.as_i64() {
                    Some(id) => {
                        index.insert(id, k);
                    },
                    None => {},
                },
                None => {},
            }
            k = k + 1;
        }
        Ok(JsonTable { rows, index })
    }

    /// The last row whose `id` is `id`.
    pub fn get(&self, id: i64) -> (r: Option<&JsonValue>)
        ensures
            match r {
                Some(row) => table_row(self.rows_spec(), id) == Some(*row),
                None => table_row(self.rows_spec(), id) is None,
            },
    {
        proof {
            use_type_invariant(self);
            assert(self.rows@.len() == self.rows.len());
            lemma_id_positions(self.rows@, self.rows@.len() as int, id);
        }
        match self.index.get(&id) {
            Some(position) => Some(&self.rows[*position]),
            None => None,
        }
    }

    /// The first row, if any.
    pub fn first(&self) -> (r: Option<&JsonValue>)
        ensures
            match r {
                Some(row) => self.rows_spec().len() > 0 && *row == self.rows_spec()[0],
                None => self.rows_spec().len() == 0,
            },
    {
        if self.rows.len() > 0 {
            Some(&self.rows[0])
        } else {
            None
        }
    }

    /// The rows of the table.
    pub fn rows(&self) -> (r: &Vec<JsonValue>)
        ensures
            r@ == self.rows_spec(),
    {
        &self.rows
    }
}

/// `a` comes before `b` in character order.
pub open spec fn name_before(a: Seq<char>, b: Seq<char>) -> bool
    decreases a.len(),
{
    if a.len() == 0 {
        b.len() > 0
    } else if b.len() == 0 {
        false
    } else if a[0] != b[0] {
        (a[0] as int) < (b[0] as int)
    } else {
        name_before(a.drop_first(), b.drop_first())
    }
}

proof fn lemma_name_irreflexive(a: Seq<char>)
    ensures
        !name_before(a, a),
    decreases a.len(),
{
    if a.len() > 0 {
        lemma_name_irreflexive(a.drop_first());
    }
}

proof fn lemma_name_asymmetric(a: Seq<char>, b: Seq<char>)
    ensures
        name_before(a, b) ==> !name_before(b, a),
    decreases a.len(),
{
    if a.len() > 0 && b.len() > 0 {
        lemma_name_asymmetric(a.drop_first(), b.drop_first());
    }
}

proof fn lemma_name_transitive(a: Seq<char>, b: Seq<char>, c: Seq<char>)
    requires
        name_before(a, b),
        name_before(b, c),
    ensures
        name_before(a, c),
    decreases a.len(),
{
    if a.len() > 0 && b.len() > 0 && c.len() > 0 && a[0] == b[0] && b[0] == c[0] {
        lemma_name_transitive(a.drop_first(), b.drop_first(), c.drop_first());
    }
}

proof fn lemma_name_total(a: Seq<char>, b: Seq<char>)
    ensures
        a != b ==> name_before(a, b) || name_before(b, a),
    decreases a.len(),
{
    if a.len() > 0 && b.len() > 0 {
        lemma_name_total(a.drop_first(), b.drop_first());
        if a[0] != b[0] {
            assert((a[0] as int) != (b[0] as int));
        }
        if a[0] == b[0] && a.drop_first() == b.drop_first() {
            assert(a =~= seq![a[0]] + a.drop_first());
            assert(b =~= seq![b[0]] + b.drop_first());
        }
    } else if a.len() == 0 && b.len() == 0 {
        assert(a =~= b);
    }
}

proof fn lemma_name_order(a: Seq<char>, b: Seq<char>, c: Seq<char>)
    ensures
        !name_before(a, a),
        name_before(a, b) ==> !name_before(b, a),
        name_before(a, b) && name_before(b, c) ==> name_before(a, c),
        a != b ==> name_before(a, b) || name_before(b, a),
{
    lemma_name_irreflexive(a);
    lemma_name_asymmetric(a, b);
    if name_before(a, b) && name_before(b, c) {
        lemma_name_transitive(a, b, c);
    }
    lemma_name_total(a, b);
}

fn str_before(a: &str, b: &str) -> (r: bool)
    ensures
        r == name_before(a@, b@),
{
    let x = crate::text::str_chars(a);
    let y = crate::text::str_chars(b);
    let mut i: usize = 0;
    assert(a@.skip(0) =~= a@ && b@.skip(0) =~= b@);
    while i < x.len() && i < y.len() && x[i] == y[i]
        invariant
            i <= x@.len(),
            i <= y@.len(),
            x@ == a@,
            y@ == b@,
            name_before(a@, b@) == name_before(a@.skip(i as int), b@.skip(i as int)),
        decreases x.len() - i,
    {
        proof {
            assert(a@.skip(i as int).drop_first() =~= a@.skip(i + 1));
            assert(b@.skip(i as int).drop_first() =~= b@.skip(i + 1));
        }
        i = i + 1;
    }
    let ghost sa = a@.skip(i as int);
    let ghost sb = b@.skip(i as int);
    assert(sa.len() == x@.len() - i && sb.len() == y@.len() - i);
    if i == x.len() {
        i < y.len()
    } else if i == y.len() {
        false
    } else {
        let c = x[i];
        let d = y[i];
        assert(sa[0] == c && sb[0] == d);
        c < d
    }
}

/// The position of the first table named `name`.
pub open spec fn table_index(tables: Seq<(String, JsonTable)>, name: Seq<char>) -> Option<int>
    decreases tables.len(),
{
    if tables.len() == 0 {
        None
    } else if tables[0].0@ == name {
        Some(0)
    } else {
        match table_index(tables.drop_first(), name) {
            Some(i) => Some(i + 1),
            None => None,
        }
    }
}

proof fn lemma_table_index(tables: Seq<(String, JsonTable)>, name: Seq<char>)
    ensures
        match table_index(tables, name) {
            Some(i) => 0 <= i < tables.len() && tables[i].0@ == name && forall|j: int|
                0 <= j < i ==> (#[trigger] tables[j]).0@ != name,
            None => forall|j: int| 0 <= j < tables.len() ==> (#[trigger] tables[j]).0@ != name,
        },
    decreases tables.len(),
{
    if tables.len() > 0 && tables[0].0@ != name {
        lemma_table_index(tables.drop_first(), name);
        assert forall|j: int| 1 <= j < tables.len() implies tables[j] == tables.drop_first()[j - 1] by {}
    }
}

/// Each name comes before every later one.
pub open spec fn sorted_names(names: Seq<Seq<char>>) -> bool {
    forall|i: int, j: int| 0 <= i < j < names.len() ==> name_before(#[trigger] names[i], #[trigger] names[j])
}

proof fn lemma_sorted_insert(names: Seq<Seq<char>>, p: int, name: Seq<char>)
    requires
        sorted_names(names),
        0 <= p <= names.len(),
        forall|j: int| 0 <= j < p ==> name_before(#[trigger] names[j], name),
        p < names.len() ==> name_before(name, names[p]),
    ensures
        sorted_names(names.insert(p, name)),
{
    let n = names.insert(p, name);
    assert forall|i: int, j: int| 0 <= i < j < n.len() implies name_before(#[trigger] n[i], #[trigger] n[j]) by {
        if j < p {
            assert(n[i] == names[i] && n[j] == names[j]);
        } else if i > p {
            assert(n[i] == names[i - 1] && n[j] == names[j - 1]);
        } else if i == p {
            assert(n[j] == names[j - 1]);
            if j - 1 > p {
                assert(name_before(names[p], names[j - 1]));
                lemma_name_transitive(name, names[p], names[j - 1]);
            }
        } else {
            assert(n[i] == names[i]);
            if j == p {
                assert(n[j] == name);
            } else {
                assert(n[j] == names[j - 1]);
                assert(name_before(names[i], names[j - 1]));
            }
        }
    }
}

fn insert_table(tables: &mut Vec<(String, JsonTable)>, name: &str, table: JsonTable)
    requires
        sorted_names(names_of(old(tables)@)),
    ensures
        sorted_names(names_of(final(tables)@)),
        table_of_seq(final(tables)@, name@) == Some(table.rows_spec()),
        forall|n: Seq<char>| n != name@ ==> #[trigger] table_of_seq(final(tables)@, n) == table_of_seq(old(tables)@, n),
        names_of(final(tables)@).to_set() == names_of(old(tables)@).to_set().insert(name@),
{
        let ghost before = tables@;
    let mut p: usize = 0;
    while p < tables.len() && str_before(tables[p].0.as_str(), name)
        invariant
            p <= tables@.len(),
            tables@ == before,
            forall|j: int| 0 <= j < p ==> name_before(#[trigger] before[j].0@, name@),
        decreases tables.len() - p,
    {
        p = p + 1;
    }
    proof {
        lemma_table_index(before, name@);
    }
    if p < tables.len() && crate::text::str_eq(tables[p].0.as_str(), name) {
        let key = tables[p].0.clone();
        tables.set(p, (key, table));
        proof {
            let after = tables@;
            assert forall|j: int| 0 <= j < p implies (#[trigger] before[j]).0@ != name@ by {
                lemma_name_order(before[j].0@, name@, name@);
            }
            assert(table_index(before, name@) == Some(p as int)) by {
                if let Some(k) = table_index(before, name@) {
                    if k > p {
                        assert(before[p as int].0@ == name@);
                    }
                }
            }
            assert forall|j: int| 0 <= j < after.len() implies (#[trigger] after[j]).0@ == before[j].0@ by {}
            assert(names_of(tables@) =~= before.map_values(|entry: (String, JsonTable)| entry.0@));
            assert forall|n: Seq<char>| n != name@ implies #[trigger] table_of_seq(tables@, n) == table_of_seq(before, n) by {
                lemma_same_names(after, before, n);
                lemma_table_index(before, n);
            }
            assert(table_of_seq(tables@, name@) == Some(tables@[p as int].1.rows_spec())) by {
                lemma_same_names(after, before, name@);
            }
            lemma_names_set(before, after, name@, false);
        }
    } else {
        proof {
            let names = names_of(before);
            assert(names == before.map_values(|entry: (String, JsonTable)| entry.0@));
            assert forall|j: int| 0 <= j < before.len() implies (#[trigger] before[j]).0@ != name@ by {
                assert(names[j] == before[j].0@);
                if j < p {
                    lemma_name_order(before[j].0@, name@, name@);
                } else {
                    assert(names[p as int] == before[p as int].0@);
                    lemma_name_total(before[p as int].0@, name@);
                    if j > p {
                        assert(name_before(names[p as int], names[j]));
                        lemma_name_transitive(name@, names[p as int], names[j]);
                    }
                    lemma_name_irreflexive(name@);
                }
            }
            if p < before.len() {
                assert(names[p as int] == before[p as int].0@);
                lemma_name_total(before[p as int].0@, name@);
            }
            assert forall|j: int| 0 <= j < p implies name_before(#[trigger] names[j], name@) by {
                assert(names[j] == before[j].0@);
            }
            lemma_sorted_insert(names, p as int, name@);
        }
        tables.insert(p, (String::from_str(name), table));
        proof {
            let after = tables@;
            assert(after == before.insert(p as int, after[p as int]));
            assert(names_of(tables@) =~= names_of(before).insert(p as int, name@));
            lemma_table_index(after, name@);
            assert forall|j: int| 0 <= j < p implies (#[trigger] after[j]).0@ != name@ by {
                assert(after[j] == before[j]);
            }
            assert(table_index(after, name@) == Some(p as int)) by {
                if let Some(k) = table_index(after, name@) {
                    if k > p {
                        assert(after[p as int].0@ == name@);
                    }
                }
            }
            assert forall|n: Seq<char>| n != name@ implies #[trigger] table_of_seq(tables@, n) == table_of_seq(before, n) by {
                lemma_inserted_table(before, after, p as int, n);
            }
            lemma_names_set(before, after, name@, true);
        }
    }
    proof {
        assert forall|n: Seq<char>| n != name@ implies #[trigger] table_of_seq(tables@, n) == table_of_seq(before, n) by {}
    }
}

/// The names of the tables, in order.
pub open spec fn names_of(tables: Seq<(String, JsonTable)>) -> Seq<Seq<char>> {
    tables.map_values(|entry: (String, JsonTable)| entry.0@)
}

/// Parsed master-data tables of one region, by name. Reading them involves
/// no network or file.
#[derive(Debug)]
pub struct JsonMasterData {
    region: String,
    tables: Vec<(String, JsonTable)>,
}

impl JsonMasterData {
    /// The canonical region the data is for.
    pub closed spec fn region_spec(&self) -> Seq<char> {
        self.region@
    }

    /// The names of the loaded tables, in the order they are kept.
    pub closed spec fn names_spec(&self) -> Seq<Seq<char>> {
        names_of(self.tables@)
    }

    /// The rows of the table named `name`, if it is loaded.
    pub closed spec fn table_of(&self, name: Seq<char>) -> Option<Seq<JsonValue>> {
        table_of_seq(self.tables@, name)
    }

    /// The tables are kept in character order of their names, each name once.
    #[verifier::type_invariant]
    spec fn names_in_order(&self) -> bool {
        sorted_names(names_of(self.tables@))
    }

    /// No tables yet, for the canonical form of `region`.
    pub fn new(region: &str) -> (r: Self)
        ensures
            r.region_spec() == super::canonical_region(crate::text::lower_ascii_seq(crate::text::trim_spec(region@))),
            r.names_spec().len() == 0,
            forall|name: Seq<char>| #[trigger] r.table_of(name) is None,
    {
        let r = JsonMasterData { region: super::normalize_region(region), tables: Vec::new() };
        assert(r.names_spec() =~= Seq::<Seq<char>>::empty());
        r
    }

    /// Loads table `name` from `value`, replacing a table of that name. A
    /// value that is neither an array nor an object is refused and nothing
    /// changes.
    pub fn insert_value(&mut self, name: &str, value: JsonValue) -> (r: Result<(), MasterDataError>)
        ensures
            final(self).region_spec() == old(self).region_spec(),
            match value {
                JsonValue::Array(rows) => r is Ok && final(self).table_of(name@) == Some(rows@),
                JsonValue::Object(_) => r is Ok && final(self).table_of(name@) == Some(seq![value]),
                _ => r matches Err(MasterDataError::InvalidTable { table }) && table@ == name@,
            },
            r is Err ==> final(self).names_spec() == old(self).names_spec() && forall|n: Seq<char>|
                #[trigger] final(self).table_of(n) == old(self).table_of(n),
            r is Ok ==> forall|n: Seq<char>| n != name@ ==> #[trigger] final(self).table_of(n) == old(self).table_of(n),
            r is Ok ==> final(self).names_spec().to_set() == old(self).names_spec().to_set().insert(name@),
    {
        proof {
            use_type_invariant(&*self);
        }
        let table = JsonTable::new(name, value)?;
        let mut tables: Vec<(String, JsonTable)> = Vec::new();
        std::mem::swap(&mut tables, &mut self.tables);
        insert_table(&mut tables, name, table);
        self.tables = tables;
        Ok(())
    }

    /// Loads table `name` from JSON text: as [`Self::insert_value`] does with
    /// the value the text holds, and refused with the tables unchanged when
    /// the text is not JSON.
    pub fn insert_json(&mut self, name: &str, json: &str) -> (r: Result<(), MasterDataError>)
        ensures
            final(self).region_spec() == old(self).region_spec(),
            match json_text_value(json@) {
                None => r matches Err(MasterDataError::InvalidJson { table }) && table@ == name@,
                Some(value) => match value {
                    JsonValue::Array(rows) => r is Ok && final(self).table_of(name@) == Some(rows@),
                    JsonValue::Object(_) => r is Ok && final(self).table_of(name@) == Some(seq![value]),
                    _ => r matches Err(MasterDataError::InvalidTable { table }) && table@ == name@,
                },
            },
            r is Err ==> final(self).names_spec() == old(self).names_spec() && forall|n: Seq<char>|
                #[trigger] final(self).table_of(n) == old(self).table_of(n),
            r is Ok ==> forall|n: Seq<char>| n != name@ ==> #[trigger] final(self).table_of(n) == old(self).table_of(n),
            r is Ok ==> final(self).names_spec().to_set() == old(self).names_spec().to_set().insert(name@),
    {
        match parse_json_text(json) {
            Some(value) => self.insert_value(name, value),
            None => Err(MasterDataError::InvalidJson { table: String::from_str(name) }),
        }
    }

    /// The names of the loaded tables, in character order.
    pub fn loaded_tables(&self) -> (r: Vec<&str>)
        ensures
            r@.len() == self.names_spec().len(),
            forall|i: int| 0 <= i < r@.len() ==> (#[trigger] r@[i])@ == self.names_spec()[i],
            sorted_names(self.names_spec()),
    {
        proof {
            use_type_invariant(self);
        }
        let mut names: Vec<&str> = Vec::new();
        let mut k: usize = 0;
        while k < self.tables.len()
            invariant
                k <= self.tables@.len(),
                names@.len() == k,
                forall|i: int| 0 <= i < k ==> (#[trigger] names@[i])@ == self.names_spec()[i],
            decreases self.tables.len() - k,
        {
            names.push(self.tables[k].0.as_str());
            k = k + 1;
        }
        names
    }

    /// The table named `name`, if it is loaded.
    pub fn table(&self, name: &str) -> (r: Option<&JsonTable>)
        ensures
            match r {
                Some(t) => self.table_of(name@) == Some(t.rows_spec()),
                None => self.table_of(name@) is None,
            },
    {
        proof {
            lemma_table_index(self.tables@, name@);
        }
        let mut k: usize = 0;
        while k < self.tables.len()
            invariant
                k <= self.tables@.len(),
                forall|j: int| 0 <= j < k ==> (#[trigger] self.tables@[j]).0@ != name@,
                match table_index(self.tables@, name@) {
                    Some(i) => 0 <= i < self.tables@.len() && self.tables@[i].0@ == name@ && forall|j: int|
                        0 <= j < i ==> (#[trigger] self.tables@[j]).0@ != name@,
                    None => forall|j: int| 0 <= j < self.tables@.len() ==> (#[trigger] self.tables@[j]).0@ != name@,
                },
            decreases self.tables.len() - k,
        {
            if crate::text::str_eq(self.tables[k].0.as_str(), name) {
                proof {
                    if let Some(i) = table_index(self.tables@, name@) {
                        if i < k {
                            assert(self.tables@[i].0@ != name@);
                        }
                        if i > k {
                            assert(self.tables@[k as int].0@ != name@);
                        }
                    }
                }
                return Some(&self.tables[k].1);
            }
            k = k + 1;
        }
        None
    }
}

/// The rows of the first table named `name` among `tables`.
pub open spec fn table_of_seq(tables: Seq<(String, JsonTable)>, name: Seq<char>) -> Option<Seq<JsonValue>> {
    match table_index(tables, name) {
        Some(i) => Some(tables[i].1.rows_spec()),
        None => None,
    }
}

proof fn lemma_same_names(a: Seq<(String, JsonTable)>, b: Seq<(String, JsonTable)>, name: Seq<char>)
    requires
        a.len() == b.len(),
        forall|j: int| 0 <= j < a.len() ==> (#[trigger] a[j]).0@ == b[j].0@,
    ensures
        table_index(a, name) == table_index(b, name),
    decreases a.len(),
{
    if a.len() > 0 {
        assert(a[0].0@ == b[0].0@);
        assert forall|j: int| 0 <= j < a.drop_first().len() implies (#[trigger] a.drop_first()[j]).0@
            == b.drop_first()[j].0@ by {
            assert(a[j + 1].0@ == b[j + 1].0@);
        }
        lemma_same_names(a.drop_first(), b.drop_first(), name);
    }
}

proof fn lemma_inserted_table(
    before: Seq<(String, JsonTable)>,
    after: Seq<(String, JsonTable)>,
    p: int,
    name: Seq<char>,
)
    requires
        0 <= p <= before.len(),
        after == before.insert(p, after[p]),
        after[p].0@ != name,
    ensures
        table_of_seq(after, name) == table_of_seq(before, name),
{
    lemma_table_index(before, name);
    lemma_table_index(after, name);
    match table_index(before, name) {
        Some(i) => {
            let k = if i < p { i } else { i + 1 };
            assert(after[k] == before[i]);
            if let Some(m) = table_index(after, name) {
                if m < k {
                    if m < p {
                        assert(after[m] == before[m]);
                    } else if m > p {
                        assert(after[m] == before[m - 1]);
                    }
                }
            }
        },
        None => {
            if let Some(m) = table_index(after, name) {
                if m < p {
                    assert(after[m] == before[m]);
                } else if m > p {
                    assert(after[m] == before[m - 1]);
                }
            }
        },
    }
}

proof fn lemma_names_set(before: Seq<(String, JsonTable)>, after: Seq<(String, JsonTable)>, name: Seq<char>, grew: bool)
    requires
        grew ==> exists|p: int| 0 <= p <= before.len() && after == before.insert(p, after[p]) && after[p].0@ == name,
        !grew ==> after.len() == before.len() && (forall|j: int| 0 <= j < after.len() ==> (#[trigger] after[j]).0@
            == before[j].0@) && exists|j: int| 0 <= j < before.len() && before[j].0@ == name,
    ensures
        after.map_values(|entry: (String, JsonTable)| entry.0@).to_set() == before.map_values(
            |entry: (String, JsonTable)| entry.0@,
        ).to_set().insert(name),
{
    let a = after.map_values(|entry: (String, JsonTable)| entry.0@);
    let b = before.map_values(|entry: (String, JsonTable)| entry.0@);
    if grew {
        let p = choose|p: int| 0 <= p <= before.len() && after == before.insert(p, after[p]) && after[p].0@ == name;
        assert forall|x: Seq<char>| a.to_set().contains(x) <==> b.to_set().insert(name).contains(x) by {
            if a.to_set().contains(x) {
                let i = choose|i: int| 0 <= i < a.len() && a[i] == x;
                if i < p {
                    assert(b[i] == x);
                } else if i > p {
                    assert(b[i - 1] == x);
                }
            }
            if b.to_set().contains(x) {
                let i = choose|i: int| 0 <= i < b.len() && b[i] == x;
                if i < p {
                    assert(a[i] == x);
                } else {
                    assert(a[i + 1] == x);
                }
            }
            if x == name {
                assert(a[p] == x);
            }
        }
    } else {
        let j = choose|j: int| 0 <= j < before.len() && before[j].0@ == name;
        assert(b[j] == name);
        assert forall|x: Seq<char>| a.to_set().contains(x) <==> b.to_set().insert(name).contains(x) by {
            if a.to_set().contains(x) {
                let i = choose|i: int| 0 <= i < a.len() && a[i] == x;
                assert(b[i] == x);
            }
            if b.to_set().contains(x) {
                let i = choose|i: int| 0 <= i < b.len() && b[i] == x;
                assert(a[i] == x);
            }
        }
    }
    assert(a.to_set() =~= b.to_set().insert(name));
}

/// Row `id` of the table named `name`, if the table is loaded and has it.
pub open spec fn row_in(data: JsonMasterData, name: Seq<char>, id: i64) -> Option<JsonValue> {
    match data.table_of(name) {
        Some(rows) => table_row(rows, id),
        None => None,
    }
}

/// A string member of row `id` of table `name`.
pub open spec fn row_text(data: JsonMasterData, name: Seq<char>, id: i64, key: Seq<char>) -> Option<Seq<char>> {
    match row_in(data, name, id) {
        Some(row) => member_str(row, key),
        None => None,
    }
}

/// The banner of a story: `{type}/{bundle}/screen_image/{suffix}` for an
/// event or unit story the master data lists.
pub open spec fn story_banner(data: JsonMasterData, story_type: Seq<char>, story_id: i32) -> Option<Seq<char>> {
    if story_type == "event_story"@ {
        match row_text(data, "eventStories"@, story_id as i64, "assetbundleName"@) {
            Some(bundle) => Some(story_type + "/"@ + bundle + "/screen_image/"@ + "banner_event_story"@),
            None => None,
        }
    } else if story_type == "unit_story"@ {
        match row_text(data, "unitStoryEpisodeGroups"@, story_id as i64, "assetbundleName"@) {
            Some(bundle) => Some(story_type + "/"@ + bundle + "/screen_image/"@ + "banner_unit_story"@),
            None => None,
        }
    } else {
        None
    }
}

/// The font the CN client draws for a font name: three faces have fonts
/// of their own there.
pub open spec fn cn_font(name: Seq<char>) -> Seq<char> {
    if name == "FOT-RodinNTLGPro-DB"@ {
        "FZLanTingHei-DB-GBK"@
    } else if name == "FOT-SkipProN-B"@ {
        "FZZhengHei-EB-GBK"@
    } else if name == "FOT-PopHappinessStd-EB"@ {
        "FZShaoEr-M11-JF"@
    } else {
        name
    }
}

/// The font a font name stands for in the region.
pub open spec fn regional_font(region: Seq<char>, name: Seq<char>) -> Seq<char> {
    if region == "cn"@ {
        cn_font(name)
    } else {
        name
    }
}

/// The table of a resource type.
pub open spec fn resource_table(resource_type: Seq<char>) -> Option<Seq<char>> {
    if resource_type == "shape"@ {
        Some("customProfileShapeResources"@)
    } else if resource_type == "etc"@ {
        Some("customProfileEtcResources"@)
    } else if resource_type == "collection"@ {
        Some("customProfileCollectionResources"@)
    } else if resource_type == "general_bg"@ {
        Some("customProfileGeneralBackgroundResources"@)
    } else if resource_type == "standing"@ {
        Some("customProfileMemberStandingPictureResources"@)
    } else if resource_type == "story_bg"@ {
        Some("customProfileStoryBackgroundResources"@)
    } else if resource_type == "character_icon"@ {
        Some("customProfileCharacterIconResources"@)
    } else if resource_type == "material"@ {
        Some("customProfileMaterialResources"@)
    } else if resource_type == "user_interface_icon"@ {
        Some("customProfileUserInterfaceIconResources"@)
    } else {
        None
    }
}

fn resource_table_name(resource_type: &str) -> (r: Option<&'static str>)
    ensures
        match r {
            Some(name) => resource_table(resource_type@) == Some(name@),
            None => resource_table(resource_type@) is None,
        },
{
    if crate::text::str_eq(resource_type, "shape") {
        Some("customProfileShapeResources")
    } else if crate::text::str_eq(resource_type, "etc") {
        Some("customProfileEtcResources")
    } else if crate::text::str_eq(resource_type, "collection") {
        Some("customProfileCollectionResources")
    } else if crate::text::str_eq(resource_type, "general_bg") {
        Some("customProfileGeneralBackgroundResources")
    } else if crate::text::str_eq(resource_type, "standing") {
        Some("customProfileMemberStandingPictureResources")
    } else if crate::text::str_eq(resource_type, "story_bg") {
        Some("customProfileStoryBackgroundResources")
    } else if crate::text::str_eq(resource_type, "character_icon") {
        Some("customProfileCharacterIconResources")
    } else if crate::text::str_eq(resource_type, "material") {
        Some("customProfileMaterialResources")
    } else if crate::text::str_eq(resource_type, "user_interface_icon") {
        Some("customProfileUserInterfaceIconResources")
    } else {
        None
    }
}

/// `info` is the resource row `row` describes.
pub open spec fn reads_as_resource(row: JsonValue, info: ResourceInfo) -> bool {
    &&& member_str(row, "fileName"@) == Some(info.file_name@)
    &&& member_str(row, "resourceLoadVal"@) == Some(info.load_value@)
    &&& member_str(row, "customProfileResourceType"@) == Some(info.resource_type@)
    &&& info.collection_type == collection_type_of(member_str(row, "customProfileResourceCollectionType"@))
}

/// `row` describes a resource: its file, load value and type are strings.
pub open spec fn is_resource_row(row: JsonValue) -> bool {
    &&& member_str(row, "fileName"@) is Some
    &&& member_str(row, "resourceLoadVal"@) is Some
    &&& member_str(row, "customProfileResourceType"@) is Some
}

/// `group` holds the text fields of an `honorGroups` row, as the row holds
/// them when they are strings.
pub open spec fn reads_as_group(row: JsonValue, group: HonorGroupEntry) -> bool {
    &&& opt_string_view(group.honor_type) == member_str(row, "honorType"@)
    &&& opt_string_view(group.background_asset_bundle_name) == member_str(row, "backgroundAssetbundleName"@)
    &&& opt_string_view(group.frame_name) == member_str(row, "frameName"@)
}

/// The `honorGroups` row of an honor row's `groupId`.
pub open spec fn group_row(data: JsonMasterData, honor: JsonValue) -> Option<JsonValue> {
    match member_int(honor, "groupId"@) {
        Some(id) => row_in(data, "honorGroups"@, id),
        None => None,
    }
}

/// The first row of a character's unit with `unit`.
pub open spec fn unit_row(rows: Seq<JsonValue>, character: i64, unit: Seq<char>) -> Option<JsonValue>
    decreases rows.len(),
{
    if rows.len() == 0 {
        None
    } else if member_int(rows[0], "gameCharacterId"@) == Some(character) && member_str(rows[0], "unit"@) == Some(
        unit,
    ) {
        Some(rows[0])
    } else {
        unit_row(rows.drop_first(), character, unit)
    }
}

/// The character unit a virtual singer takes beside a partner: the unit of
/// the same character in the partner's unit, when the first unit is a
/// virtual singer's (character 21 on); the unit itself otherwise or when
/// the master data lacks what is needed.
pub open spec fn virtual_singer_unit(data: JsonMasterData, self_id: i32, partner_id: i32) -> i32 {
    match data.table_of("gameCharacterUnits"@) {
        None => self_id,
        Some(rows) => match table_row(rows, self_id as i64) {
            None => self_id,
            Some(own) => match member_int(own, "gameCharacterId"@) {
                None => self_id,
                Some(character) => if character < 21 {
                    self_id
                } else {
                    match table_row(rows, partner_id as i64) {
                        None => self_id,
                        Some(partner) => match member_str(partner, "unit"@) {
                            None => self_id,
                            Some(unit) => match unit_row(rows, character, unit) {
                                Some(row) => match member_int(row, "id"@) {
                                    Some(id) => id as i32,
                                    None => self_id,
                                },
                                None => self_id,
                            },
                        },
                    }
                },
            },
        },
    }
}

impl JsonMasterData {
    fn row(&self, name: &str, id: i64) -> (r: Option<&JsonValue>)
        ensures
            match r {
                Some(row) => row_in(*self, name@, id) == Some(*row),
                None => row_in(*self, name@, id) is None,
            },
    {
        match self.table(name) {
            Some(table) => table.get(id),
            None => None,
        }
    }

    fn text_of(&self, name: &str, id: i64, key: &str) -> (r: Option<&str>)
        ensures
            match r {
                Some(s) => row_text(*self, name@, id, key@) == Some(s@),
                None => row_text(*self, name@, id, key@) is None,
            },
    {
        match self.row(name, id) {
            Some(row) => match row.get(key) {
                Some(v) => v.as_str(),
                None => None,
            },
            None => None,
        }
    }

    fn is_cn(&self) -> (r: bool)
        ensures
            r == (self.region_spec() == "cn"@),
    {
        crate::text::str_eq(self.region.as_str(), "cn")
    }
}

fn regional_font_name<'a>(cn: bool, name: &'a str) -> (r: &'a str)
    ensures
        r@ == if cn {
            cn_font(name@)
        } else {
            name@
        },
{
    if !cn {
        name
    } else if crate::text::str_eq(name, "FOT-RodinNTLGPro-DB") {
        "FZLanTingHei-DB-GBK"
    } else if crate::text::str_eq(name, "FOT-SkipProN-B") {
        "FZZhengHei-EB-GBK"
    } else if crate::text::str_eq(name, "FOT-PopHappinessStd-EB") {
        "FZShaoEr-M11-JF"
    } else {
        name
    }
}

fn first_unit_row<'a>(rows: &'a Vec<JsonValue>, character: i64, unit: &str) -> (r: Option<&'a JsonValue>)
    ensures
        match r {
            Some(row) => unit_row(rows@, character, unit@) == Some(*row),
            None => unit_row(rows@, character, unit@) is None,
        },
{
    let mut k: usize = 0;
    assert(rows@.skip(0) =~= rows@);
    while k < rows.len()
        invariant
            k <= rows@.len(),
            unit_row(rows@, character, unit@) == unit_row(rows@.skip(k as int), character, unit@),
        decreases rows.len() - k,
    {
        let row = &rows[k];
        let same_character = match row.get("gameCharacterId") {
            Some(v) => match v.as_i64() {
                Some(c) => c == character,
                None => false,
            },
            None => false,
        };
        let same_unit = match row.get("unit") {
            Some(v) => match v.as_str() {
                Some(u) => crate::text::str_eq(u, unit),
                None => false,
            },
            None => false,
        };
        if same_character && same_unit {
            return Some(row);
        }
        assert(rows@.skip(k as int).drop_first() =~= rows@.skip(k + 1));
        k = k + 1;
    }
    None
}

impl ProfileMasterData for JsonMasterData {
    fn resolve_story_banner(&self, story_type: &str, story_id: i32) -> (r: Option<String>)
        ensures
            match r {
                Some(s) => story_banner(*self, story_type@, story_id) == Some(s@),
                None => story_banner(*self, story_type@, story_id) is None,
            },
    {
        let (table, suffix) = if crate::text::str_eq(story_type, "event_story") {
            ("eventStories", "banner_event_story")
        } else if crate::text::str_eq(story_type, "unit_story") {
            ("unitStoryEpisodeGroups", "banner_unit_story")
        } else {
            return None;
        };
        let bundle = self.text_of(table, story_id as i64, "assetbundleName")?;
        let mut s = String::from_str(story_type);
        s.append("/");
        s.append(bundle);
        s.append("/screen_image/");
        s.append(suffix);
        Some(s)
    }

    fn get_card(&self, card_id: i32) -> (r: Option<CardEntry>)
        ensures
            match row_in(*self, "cards"@, card_id as i64) {
                Some(row) => match r {
                    Some(card) => reads_as_card(row, card),
                    None => !is_card_row(row),
                },
                None => r is None,
            },
    {
        read_card(self.row("cards", card_id as i64)?)
    }

    fn resolve_color(&self, color_id: i32) -> (r: Option<ResolvedColor>)
        ensures
            match row_text(*self, "customProfileTextColors"@, color_id as i64, "colorCode"@) {
                Some(code) => exists|s: &str| s@ == code && r == color_from_hex(#[trigger] s.spec_bytes()),
                None => r is None,
            },
    {
        let code = self.text_of("customProfileTextColors", color_id as i64, "colorCode")?;
        ResolvedColor::from_hex(code)
    }

    fn default_color(&self) -> (r: Option<ResolvedColor>)
        ensures
            match self.table_of("customProfileTextColors"@) {
                Some(rows) => if rows.len() > 0 {
                    match member_str(rows[0], "colorCode"@) {
                        Some(code) => exists|s: &str| s@ == code && r == color_from_hex(#[trigger] s.spec_bytes()),
                        None => r is None,
                    }
                } else {
                    r is None
                },
                None => r is None,
            },
    {
        let table = self.table("customProfileTextColors")?;
        let row = table.first()?;
        let code = row.get("colorCode")?.as_str()?;
        ResolvedColor::from_hex(code)
    }

    fn resolve_font(&self, font_id: i32) -> (r: Option<String>)
        ensures
            match row_text(*self, "customProfileTextFonts"@, font_id as i64, "fontName"@) {
                Some(name) => r is Some && r.unwrap()@ == regional_font(self.region_spec(), name),
                None => r is None,
            },
    {
        let name = self.text_of("customProfileTextFonts", font_id as i64, "fontName")?;
        let cn = self.is_cn();
        Some(String::from_str(regional_font_name(cn, name)))
    }

    fn resolve_stamp(&self, stamp_id: i32) -> (r: Option<String>)
        ensures
            opt_string_view(r) == row_text(*self, "stamps"@, stamp_id as i64, "assetbundleName"@),
    {
        let bundle = self.text_of("stamps", stamp_id as i64, "assetbundleName")?;
        Some(String::from_str(bundle))
    }

    fn resolve_resource(&self, resource_type: &str, id: i32) -> (r: Option<ResourceInfo>)
        ensures
            match resource_table(resource_type@) {
                Some(table) => match row_in(*self, table, id as i64) {
                    Some(row) => match r {
                        Some(info) => reads_as_resource(row, info),
                        None => !is_resource_row(row),
                    },
                    None => r is None,
                },
                None => r is None,
            },
    {
        let table = resource_table_name(resource_type)?;
        let row = self.row(table, id as i64)?;
        let file_name = row.get("fileName")?.as_str()?;
        let load_value = row.get("resourceLoadVal")?.as_str()?;
        let kind = row.get("customProfileResourceType")?.as_str()?;
        let collection = match row.get("customProfileResourceCollectionType") {
            Some(v) => v.as_str(),
            None => None,
        };
        Some(
            ResourceInfo {
                file_name: String::from_str(file_name),
                load_value: String::from_str(load_value),
                resource_type: String::from_str(kind),
                collection_type: CollectionResourceType::parse(collection),
            },
        )
    }

    fn resolve_honor(&self, honor_id: i32, honor_level: i32) -> (r: Option<ResolvedHonor>)
        ensures
            match row_in(*self, "honors"@, honor_id as i64) {
                Some(row) => match r {
                    Some(resolved) => exists|honor: HonorEntry, group: Option<HonorGroupEntry>|
                        {
                            &&& reads_as_honor(row, honor)
                            &&& match group_row(*self, row) {
                                Some(g) => group is Some && reads_as_group(g, group.unwrap()),
                                None => group is None,
                            }
                            &&& resolved@ == #[trigger] resolved_honor(honor, group, honor_level)
                        },
                    None => !is_honor_row(row),
                },
                None => r is None,
            },
    {
        let row = self.row("honors", honor_id as i64)?;
        let group_value = match row.get("groupId") {
            Some(v) => match v.as_i64() {
                Some(group_id) => self.row("honorGroups", group_id),
                None => None,
            },
            None => None,
        };
        let honor = read_honor(row)?;
        let group = match group_value {
            Some(g) => Some(
                HonorGroupEntry {
                    honor_type: match g.get("honorType") {
                        Some(v) => match v.as_str() {
                            Some(s) => Some(String::from_str(s)),
                            None => None,
                        },
                        None => None,
                    },
                    background_asset_bundle_name: match g.get("backgroundAssetbundleName") {
                        Some(v) => match v.as_str() {
                            Some(s) => Some(String::from_str(s)),
                            None => None,
                        },
                        None => None,
                    },
                    frame_name: match g.get("frameName") {
                        Some(v) => match v.as_str() {
                            Some(s) => Some(String::from_str(s)),
                            None => None,
                        },
                        None => None,
                    },
                },
            ),
            None => None,
        };
        let resolved = resolve_honor_entry(&honor, group.as_ref(), honor_level);
        proof {
            let g = match group {
                Some(e) => Some(e),
                None => None,
            };
            assert(resolved@ == resolved_honor(honor, g, honor_level));
        }
        Some(resolved)
    }

    fn get_bonds_honor(&self, id: i32) -> (r: Option<BondsHonorEntry>)
        ensures
            match row_in(*self, "bondsHonors"@, id as i64) {
                Some(row) => match r {
                    Some(entry) => reads_as_bonds_honor(row, entry),
                    None => !is_bonds_honor_row(row),
                },
                None => r is None,
            },
    {
        read_bonds_honor(self.row("bondsHonors", id as i64)?)
    }

    fn get_bonds_honor_word(&self, id: i64) -> (r: Option<BondsHonorWordEntry>)
        ensures
            match row_in(*self, "bondsHonorWords"@, id) {
                Some(row) => match r {
                    Some(entry) => reads_as_bonds_honor_word(row, entry),
                    None => !is_bonds_honor_word_row(row),
                },
                None => r is None,
            },
    {
        read_bonds_honor_word(self.row("bondsHonorWords", id)?)
    }

    fn resolve_omikuji(&self, id: i32) -> (r: Option<OmikujiRow>)
        ensures
            match row_in(*self, "omikujis"@, id as i64) {
                Some(row) => match r {
                    Some(entry) => reads_as_omikuji(row, entry),
                    None => !is_omikuji_row(row),
                },
                None => r is None,
            },
    {
        read_omikuji(self.row("omikujis", id as i64)?)
    }

    fn resolve_unit_virtual_singer(&self, self_id: i32, partner_id: i32) -> (r: i32)
        ensures
            r == virtual_singer_unit(*self, self_id, partner_id),
    {
        let table = match self.table("gameCharacterUnits") {
            Some(table) => table,
            None => {
                return self_id;
            },
        };
        let character = match table.get(self_id as i64) {
            Some(row) => match row.get("gameCharacterId") {
                Some(v) => match v.as_i64() {
                    Some(c) => c,
                    None => {
                        return self_id;
                    },
                },
                None => {
                    return self_id;
                },
            },
            None => {
                return self_id;
            },
        };
        if character < 21 {
            return self_id;
        }
        let unit = match table.get(partner_id as i64) {
            Some(row) => match row.get("unit") {
                Some(v) => match v.as_str() {
                    Some(u) => u,
                    None => {
                        return self_id;
                    },
                },
                None => {
                    return self_id;
                },
            },
            None => {
                return self_id;
            },
        };
        match first_unit_row(table.rows(), character, unit) {
            Some(row) => match row.get("id") {
                Some(v) => match v.as_i64() {
                    Some(id) => id as i32,
                    None => self_id,
                },
                None => self_id,
            },
            None => self_id,
        }
    }
}

} // verus!
