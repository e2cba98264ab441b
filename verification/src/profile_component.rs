//! The profile component plan: what the General panels of a card show of a
//! player, read from profile data and master data. Natural image sizes are
//! not part of the plan; a host attaches them to the planned resources.

use vstd::prelude::*;

use crate::locale::GENERAL_LOCALIZATION_KEYS;
use crate::masterdata::{opt_string_view, CardEntry, ProfileMasterData};
use crate::profile_data::{
    share_slots, story_favorite_slots, CardState, CharacterRank, HonorSlot, MusicResults, ProfileData, StoryFavorite,
};
use crate::profile_resolve::{
    card_artwork, card_artwork_key, difficulty_snapshot, music_results, AuthoredProfileResolveError,
};
use crate::profile_scene::MusicResultsSnapshot;
use crate::resource::{key_view, ResourceKey};
use crate::text::{padded_decimal, push_padded_decimal};
use vstd::string::StringExecFns;

verus! {

broadcast use vstd::string::group_string_axioms;

/// A master-data resource an image of a component draws, with where it was
/// read from.
#[derive(Clone, Debug, PartialEq)]
pub struct DescriptorPlan {
    pub resource: ResourceKey,
    pub table: String,
    pub id: i32,
}

/// An image of a component: the profile field it shows and, unless the
/// resource is known to be unavailable, the resource it draws.
#[derive(Clone, Debug, PartialEq)]
pub struct ComponentImagePlan {
    pub source_field: String,
    pub source_id: String,
    pub descriptor: Option<DescriptorPlan>,
}

/// One slot of the favorite-story panel.
#[derive(Clone, Debug, PartialEq)]
pub struct StoryFavoritePlan {
    pub story_id: i32,
    pub story_type: String,
    pub image: ComponentImagePlan,
}

/// One character of the character-rank panel.
#[derive(Clone, Debug, PartialEq)]
pub struct CharacterRankPlan {
    pub character_id: i32,
    pub rank: i32,
    pub challenge_rank: Option<i32>,
    pub avatar: ComponentImagePlan,
}

/// A card a component draws.
#[derive(Clone, Debug, PartialEq)]
pub struct CardVisualPlan {
    pub card_id: i32,
    pub after_training: bool,
    pub master_rank: i32,
    pub level: i32,
    pub rarity: String,
    pub attribute: String,
    pub image: ComponentImagePlan,
}

/// One honor of the honor panel: the index of the player's honor slot and
/// whether it is drawn full size.
#[derive(Clone, Copy, Debug, PartialEq, Eq)]
pub struct HonorSlotPlan {
    pub slot: usize,
    pub full_size: bool,
}

/// What the General panels show of a player.
#[derive(Clone, Debug, PartialEq)]
pub struct ComponentPlan {
    pub locale: String,
    pub region_fonts: Vec<(i32, String)>,
    pub localized_text: Vec<(String, String)>,
    pub user_name: String,
    pub word: String,
    pub user_rank: i32,
    pub total_power: i64,
    pub mvp: i32,
    pub superstar: i32,
    pub challenge_score: i32,
    pub challenge_character_id: i32,
    pub challenge_avatar: Option<ComponentImagePlan>,
    pub music_results: Option<MusicResultsSnapshot>,
    pub story_favorites: Vec<StoryFavoritePlan>,
    pub player_avatar: Option<ComponentImagePlan>,
    pub character_ranks: Vec<CharacterRankPlan>,
    pub deck_members: Vec<CardVisualPlan>,
    pub leader_card: Option<CardVisualPlan>,
    pub honor_slots: Vec<HonorSlotPlan>,
}

/// Whether `unavailable` accepts every key.
pub open spec fn answers_every_key<F: Fn(&ResourceKey) -> bool>(unavailable: F) -> bool {
    forall|k: ResourceKey| call_requires(unavailable, (&k,))
}

/// `d` is the descriptor of the resource `namespace`/`key` read from row
/// `id` of `table`, left out exactly when `unavailable` answered `true` for
/// that resource.
pub open spec fn descriptor_ok<F: Fn(&ResourceKey) -> bool>(
    d: Option<DescriptorPlan>,
    namespace: Seq<char>,
    key: Seq<char>,
    table: Seq<char>,
    id: i32,
    unavailable: F,
) -> bool {
    exists|k: ResourceKey, u: bool|
        {
            &&& k@ == key_view(namespace, key)
            &&& #[trigger] call_ensures(unavailable, (&k,), u)
            &&& match d {
                None => u,
                Some(p) => !u && p.resource == k && p.table@ == table && p.id == id,
            }
        }
}

/// `img` shows `field`/`source_id` and draws `namespace`/`key` (row `id`
/// of `table`) unless that resource is unavailable.
pub open spec fn image_ok<F: Fn(&ResourceKey) -> bool>(
    img: ComponentImagePlan,
    field: Seq<char>,
    source_id: Seq<char>,
    namespace: Seq<char>,
    key: Seq<char>,
    table: Seq<char>,
    id: i32,
    unavailable: F,
) -> bool {
    &&& img.source_field@ == field
    &&& img.source_id@ == source_id
    &&& descriptor_ok(img.descriptor, namespace, key, table, id, unavailable)
}

/// The decimal text of `n`.
pub open spec fn decimal(n: i32) -> Seq<char> {
    padded_decimal(n as int, 0)
}

/// The avatar of character `id`.
pub open spec fn avatar_key(id: i32) -> Seq<char> {
    "chara_avatar/chara"@ + padded_decimal(id as int, 2) + "_02"@
}

/// The player avatar of a leader card drawn from `bundle`.
pub open spec fn player_avatar_key(bundle: Seq<char>, after_training: bool) -> Seq<char> {
    "thumbnail/chara/"@ + bundle + "_"@ + if after_training { "after_training"@ } else { "normal"@ }
}

/// The avatar image of character `id` for `field`.
pub open spec fn avatar_ok<F: Fn(&ResourceKey) -> bool>(img: ComponentImagePlan, field: Seq<char>, id: i32, unavailable: F) -> bool {
    image_ok(img, field, decimal(id), "static"@, avatar_key(id), "gameCharacters"@, id, unavailable)
}

/// `r` is the card visual of `card` for the master-data row `entry`: none
/// without a row, else the card drawn with `member_type` art.
pub open spec fn card_visual_ok<F: Fn(&ResourceKey) -> bool>(
    r: Option<CardVisualPlan>,
    entry: Option<CardEntry>,
    card: CardState,
    member_type: i32,
    trained: bool,
    field: Seq<char>,
    unavailable: F,
) -> bool {
    match entry {
        None => r is None,
        Some(e) => r is Some && {
            let v = r.unwrap();
            &&& v.card_id == card.card_id
            &&& v.after_training == trained
            &&& v.master_rank == card.master_rank
            &&& v.level == card.level
            &&& v.rarity@ == e.card_rarity_type@
            &&& v.attribute@ == e.attr@
            &&& image_ok(
                v.image,
                field,
                decimal(card.card_id),
                "assets"@,
                card_artwork(e.asset_bundle_name@, member_type, card.after_training),
                "cards"@,
                card.card_id,
                unavailable,
            )
        },
    }
}

/// The indices, below `n`, of the entries that are present.
pub open spec fn present_indices(entries: Seq<Option<CardEntry>>, n: int) -> Seq<int>
    decreases n,
{
    if n <= 0 {
        Seq::empty()
    } else {
        present_indices(entries, n - 1) + if entries[n - 1] is Some {
            seq![n - 1]
        } else {
            Seq::empty()
        }
    }
}

/// The indices, below `n`, of the honor slots whose size is `full`.
pub open spec fn sized_indices(slots: Seq<HonorSlot>, n: int, full: bool) -> Seq<int>
    decreases n,
{
    if n <= 0 {
        Seq::empty()
    } else {
        sized_indices(slots, n - 1, full) + if slots[n - 1].full_size == full {
            seq![n - 1]
        } else {
            Seq::empty()
        }
    }
}

/// The order the honor panel shows the slots in: full-size slots first,
/// each group in slot order, then the first two exchanged.
pub open spec fn honor_order(slots: Seq<HonorSlot>) -> Seq<int> {
    let s = sized_indices(slots, slots.len() as int, true) + sized_indices(slots, slots.len() as int, false);
    if s.len() >= 2 {
        s.update(0, s[1]).update(1, s[0])
    } else {
        s
    }
}

/// The rank of the first entry from `i` on for `character_id`.
pub open spec fn first_rank(ranks: Seq<CharacterRank>, character_id: i32, i: int) -> Option<i32>
    decreases ranks.len() - i,
{
    if i < 0 || i >= ranks.len() {
        None
    } else if ranks[i].character_id == character_id {
        Some(ranks[i].rank)
    } else {
        first_rank(ranks, character_id, i + 1)
    }
}

/// The value of the first entry for `key` in a label snapshot.
pub open spec fn snapshot_value(entries: Seq<(String, String)>, key: Seq<char>) -> Option<Seq<char>>
    decreases entries.len(),
{
    if entries.len() == 0 {
        None
    } else if entries[0].0@ == key {
        Some(entries[0].1@)
    } else {
        snapshot_value(entries.drop_first(), key)
    }
}

/// The labels among the first `n` keys that have a value, as key and value.
pub open spec fn labelled(keys: Seq<&str>, values: Seq<Option<Seq<char>>>, n: int) -> Seq<(Seq<char>, Seq<char>)>
    decreases n,
{
    if n <= 0 {
        Seq::empty()
    } else {
        labelled(keys, values, n - 1) + match values[n - 1] {
            Some(v) => seq![(keys[n - 1]@, v)],
            None => Seq::empty(),
        }
    }
}

/// The characters of label pairs.
pub open spec fn label_views(labels: Seq<(String, String)>) -> Seq<(Seq<char>, Seq<char>)> {
    labels.map_values(|l: (String, String)| (l.0@, l.1@))
}

/// The panel slot plan of `story`: an empty one for a slot nobody shares,
/// else the story with its banner as master data `banner` names it.
pub open spec fn story_plan_ok<F: Fn(&ResourceKey) -> bool>(
    p: StoryFavoritePlan,
    story: Option<StoryFavorite>,
    banner: Option<String>,
    unavailable: F,
) -> bool {
    match story {
        None => {
            &&& p.story_id == 0
            &&& p.story_type@ == Seq::<char>::empty()
            &&& p.image.source_field@ == "userProfile.storyFavorites"@
            &&& p.image.source_id@ == Seq::<char>::empty()
            &&& p.image.descriptor is None
        },
        Some(s) => {
            &&& p.story_id == s.story_id
            &&& p.story_type@ == s.story_type@
            &&& p.image.source_field@ == "userProfile.storyFavorites"@
            &&& p.image.source_id@ == s.story_type@ + ":"@ + decimal(s.story_id)
            &&& match banner {
                None => p.image.descriptor is None,
                Some(key) => descriptor_ok(p.image.descriptor, "assets"@, key@, "storyFavorites"@, s.story_id, unavailable),
            }
        },
    }
}

/// The story in each panel slot.
pub open spec fn slotted_stories(stories: Seq<StoryFavorite>) -> Seq<Option<StoryFavorite>> {
    share_slots(stories.map_values(|s: StoryFavorite| s.share_no), stories.len() as int).map_values(
        |s: Option<int>|
            match s {
                Some(i) => Some(stories[i]),
                None => None,
            },
    )
}

fn decimal_string(n: i32) -> (s: String)
    ensures
        s@ == decimal(n),
{
    let mut s = String::new();
    push_padded_decimal(&mut s, n as i64, 0);
    s
}

fn descriptor<F: Fn(&ResourceKey) -> bool>(
    namespace: &str,
    key: String,
    table: &str,
    id: i32,
    unavailable: &F,
) -> (d: Option<DescriptorPlan>)
    requires
        answers_every_key(*unavailable),
    ensures
        descriptor_ok(d, namespace@, key@, table@, id, *unavailable),
{
    let resource = ResourceKey { namespace: String::from_str(namespace), key };
    let gone = unavailable(&resource);
    if gone {
        None
    } else {
        Some(DescriptorPlan { resource, table: String::from_str(table), id })
    }
}

fn image<F: Fn(&ResourceKey) -> bool>(
    field: &str,
    source_id: String,
    namespace: &str,
    key: String,
    table: &str,
    id: i32,
    unavailable: &F,
) -> (img: ComponentImagePlan)
    requires
        answers_every_key(*unavailable),
    ensures
        image_ok(img, field@, source_id@, namespace@, key@, table@, id, *unavailable),
{
    let descriptor = descriptor(namespace, key, table, id, unavailable);
    ComponentImagePlan { source_field: String::from_str(field), source_id, descriptor }
}

fn avatar<F: Fn(&ResourceKey) -> bool>(field: &str, id: i32, unavailable: &F) -> (img: ComponentImagePlan)
    requires
        answers_every_key(*unavailable),
    ensures
        avatar_ok(img, field@, id, *unavailable),
{
    let mut key = String::from_str("chara_avatar/chara");
    push_padded_decimal(&mut key, id as i64, 2);
    key.append("_02");
    image(field, decimal_string(id), "static", key, "gameCharacters", id, unavailable)
}

fn card_visual<M: ProfileMasterData, F: Fn(&ResourceKey) -> bool>(
    masterdata: &M,
    card: &CardState,
    member_type: i32,
    trained: bool,
    field: &str,
    unavailable: &F,
) -> (r: Option<CardVisualPlan>)
    requires
        answers_every_key(*unavailable),
    ensures
        exists|entry: Option<CardEntry>|
            {
                &&& #[trigger] call_ensures(M::get_card, (masterdata, card.card_id), entry)
                &&& card_visual_ok(r, entry, *card, member_type, trained, field@, *unavailable)
            },
{
    let entry = masterdata.get_card(card.card_id);
    let ghost found = entry;
    match entry {
        None => None,
        Some(e) => {
            let key = card_artwork_key(e.asset_bundle_name.as_str(), member_type, card.after_training);
            let img = image(field, decimal_string(card.card_id), "assets", key, "cards", card.card_id, unavailable);
            let r = Some(
                CardVisualPlan {
                    card_id: card.card_id,
                    after_training: trained,
                    master_rank: card.master_rank,
                    level: card.level,
                    rarity: e.card_rarity_type,
                    attribute: e.attr,
                    image: img,
                },
            );
            assert(card_visual_ok(r, found, *card, member_type, trained, field@, *unavailable));
            r
        },
    }
}

fn honor_slot_order(slots: &Vec<HonorSlot>) -> (r: Vec<HonorSlotPlan>)
    ensures
        r@.len() == honor_order(slots@).len(),
        forall|j: int|
            0 <= j < r@.len() ==> (#[trigger] r@[j]).slot == honor_order(slots@)[j] && r@[j].full_size == (j == 0),
{
    let mut order: Vec<usize> = Vec::new();
    let mut small: Vec<usize> = Vec::new();
    let mut i: usize = 0;
    while i < slots.len()
        invariant
            i <= slots@.len(),
            order@.map_values(|x: usize| x as int) == sized_indices(slots@, i as int, true),
            small@.map_values(|x: usize| x as int) == sized_indices(slots@, i as int, false),
        decreases slots.len() - i,
    {
        if slots[i].full_size {
            order.push(i);
        } else {
            small.push(i);
        }
        i = i + 1;
        assert(order@.map_values(|x: usize| x as int) =~= sized_indices(slots@, i as int, true));
        assert(small@.map_values(|x: usize| x as int) =~= sized_indices(slots@, i as int, false));
    }
    let ghost joined = sized_indices(slots@, slots@.len() as int, true) + sized_indices(
        slots@,
        slots@.len() as int,
        false,
    );
    let mut k: usize = 0;
    let ghost first = order@;
    while k < small.len()
        invariant
            k <= small@.len(),
            order@.len() == first.len() + k,
            order@.map_values(|x: usize| x as int) == joined.take(first.len() + k),
            first.map_values(|x: usize| x as int) == sized_indices(slots@, slots@.len() as int, true),
            small@.map_values(|x: usize| x as int) == sized_indices(slots@, slots@.len() as int, false),
            joined == sized_indices(slots@, slots@.len() as int, true) + sized_indices(
                slots@,
                slots@.len() as int,
                false,
            ),
        decreases small.len() - k,
    {
        order.push(small[k]);
        k = k + 1;
        assert(joined[first.len() + k - 1] == small@[k - 1] as int);
        assert(order@.map_values(|x: usize| x as int) =~= joined.take(first.len() + k));
    }
    assert(order@.map_values(|x: usize| x as int) =~= joined);
    if order.len() >= 2 {
        let a = order[0];
        let b = order[1];
        order.set(0, b);
        order.set(1, a);
    }
    let ghost want = honor_order(slots@);
    assert(order@.map_values(|x: usize| x as int) =~= want);
    let mut r: Vec<HonorSlotPlan> = Vec::new();
    let mut j: usize = 0;
    while j < order.len()
        invariant
            j <= order@.len(),
            order@.map_values(|x: usize| x as int) == want,
            r@.len() == j,
            forall|t: int| 0 <= t < j ==> (#[trigger] r@[t]).slot == want[t] && r@[t].full_size == (t == 0),
        decreases order.len() - j,
    {
        assert(want[j as int] == order@[j as int] as int);
        r.push(HonorSlotPlan { slot: order[j], full_size: j == 0 });
        j = j + 1;
    }
    r
}

fn first_challenge_rank(ranks: &Vec<CharacterRank>, character_id: i32) -> (r: Option<i32>)
    ensures
        r == first_rank(ranks@, character_id, 0),
{
    let mut i: usize = 0;
    while i < ranks.len()
        invariant
            i <= ranks@.len(),
            first_rank(ranks@, character_id, 0) == first_rank(ranks@, character_id, i as int),
        decreases ranks.len() - i,
    {
        if ranks[i].character_id == character_id {
            return Some(ranks[i].rank);
        }
        i = i + 1;
    }
    None
}


/// The clear counts a component shows for music results.
pub open spec fn results_snapshot(m: MusicResults) -> MusicResultsSnapshot {
    MusicResultsSnapshot {
        easy: difficulty_snapshot(m.easy),
        normal: difficulty_snapshot(m.normal),
        hard: difficulty_snapshot(m.hard),
        expert: difficulty_snapshot(m.expert),
        master: difficulty_snapshot(m.master),
        append: difficulty_snapshot(m.append),
    }
}

/// The story panel of `plans`: one plan per slot, each with the banner
/// master data named for its story.
pub open spec fn stories_ok<M: ProfileMasterData, F: Fn(&ResourceKey) -> bool>(
    plans: Seq<StoryFavoritePlan>,
    stories: Seq<StoryFavorite>,
    masterdata: &M,
    unavailable: F,
) -> bool {
    exists|banners: Seq<Option<String>>| #[trigger] stories_with(plans, stories, masterdata, unavailable, banners)
}

/// The story panel of `plans`, with `banners` what master data answered
/// for the story of each slot.
pub open spec fn stories_with<M: ProfileMasterData, F: Fn(&ResourceKey) -> bool>(
    plans: Seq<StoryFavoritePlan>,
    stories: Seq<StoryFavorite>,
    masterdata: &M,
    unavailable: F,
    banners: Seq<Option<String>>,
) -> bool {
    let slots = slotted_stories(stories);
    &&& banners.len() == slots.len()
    &&& plans.len() == slots.len()
    &&& forall|j: int|
        0 <= j < slots.len() ==> #[trigger] story_slot_ok(masterdata, slots[j], banners[j], plans[j], unavailable)
}

/// The character-rank panel: each rank with the first challenge rank of
/// its character and its avatar.
pub open spec fn ranks_ok<F: Fn(&ResourceKey) -> bool>(
    plans: Seq<CharacterRankPlan>,
    ranks: Seq<CharacterRank>,
    challenge: Seq<CharacterRank>,
    unavailable: F,
) -> bool {
    &&& plans.len() == ranks.len()
    &&& forall|i: int|
        0 <= i < ranks.len() ==> {
            &&& (#[trigger] plans[i]).character_id == ranks[i].character_id
            &&& plans[i].rank == ranks[i].rank
            &&& plans[i].challenge_rank == first_rank(challenge, ranks[i].character_id, 0)
            &&& avatar_ok(plans[i].avatar, "userProfile.characterRanks"@, ranks[i].character_id, unavailable)
        }
}

/// The deck panel: the deck members that master data lists, in deck
/// order, drawn cut out with trained stars once special training is done.
pub open spec fn deck_ok<M: ProfileMasterData, F: Fn(&ResourceKey) -> bool>(
    plans: Seq<CardVisualPlan>,
    deck: Seq<CardState>,
    masterdata: &M,
    unavailable: F,
) -> bool {
    exists|entries: Seq<Option<CardEntry>>|
        {
            &&& entries.len() == deck.len()
            &&& forall|i: int|
                0 <= i < deck.len() ==> #[trigger] call_ensures(M::get_card, (masterdata, deck[i].card_id), entries[i])
            &&& plans.len() == present_indices(entries, deck.len() as int).len()
            &&& forall|j: int|
                0 <= j < plans.len() ==> {
                    let i = present_indices(entries, deck.len() as int)[j];
                    card_visual_ok(
                        Some(#[trigger] plans[j]),
                        entries[i],
                        deck[i],
                        1,
                        deck[i].special_training_done,
                        "userProfile.deckMembers"@,
                        unavailable,
                    )
                }
        }
}

/// The leader card, drawn with its small full illustration and with the
/// stars of the illustration the player shows.
pub open spec fn leader_ok<M: ProfileMasterData, F: Fn(&ResourceKey) -> bool>(
    plan: Option<CardVisualPlan>,
    leader: Option<CardState>,
    masterdata: &M,
    unavailable: F,
) -> bool {
    match leader {
        None => plan is None,
        Some(card) => exists|e: Option<CardEntry>|
            {
                &&& #[trigger] call_ensures(M::get_card, (masterdata, card.card_id), e)
                &&& card_visual_ok(plan, e, card, 2, card.after_training, "userProfile.leaderCard"@, unavailable)
            },
    }
}

/// The player avatar: the thumbnail of the leader card.
pub open spec fn player_avatar_ok<M: ProfileMasterData, F: Fn(&ResourceKey) -> bool>(
    plan: Option<ComponentImagePlan>,
    leader: Option<CardState>,
    masterdata: &M,
    unavailable: F,
) -> bool {
    match leader {
        None => plan is None,
        Some(card) => exists|e: Option<CardEntry>|
            {
                &&& #[trigger] call_ensures(M::get_card, (masterdata, card.card_id), e)
                &&& match e {
                    None => plan is None,
                    Some(entry) => plan is Some && image_ok(
                        plan.unwrap(),
                        "userProfile.leaderCard"@,
                        decimal(card.card_id),
                        "assets"@,
                        player_avatar_key(entry.asset_bundle_name@, card.after_training),
                        "cards"@,
                        card.card_id,
                        unavailable,
                    ),
                }
            },
    }
}

/// The labels: each General label, in order, with its text from the
/// snapshot when there is one, else from master data; a label without
/// text is left out.
pub open spec fn labels_ok<M: ProfileMasterData>(
    labels: Seq<(String, String)>,
    snapshot: Option<Seq<(String, String)>>,
    masterdata: &M,
) -> bool {
    exists|values: Seq<Option<Seq<char>>>|
        {
            &&& values.len() == GENERAL_LOCALIZATION_KEYS@.len()
            &&& forall|i: int|
                0 <= i < values.len() ==> match snapshot {
                    Some(entries) => #[trigger] values[i] == snapshot_value(entries, GENERAL_LOCALIZATION_KEYS@[i]@),
                    None => exists|a: Option<String>|
                        {
                            &&& #[trigger] call_ensures(
                                M::resolve_localized_text,
                                (masterdata, GENERAL_LOCALIZATION_KEYS@[i]),
                                a,
                            )
                            &&& values[i] == opt_string_view(a)
                        },
                }
            &&& label_views(labels) == labelled(GENERAL_LOCALIZATION_KEYS@, values, values.len() as int)
        }
}

/// Everything a component plan shows of `profile`.
pub open spec fn component_ok<M: ProfileMasterData, F: Fn(&ResourceKey) -> bool>(
    p: ComponentPlan,
    profile: ProfileData,
    masterdata: &M,
    locale: Seq<char>,
    unavailable: F,
    snapshot: Option<Seq<(String, String)>>,
) -> bool {
    &&& p.locale@ == locale
    &&& labels_ok(p.localized_text@, snapshot, masterdata)
    &&& p.user_name@ == profile.user_name@
    &&& p.word@ == profile.word@
    &&& p.user_rank == profile.user_rank
    &&& p.total_power == profile.total_power
    &&& p.mvp == profile.mvp
    &&& p.superstar == profile.superstar
    &&& p.challenge_score == profile.challenge_score
    &&& p.challenge_character_id == profile.challenge_character_id
    &&& if profile.challenge_character_id > 0 {
        &&& p.challenge_avatar is Some
        &&& avatar_ok(
            p.challenge_avatar.unwrap(),
            "userProfile.challengeLiveSoloResult.characterId"@,
            profile.challenge_character_id,
            unavailable,
        )
    } else {
        p.challenge_avatar is None
    }
    &&& p.music_results == match profile.music_results {
        Some(m) => Some(results_snapshot(m)),
        None => None,
    }
    &&& stories_ok(p.story_favorites@, profile.story_favorites@, masterdata, unavailable)
    &&& player_avatar_ok(p.player_avatar, profile.leader_card, masterdata, unavailable)
    &&& ranks_ok(p.character_ranks@, profile.character_ranks@, profile.challenge_ranks@, unavailable)
    &&& deck_ok(p.deck_members@, profile.deck_members@, masterdata, unavailable)
    &&& leader_ok(p.leader_card, profile.leader_card, masterdata, unavailable)
    &&& exists|built: Seq<bool>| #[trigger] honor_slots_ok(p.honor_slots@, profile.honor_slots@, masterdata, built)
}

/// Whether master data can draw honor `slot`: a bonds honor when it lists
/// the bonds honor, another honor when it resolves the honor at the slot's
/// level; `built` is the answer, as the master data gave it.
pub open spec fn honor_builds<M: ProfileMasterData>(masterdata: &M, slot: HonorSlot, built: bool) -> bool {
    if slot.profile_honor_type@ == "bonds"@ {
        exists|entry: Option<crate::masterdata::BondsHonorEntry>|
            #[trigger] call_ensures(M::get_bonds_honor, (masterdata, slot.honor_id), entry) && built == entry is Some
    } else {
        exists|honor: Option<crate::masterdata::ResolvedHonor>|
            #[trigger] call_ensures(M::resolve_honor, (masterdata, slot.honor_id, slot.honor_level), honor) && built
                == honor is Some
    }
}

/// The honor slots of `order` whose `built` answer is yes, each drawn full
/// size when it comes first in the order.
pub open spec fn kept_honors(order: Seq<int>, built: Seq<bool>, n: int) -> Seq<HonorSlotPlan>
    decreases n,
{
    if n <= 0 {
        Seq::empty()
    } else {
        kept_honors(order, built, n - 1) + if built[n - 1] {
            seq![HonorSlotPlan { slot: order[n - 1] as usize, full_size: n - 1 == 0 }]
        } else {
            Seq::empty()
        }
    }
}

/// `plans` are the player's honor slots in the order the panel shows them,
/// those master data cannot draw left out, as `built` answers for each.
pub open spec fn honor_slots_ok<M: ProfileMasterData>(
    plans: Seq<HonorSlotPlan>,
    slots: Seq<HonorSlot>,
    masterdata: &M,
    built: Seq<bool>,
) -> bool {
    let order = honor_order(slots);
    &&& built.len() == order.len()
    &&& forall|j: int| 0 <= j < order.len() ==> honor_builds(masterdata, slots[order[j]], #[trigger] built[j])
    &&& plans == kept_honors(order, built, order.len() as int)
}

proof fn lemma_sized_indices_bounds(slots: Seq<HonorSlot>, n: int, full: bool)
    requires
        0 <= n <= slots.len(),
    ensures
        forall|t: int| 0 <= t < sized_indices(slots, n, full).len() ==> 0 <= #[trigger] sized_indices(slots, n, full)[t] < n,
    decreases n,
{
    if n > 0 {
        lemma_sized_indices_bounds(slots, n - 1, full);
        let prev = sized_indices(slots, n - 1, full);
        assert forall|t: int| 0 <= t < sized_indices(slots, n, full).len() implies 0 <= #[trigger] sized_indices(
            slots,
            n,
            full,
        )[t] < n by {
            if t < prev.len() {
                assert(sized_indices(slots, n, full)[t] == prev[t]);
            }
        }
    }
}

proof fn lemma_honor_order_bounds(slots: Seq<HonorSlot>)
    ensures
        forall|t: int| 0 <= t < honor_order(slots).len() ==> 0 <= #[trigger] honor_order(slots)[t] < slots.len(),
{
    let n = slots.len() as int;
    lemma_sized_indices_bounds(slots, n, true);
    lemma_sized_indices_bounds(slots, n, false);
    let a = sized_indices(slots, n, true);
    let b = sized_indices(slots, n, false);
    let s = a + b;
    assert forall|t: int| 0 <= t < s.len() implies 0 <= #[trigger] s[t] < n by {
        if t < a.len() {
            assert(s[t] == a[t]);
        } else {
            assert(s[t] == b[t - a.len()]);
        }
    }
}

/// The honor slots of `plans` master data can draw, in the same order.
fn drawable_honors<M: ProfileMasterData>(plans: Vec<HonorSlotPlan>, slots: &Vec<HonorSlot>, masterdata: &M) -> (r: Vec<
    HonorSlotPlan,
>)
    requires
        plans@.len() == honor_order(slots@).len(),
        forall|j: int|
            0 <= j < plans@.len() ==> (#[trigger] plans@[j]).slot == honor_order(slots@)[j] && plans@[j].full_size == (j
                == 0),
    ensures
        exists|built: Seq<bool>| #[trigger] honor_slots_ok(r@, slots@, masterdata, built),
{
    let ghost order = honor_order(slots@);
    proof {
        lemma_honor_order_bounds(slots@);
    }
    let mut out: Vec<HonorSlotPlan> = Vec::new();
    let ghost mut built: Seq<bool> = Seq::empty();
    let mut j: usize = 0;
    while j < plans.len()
        invariant
            order == honor_order(slots@),
            plans@.len() == order.len(),
            forall|t: int| 0 <= t < order.len() ==> 0 <= #[trigger] order[t] < slots@.len(),
            forall|t: int|
                0 <= t < plans@.len() ==> (#[trigger] plans@[t]).slot == order[t] && plans@[t].full_size == (t == 0),
            j <= plans@.len(),
            built.len() == j,
            forall|t: int| 0 <= t < j ==> honor_builds(masterdata, slots@[order[t]], #[trigger] built[t]),
            out@ == kept_honors(order, built, j as int),
        decreases plans.len() - j,
    {
        let plan = plans[j];
        let slot = &slots[plan.slot];
        let ok = if crate::text::str_eq(slot.profile_honor_type.as_str(), "bonds") {
            let entry = masterdata.get_bonds_honor(slot.honor_id);
            proof {
                assert(call_ensures(M::get_bonds_honor, (masterdata, slot.honor_id), entry));
            }
            entry.is_some()
        } else {
            let honor = masterdata.resolve_honor(slot.honor_id, slot.honor_level);
            proof {
                assert(call_ensures(M::resolve_honor, (masterdata, slot.honor_id, slot.honor_level), honor));
            }
            honor.is_some()
        };
        proof {
            assert(slots@[order[j as int]] == *slot);
            assert(honor_builds(masterdata, slots@[order[j as int]], ok));
        }
        let ghost prev = built;
        if ok {
            out.push(plan);
        }
        proof {
            built = built.push(ok);
            assert(built.drop_last() =~= prev);
            assert forall|t: int| 0 <= t < j + 1 implies honor_builds(masterdata, slots@[order[t]], #[trigger] built[t]) by {
                if t < j {
                    assert(built[t] == prev[t]);
                }
            }
            assert(kept_honors(order, built, j as int) == kept_honors(order, prev, j as int)) by {
                lemma_kept_prefix(order, prev, built, j as int);
            }
            assert(out@ =~= kept_honors(order, built, j + 1));
        }
        j = j + 1;
    }
    proof {
        assert(honor_slots_ok(out@, slots@, masterdata, built));
    }
    out
}

proof fn lemma_kept_prefix(order: Seq<int>, a: Seq<bool>, b: Seq<bool>, n: int)
    requires
        0 <= n <= a.len(),
        n <= b.len(),
        forall|t: int| 0 <= t < n ==> a[t] == b[t],
    ensures
        kept_honors(order, a, n) == kept_honors(order, b, n),
    decreases n,
{
    if n > 0 {
        lemma_kept_prefix(order, a, b, n - 1);
    }
}

fn snapshot_lookup(entries: &Vec<(String, String)>, key: &str) -> (r: Option<String>)
    ensures
        opt_string_view(r) == snapshot_value(entries@, key@),
{
    let mut i: usize = 0;
    assert(entries@.skip(0) =~= entries@);
    while i < entries.len()
        invariant
            i <= entries@.len(),
            snapshot_value(entries@, key@) == snapshot_value(entries@.skip(i as int), key@),
        decreases entries.len() - i,
    {
        assert(entries@.skip(i as int).drop_first() =~= entries@.skip(i + 1));
        if crate::text::str_eq(entries[i].0.as_str(), key) {
            return Some(entries[i].1.clone());
        }
        i = i + 1;
    }
    None
}

/// `v` is the text of label `i`: from the snapshot when there is one, else
/// what master data answered.
pub open spec fn label_value_ok<M: ProfileMasterData>(
    masterdata: &M,
    snapshot: Option<Seq<(String, String)>>,
    i: int,
    v: Option<Seq<char>>,
) -> bool {
    match snapshot {
        Some(entries) => v == snapshot_value(entries, GENERAL_LOCALIZATION_KEYS@[i]@),
        None => exists|a: Option<String>|
            {
                &&& #[trigger] call_ensures(M::resolve_localized_text, (masterdata, GENERAL_LOCALIZATION_KEYS@[i]), a)
                &&& v == opt_string_view(a)
            },
    }
}

fn labels<M: ProfileMasterData>(masterdata: &M, snapshot: Option<&Vec<(String, String)>>) -> (r: Vec<(String, String)>)
    ensures
        labels_ok(
            r@,
            match snapshot {
                Some(v) => Some(v@),
                None => None,
            },
            masterdata,
        ),
{
    let keys = GENERAL_LOCALIZATION_KEYS;
    let ghost snap = match snapshot {
        Some(v) => Some(v@),
        None => None::<Seq<(String, String)>>,
    };
    let mut out: Vec<(String, String)> = Vec::new();
    let ghost mut values: Seq<Option<Seq<char>>> = Seq::empty();
    let mut i: usize = 0;
    while i < keys.len()
        invariant
            keys@ == GENERAL_LOCALIZATION_KEYS@,
            snap == match snapshot {
                Some(v) => Some(v@),
                None => None::<Seq<(String, String)>>,
            },
            i <= keys@.len(),
            values.len() == i,
            forall|t: int| 0 <= t < i ==> #[trigger] label_value_ok(masterdata, snap, t, values[t]),
            label_views(out@) == labelled(GENERAL_LOCALIZATION_KEYS@, values, i as int),
        decreases keys.len() - i,
    {
        let key: &'static str = keys[i];
        let value = match snapshot {
            Some(entries) => snapshot_lookup(entries, key),
            None => {
                let a = masterdata.resolve_localized_text(key);
                assert(call_ensures(M::resolve_localized_text, (masterdata, GENERAL_LOCALIZATION_KEYS@[i as int]), a));
                a
            },
        };
        let ghost old_values = values;
        let ghost before = out@;
        proof {
            values = values.push(opt_string_view(value));
            assert(label_value_ok(masterdata, snap, i as int, values[i as int]));
            assert forall|t: int| 0 <= t < i + 1 implies #[trigger] label_value_ok(masterdata, snap, t, values[t]) by {
                if t < i {
                    assert(values[t] == old_values[t]);
                }
            }
            lemma_labelled_prefix(GENERAL_LOCALIZATION_KEYS@, values, old_values, i as int);
        }
        match value {
            Some(v) => {
                out.push((String::from_str(key), v));
                proof {
                    assert(label_views(out@) =~= label_views(before).push((key@, v@)));
                }
            },
            None => {},
        }
        i = i + 1;
        proof {
            assert(label_views(out@) =~= labelled(GENERAL_LOCALIZATION_KEYS@, values, i as int));
        }
    }
    proof {
        assert forall|t: int| 0 <= t < values.len() implies match snap {
            Some(entries) => #[trigger] values[t] == snapshot_value(entries, GENERAL_LOCALIZATION_KEYS@[t]@),
            None => exists|a: Option<String>|
                {
                    &&& #[trigger] call_ensures(M::resolve_localized_text, (masterdata, GENERAL_LOCALIZATION_KEYS@[t]), a)
                    &&& values[t] == opt_string_view(a)
                },
        } by {
            assert(label_value_ok(masterdata, snap, t, values[t]));
        }
    }
    out
}

proof fn lemma_labelled_prefix(keys: Seq<&str>, a: Seq<Option<Seq<char>>>, b: Seq<Option<Seq<char>>>, n: int)
    requires
        0 <= n <= a.len(),
        n <= b.len(),
        forall|t: int| 0 <= t < n ==> a[t] == b[t],
    ensures
        labelled(keys, a, n) == labelled(keys, b, n),
    decreases n,
{
    if n > 0 {
        lemma_labelled_prefix(keys, a, b, n - 1);
    }
}


fn share_no_of(story: &StoryFavorite) -> (n: i32)
    ensures
        n == story.share_no,
{
    story.share_no
}

/// Slot plan `p` for `story`, with `banner` what master data answered for it.
pub open spec fn story_slot_ok<M: ProfileMasterData, F: Fn(&ResourceKey) -> bool>(
    masterdata: &M,
    story: Option<StoryFavorite>,
    banner: Option<String>,
    p: StoryFavoritePlan,
    unavailable: F,
) -> bool {
    &&& story is Some ==> exists|x: &str|
        {
            &&& x@ == story.unwrap().story_type@
            &&& #[trigger] call_ensures(M::resolve_story_banner, (masterdata, x, story.unwrap().story_id), banner)
        }
    &&& story_plan_ok(p, story, banner, unavailable)
}

fn story_plans<M: ProfileMasterData, F: Fn(&ResourceKey) -> bool>(
    stories: &Vec<StoryFavorite>,
    masterdata: &M,
    unavailable: &F,
) -> (r: Vec<StoryFavoritePlan>)
    requires
        answers_every_key(*unavailable),
    ensures
        stories_ok(r@, stories@, masterdata, *unavailable),
{
    let sl = stories.as_slice();
    let slots = story_favorite_slots(sl, share_no_of);
    let ghost want = slotted_stories(stories@);
    proof {
        let nos = choose|nos: Seq<i32>|
            {
                &&& nos.len() == sl@.len()
                &&& forall|i: int|
                    0 <= i < nos.len() ==> call_ensures(share_no_of, (&sl@[i],), #[trigger] nos[i])
                &&& slots@ == crate::profile_data::slot_stories(sl, share_slots(nos, nos.len() as int))
            };
        assert(nos =~= stories@.map_values(|s: StoryFavorite| s.share_no));
        assert(slots@.len() == want.len());
        assert forall|j: int| 0 <= j < want.len() implies (match #[trigger] slots@[j] {
            Some(s) => Some(*s),
            None => None,
        }) == want[j] by {}
    }
    let mut out: Vec<StoryFavoritePlan> = Vec::new();
    let ghost mut banners: Seq<Option<String>> = Seq::empty();
    let mut j: usize = 0;
    while j < slots.len()
        invariant
            answers_every_key(*unavailable),
            want == slotted_stories(stories@),
            slots@.len() == want.len(),
            forall|t: int|
                0 <= t < want.len() ==> (match #[trigger] slots@[t] {
                    Some(s) => Some(*s),
                    None => None,
                }) == want[t],
            j <= slots@.len(),
            out@.len() == j,
            banners.len() == j,
            forall|t: int| 0 <= t < j ==> #[trigger] story_slot_ok(masterdata, want[t], banners[t], out@[t], *unavailable),
        decreases slots.len() - j,
    {
        assert(match slots@[j as int] {
            Some(s) => Some(*s),
            None => None,
        } == want[j as int]);
        let plan = match slots[j] {
            None => {
                proof {
                    banners = banners.push(None);
                }
                StoryFavoritePlan {
                    story_id: 0,
                    story_type: String::new(),
                    image: ComponentImagePlan {
                        source_field: String::from_str("userProfile.storyFavorites"),
                        source_id: String::new(),
                        descriptor: None,
                    },
                }
            },
            Some(story) => {
                let t = story.story_type.as_str();
                let banner = masterdata.resolve_story_banner(t, story.story_id);
                assert(call_ensures(M::resolve_story_banner, (masterdata, t, story.story_id), banner));
                proof {
                    banners = banners.push(banner);
                }
                let ghost b = banner;
                let descriptor = match banner {
                    Some(key) => descriptor("assets", key, "storyFavorites", story.story_id, unavailable),
                    None => None,
                };
                let mut source_id = story.story_type.clone();
                source_id.append(":");
                push_padded_decimal(&mut source_id, story.story_id as i64, 0);
                let plan = StoryFavoritePlan {
                    story_id: story.story_id,
                    story_type: story.story_type.clone(),
                    image: ComponentImagePlan {
                        source_field: String::from_str("userProfile.storyFavorites"),
                        source_id,
                        descriptor,
                    },
                };
                assert(story_plan_ok(plan, Some(*story), b, *unavailable));
                assert(story_slot_ok(masterdata, Some(*story), b, plan, *unavailable));
                plan
            },
        };
        let ghost old_out = out@;
        let ghost old_banners = banners.drop_last();
        out.push(plan);
        j = j + 1;
        proof {
            assert forall|t: int| 0 <= t < j implies #[trigger] story_slot_ok(
                masterdata,
                want[t],
                banners[t],
                out@[t],
                *unavailable,
            ) by {
                if t < j - 1 {
                    assert(out@[t] == old_out[t]);
                    assert(banners[t] == old_banners[t]);
                }
            }
        }
    }
    proof {
        assert(out@.len() == want.len());
        assert(banners.len() == want.len());
        assert(want == slotted_stories(stories@));
        assert(stories_with(out@, stories@, masterdata, *unavailable, banners));
    }
    out
}

fn rank_plans<F: Fn(&ResourceKey) -> bool>(
    ranks: &Vec<CharacterRank>,
    challenge: &Vec<CharacterRank>,
    unavailable: &F,
) -> (r: Vec<CharacterRankPlan>)
    requires
        answers_every_key(*unavailable),
    ensures
        ranks_ok(r@, ranks@, challenge@, *unavailable),
{
    let mut out: Vec<CharacterRankPlan> = Vec::new();
    let mut i: usize = 0;
    while i < ranks.len()
        invariant
            answers_every_key(*unavailable),
            i <= ranks@.len(),
            out@.len() == i,
            forall|t: int|
                0 <= t < i ==> {
                    &&& (#[trigger] out@[t]).character_id == ranks@[t].character_id
                    &&& out@[t].rank == ranks@[t].rank
                    &&& out@[t].challenge_rank == first_rank(challenge@, ranks@[t].character_id, 0)
                    &&& avatar_ok(out@[t].avatar, "userProfile.characterRanks"@, ranks@[t].character_id, *unavailable)
                },
        decreases ranks.len() - i,
    {
        let id = ranks[i].character_id;
        let plan = CharacterRankPlan {
            character_id: id,
            rank: ranks[i].rank,
            challenge_rank: first_challenge_rank(challenge, id),
            avatar: avatar("userProfile.characterRanks", id, unavailable),
        };
        out.push(plan);
        i = i + 1;
    }
    out
}

fn deck_plans<M: ProfileMasterData, F: Fn(&ResourceKey) -> bool>(
    deck: &Vec<CardState>,
    masterdata: &M,
    unavailable: &F,
) -> (r: Vec<CardVisualPlan>)
    requires
        answers_every_key(*unavailable),
    ensures
        deck_ok(r@, deck@, masterdata, *unavailable),
{
    let mut out: Vec<CardVisualPlan> = Vec::new();
    let ghost mut entries: Seq<Option<CardEntry>> = Seq::empty();
    let mut i: usize = 0;
    while i < deck.len()
        invariant
            answers_every_key(*unavailable),
            i <= deck@.len(),
            entries.len() == i,
            forall|t: int|
                0 <= t < i ==> #[trigger] call_ensures(M::get_card, (masterdata, deck@[t].card_id), entries[t]),
            out@.len() == present_indices(entries, i as int).len(),
            forall|q: int|
                0 <= q < out@.len() ==> {
                    let t = present_indices(entries, i as int)[q];
                    card_visual_ok(
                        Some(#[trigger] out@[q]),
                        entries[t],
                        deck@[t],
                        1,
                        deck@[t].special_training_done,
                        "userProfile.deckMembers"@,
                        *unavailable,
                    )
                },
            forall|q: int|
                0 <= q < present_indices(entries, i as int).len() ==> 0 <= #[trigger] present_indices(entries, i as int)[q] < i,
        decreases deck.len() - i,
    {
        let card = &deck[i];
        let visual = card_visual(masterdata, card, 1, card.special_training_done, "userProfile.deckMembers", unavailable);
        let ghost e = choose|e: Option<CardEntry>|
            {
                &&& #[trigger] call_ensures(M::get_card, (masterdata, card.card_id), e)
                &&& card_visual_ok(visual, e, *card, 1, card.special_training_done, "userProfile.deckMembers"@, *unavailable)
            };
        let ghost old_entries = entries;
        let ghost old_out = out@;
        proof {
            entries = entries.push(e);
            assert forall|t: int| 0 <= t < i + 1 implies #[trigger] call_ensures(
                M::get_card,
                (masterdata, deck@[t].card_id),
                entries[t],
            ) by {
                if t < i {
                    assert(entries[t] == old_entries[t]);
                }
            }
            lemma_present_prefix(old_entries, entries, i as int);
        }
        match visual {
            Some(v) => {
                out.push(v);
            },
            None => {},
        }
        i = i + 1;
        proof {
            let kept = present_indices(entries, i as int);
            assert(present_indices(entries, i - 1) == present_indices(old_entries, i - 1));
            assert forall|q: int| 0 <= q < out@.len() implies {
                let t = present_indices(entries, i as int)[q];
                card_visual_ok(
                    Some(#[trigger] out@[q]),
                    entries[t],
                    deck@[t],
                    1,
                    deck@[t].special_training_done,
                    "userProfile.deckMembers"@,
                    *unavailable,
                )
            } by {
                if q < old_out.len() {
                    let t = present_indices(old_entries, i - 1)[q];
                    assert(kept[q] == t);
                    assert(entries[t] == old_entries[t]);
                    assert(out@[q] == old_out[q]);
                } else {
                    assert(kept[q] == i - 1);
                }
            }
        }
    }
    out
}

proof fn lemma_present_prefix(a: Seq<Option<CardEntry>>, b: Seq<Option<CardEntry>>, n: int)
    requires
        0 <= n <= a.len(),
        n <= b.len(),
        forall|t: int| 0 <= t < n ==> a[t] == b[t],
    ensures
        present_indices(a, n) == present_indices(b, n),
    decreases n,
{
    if n > 0 {
        lemma_present_prefix(a, b, n - 1);
    }
}

fn player_avatar<M: ProfileMasterData, F: Fn(&ResourceKey) -> bool>(
    leader: &Option<CardState>,
    masterdata: &M,
    unavailable: &F,
) -> (r: Option<ComponentImagePlan>)
    requires
        answers_every_key(*unavailable),
    ensures
        player_avatar_ok(r, *leader, masterdata, *unavailable),
{
    match leader {
        None => None,
        Some(card) => {
            let entry = masterdata.get_card(card.card_id);
            let ghost found = entry;
            match entry {
                None => None,
                Some(e) => {
                    let mut key = String::from_str("thumbnail/chara/");
                    key.append(e.asset_bundle_name.as_str());
                    if card.after_training {
                        key.append("_after_training");
                    } else {
                        key.append("_normal");
                    }
                    proof {
                        reveal_strlit("_after_training");
                        reveal_strlit("_normal");
                        reveal_strlit("after_training");
                        reveal_strlit("normal");
                        reveal_strlit("_");
                        assert(key@ =~= player_avatar_key(e.asset_bundle_name@, card.after_training));
                    }
                    let img = image(
                        "userProfile.leaderCard",
                        decimal_string(card.card_id),
                        "assets",
                        key,
                        "cards",
                        card.card_id,
                        unavailable,
                    );
                    let r = Some(img);
                    assert(call_ensures(M::get_card, (masterdata, card.card_id), found));
                    r
                },
            }
        },
    }
}

fn leader_visual<M: ProfileMasterData, F: Fn(&ResourceKey) -> bool>(
    leader: &Option<CardState>,
    masterdata: &M,
    unavailable: &F,
) -> (r: Option<CardVisualPlan>)
    requires
        answers_every_key(*unavailable),
    ensures
        leader_ok(r, *leader, masterdata, *unavailable),
{
    match leader {
        None => None,
        Some(card) => card_visual(masterdata, card, 2, card.after_training, "userProfile.leaderCard", unavailable),
    }
}

/// Plans what the General panels show of `profile`: the region font when
/// a panel draws text (failing with [`AuthoredProfileResolveError::MissingFont`]
/// when master data has no font 1), the labels, the player's figures, and
/// the images of stories, character ranks, deck, leader card and avatar. A
/// resource is planned without its descriptor exactly where `unavailable`
/// says it does not exist. Honor slots are listed full-size first, each
/// group in slot order, with the first two exchanged; the first is drawn
/// full size.
pub fn build_component<M: ProfileMasterData, F: Fn(&ResourceKey) -> bool>(
    profile: &ProfileData,
    masterdata: &M,
    locale: &str,
    unavailable: F,
    localized_text: Option<&Vec<(String, String)>>,
    requires_font: bool,
) -> (r: Result<ComponentPlan, AuthoredProfileResolveError>)
    requires
        answers_every_key(unavailable),
    ensures
        requires_font ==> exists|font: Option<String>|
            {
                &&& #[trigger] call_ensures(M::resolve_font, (masterdata, 1i32), font)
                &&& match font {
                    None => r == Err::<ComponentPlan, AuthoredProfileResolveError>(
                        AuthoredProfileResolveError::MissingFont(1),
                    ),
                    Some(name) => r is Ok && r.unwrap().region_fonts@ == seq![(1i32, name)],
                }
            },
        !requires_font ==> r is Ok && r.unwrap().region_fonts@.len() == 0,
        r is Ok ==> component_ok(
            r.unwrap(),
            *profile,
            masterdata,
            locale@,
            unavailable,
            match localized_text {
                Some(v) => Some(v@),
                None => None,
            },
        ),
{
    let mut region_fonts: Vec<(i32, String)> = Vec::new();
    if requires_font {
        let font = masterdata.resolve_font(1);
        assert(call_ensures(M::resolve_font, (masterdata, 1i32), font));
        match font {
            Some(name) => {
                region_fonts.push((1, name));
            },
            None => {
                return Err(AuthoredProfileResolveError::MissingFont(1));
            },
        }
    }
    let challenge_avatar = if profile.challenge_character_id > 0 {
        Some(avatar("userProfile.challengeLiveSoloResult.characterId", profile.challenge_character_id, &unavailable))
    } else {
        None
    };
    let music = match &profile.music_results {
        Some(m) => Some(music_results(m)),
        None => None,
    };
    let honor_slots = drawable_honors(honor_slot_order(&profile.honor_slots), &profile.honor_slots, masterdata);
    let ghost honors_view = honor_slots@;
    let plan = ComponentPlan {
        locale: String::from_str(locale),
        region_fonts,
        localized_text: labels(masterdata, localized_text),
        user_name: profile.user_name.clone(),
        word: profile.word.clone(),
        user_rank: profile.user_rank,
        total_power: profile.total_power,
        mvp: profile.mvp,
        superstar: profile.superstar,
        challenge_score: profile.challenge_score,
        challenge_character_id: profile.challenge_character_id,
        challenge_avatar,
        music_results: music,
        story_favorites: story_plans(&profile.story_favorites, masterdata, &unavailable),
        player_avatar: player_avatar(&profile.leader_card, masterdata, &unavailable),
        character_ranks: rank_plans(&profile.character_ranks, &profile.challenge_ranks, &unavailable),
        deck_members: deck_plans(&profile.deck_members, masterdata, &unavailable),
        leader_card: leader_visual(&profile.leader_card, masterdata, &unavailable),
        honor_slots,
    };
    proof {
        let built = choose|built: Seq<bool>| #[trigger] honor_slots_ok(honors_view, profile.honor_slots@, masterdata, built);
        assert(honor_slots_ok(plan.honor_slots@, profile.honor_slots@, masterdata, built));
    }
    Ok(plan)
}
} // verus!
