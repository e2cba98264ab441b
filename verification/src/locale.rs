//! Localized renderer labels: which catalog keys the general components of a
//! card draw, and the demands a renderer sends for them.

use vstd::prelude::*;

use crate::text::str_eq;
use vstd::string::StringExecFns;

verus! {

broadcast use vstd::string::group_string_axioms;

/// One localized label a renderer needs: `key` in the catalog of `region`,
/// for a page shown in `locale`.
#[derive(Clone, Debug, Eq, PartialEq)]
pub struct LocalizationDemand {
    pub region: String,
    pub locale: String,
    pub key: String,
}

/// Every label a General panel draws.
pub const GENERAL_LOCALIZATION_KEYS: [&'static str; 22] = [
    "custom_profile.general.comment.title",
    "custom_profile.general.total_power.title",
    "custom_profile.general.challenge_live.title",
    "custom_profile.general.challenge_live.solo",
    "custom_profile.general.story_favorite.title",
    "custom_profile.general.multiplayer_live.title",
    "custom_profile.general.multiplayer_live.mvp",
    "custom_profile.general.multiplayer_live.superstar",
    "custom_profile.general.count_times",
    "custom_profile.general.character_rank.title",
    "custom_profile.general.character_rank.challenge",
    "custom_profile.general.music.clear",
    "custom_profile.general.music.full_combo",
    "custom_profile.general.music.all_perfect",
    "custom_profile.general.music.difficulty.easy",
    "custom_profile.general.music.difficulty.normal",
    "custom_profile.general.music.difficulty.hard",
    "custom_profile.general.music.difficulty.expert",
    "custom_profile.general.music.difficulty.master",
    "custom_profile.general.music.difficulty.append",
    "custom_profile.general.player_level.label",
    "custom_profile.general.card_level",
];

/// The labels a general component of `general_type` draws, in the order it
/// draws them.
pub open spec fn general_keys(general_type: i32) -> Seq<Seq<char>> {
    if general_type == 2 {
        seq!["custom_profile.general.total_power.title"@]
    } else if general_type == 4 {
        seq!["custom_profile.general.comment.title"@]
    } else if general_type == 3 {
        seq!["custom_profile.general.card_level"@]
    } else if general_type == 9 {
        seq![
            "custom_profile.general.multiplayer_live.title"@,
            "custom_profile.general.multiplayer_live.mvp"@,
            "custom_profile.general.multiplayer_live.superstar"@,
            "custom_profile.general.count_times"@,
        ]
    } else if general_type == 10 {
        seq!["custom_profile.general.challenge_live.title"@, "custom_profile.general.challenge_live.solo"@]
    } else if general_type == 11 || general_type == 15 {
        seq!["custom_profile.general.character_rank.title"@, "custom_profile.general.character_rank.challenge"@]
    } else if general_type == 12 || general_type == 16 {
        seq![
            "custom_profile.general.music.clear"@,
            "custom_profile.general.music.full_combo"@,
            "custom_profile.general.music.all_perfect"@,
            "custom_profile.general.music.difficulty.easy"@,
            "custom_profile.general.music.difficulty.normal"@,
            "custom_profile.general.music.difficulty.hard"@,
            "custom_profile.general.music.difficulty.expert"@,
            "custom_profile.general.music.difficulty.master"@,
            "custom_profile.general.music.difficulty.append"@,
        ]
    } else if general_type == 14 {
        seq!["custom_profile.general.story_favorite.title"@]
    } else if general_type == 17 {
        seq!["custom_profile.general.player_level.label"@]
    } else {
        Seq::empty()
    }
}

/// The views of a list of string slices.
pub open spec fn str_views(v: Seq<&str>) -> Seq<Seq<char>> {
    v.map_values(|s: &str| s@)
}

/// The labels a general component of `general_type` draws.
pub fn general_localization_keys(general_type: i32) -> (keys: Vec<&'static str>)
    ensures
        str_views(keys@) == general_keys(general_type),
{
    let keys: Vec<&'static str> = if general_type == 2 {
        vec!["custom_profile.general.total_power.title"]
    } else if general_type == 4 {
        vec!["custom_profile.general.comment.title"]
    } else if general_type == 3 {
        vec!["custom_profile.general.card_level"]
    } else if general_type == 9 {
        vec![
            "custom_profile.general.multiplayer_live.title",
            "custom_profile.general.multiplayer_live.mvp",
            "custom_profile.general.multiplayer_live.superstar",
            "custom_profile.general.count_times",
        ]
    } else if general_type == 10 {
        vec!["custom_profile.general.challenge_live.title", "custom_profile.general.challenge_live.solo"]
    } else if general_type == 11 || general_type == 15 {
        vec!["custom_profile.general.character_rank.title", "custom_profile.general.character_rank.challenge"]
    } else if general_type == 12 || general_type == 16 {
        vec![
            "custom_profile.general.music.clear",
            "custom_profile.general.music.full_combo",
            "custom_profile.general.music.all_perfect",
            "custom_profile.general.music.difficulty.easy",
            "custom_profile.general.music.difficulty.normal",
            "custom_profile.general.music.difficulty.hard",
            "custom_profile.general.music.difficulty.expert",
            "custom_profile.general.music.difficulty.master",
            "custom_profile.general.music.difficulty.append",
        ]
    } else if general_type == 14 {
        vec!["custom_profile.general.story_favorite.title"]
    } else if general_type == 17 {
        vec!["custom_profile.general.player_level.label"]
    } else {
        Vec::new()
    };
    assert(str_views(keys@) =~= general_keys(general_type));
    keys
}

/// The labels of the general components with the given types, in card order,
/// each once: a component without a type draws no label.
pub open spec fn demanded_keys(types: Seq<Option<i32>>) -> Seq<Seq<char>>
    decreases types.len(),
{
    if types.len() == 0 {
        Seq::empty()
    } else {
        let prev = demanded_keys(types.drop_last());
        match types.last() {
            Some(t) => append_new(prev, general_keys(t)),
            None => prev,
        }
    }
}

/// `seen` followed by the keys of `keys` it does not hold yet, in order,
/// each once.
pub open spec fn append_new(seen: Seq<Seq<char>>, keys: Seq<Seq<char>>) -> Seq<Seq<char>>
    decreases keys.len(),
{
    if keys.len() == 0 {
        seen
    } else {
        let prev = append_new(seen, keys.drop_last());
        if prev.contains(keys.last()) {
            prev
        } else {
            prev.push(keys.last())
        }
    }
}

fn contains_key(seen: &Vec<&'static str>, key: &str) -> (r: bool)
    ensures
        r == str_views(seen@).contains(key@),
{
    let mut i: usize = 0;
    while i < seen.len()
        invariant
            i <= seen@.len(),
            forall|j: int| 0 <= j < i ==> seen@[j]@ != key@,
        decreases seen.len() - i,
    {
        if str_eq(seen[i], key) {
            assert(str_views(seen@)[i as int] == key@);
            return true;
        }
        i = i + 1;
    }
    proof {
        if str_views(seen@).contains(key@) {
            let j = choose|j: int| 0 <= j < str_views(seen@).len() && str_views(seen@)[j] == key@;
            assert(seen@[j]@ == key@);
        }
    }
    false
}

/// The demands of a card whose general components have the given types
/// (`None` for a component without one), for `region` and `locale`: every
/// label the components draw, in card order and each once.
pub fn profile_localization_demands(general_types: &[Option<i32>], region: &str, locale: &str) -> (demands: Vec<
    LocalizationDemand,
>)
    ensures
        demands@.len() == demanded_keys(general_types@).len(),
        forall|i: int|
            0 <= i < demands@.len() ==> {
                &&& (#[trigger] demands@[i]).key@ == demanded_keys(general_types@)[i]
                &&& demands@[i].region@ == region@
                &&& demands@[i].locale@ == locale@
            },
{
    let mut seen: Vec<&'static str> = Vec::new();
    let mut output: Vec<LocalizationDemand> = Vec::new();
    let mut g: usize = 0;
    while g < general_types.len()
        invariant
            g <= general_types@.len(),
            str_views(seen@) == demanded_keys(general_types@.take(g as int)),
            output@.len() == seen@.len(),
            forall|i: int|
                0 <= i < output@.len() ==> {
                    &&& (#[trigger] output@[i]).key@ == seen@[i]@
                    &&& output@[i].region@ == region@
                    &&& output@[i].locale@ == locale@
                },
        decreases general_types.len() - g,
    {
        let ghost before = general_types@.take(g as int);
        assert(general_types@.take(g + 1).drop_last() =~= before);
        if let Some(general_type) = general_types[g] {
            let keys = general_localization_keys(general_type);
            let ghost base = str_views(seen@);
            let mut k: usize = 0;
            while k < keys.len()
                invariant
                    k <= keys@.len(),
                    str_views(keys@) == general_keys(general_type),
                    str_views(seen@) == append_new(base, general_keys(general_type).take(k as int)),
                    output@.len() == seen@.len(),
                    forall|i: int|
                        0 <= i < output@.len() ==> {
                            &&& (#[trigger] output@[i]).key@ == seen@[i]@
                            &&& output@[i].region@ == region@
                            &&& output@[i].locale@ == locale@
                        },
                decreases keys.len() - k,
            {
                let key = keys[k];
                assert(general_keys(general_type).take(k + 1).drop_last() =~= general_keys(general_type).take(
                    k as int,
                ));
                assert(general_keys(general_type).take(k + 1).last() == key@);
                if !contains_key(&seen, key) {
                    seen.push(key);
                    output.push(
                        LocalizationDemand {
                            region: region.to_owned(),
                            locale: locale.to_owned(),
                            key: String::from_str(key),
                        },
                    );
                    assert(str_views(seen@) =~= str_views(seen@.drop_last()).push(key@));
                }
                k = k + 1;
            }
            assert(general_keys(general_type).take(keys@.len() as int) =~= general_keys(general_type));
        }
        g = g + 1;
    }
    assert(general_types@.take(general_types@.len() as int) =~= general_types@);
    output
}

proof fn lemma_append_new_unique(seen: Seq<Seq<char>>, keys: Seq<Seq<char>>)
    requires
        seen.no_duplicates(),
    ensures
        append_new(seen, keys).no_duplicates(),
        forall|k: Seq<char>| seen.contains(k) ==> append_new(seen, keys).contains(k),
        forall|i: int| 0 <= i < keys.len() ==> append_new(seen, keys).contains(#[trigger] keys[i]),
    decreases keys.len(),
{
    if keys.len() > 0 {
        lemma_append_new_unique(seen, keys.drop_last());
        let prev = append_new(seen, keys.drop_last());
        if !prev.contains(keys.last()) {
            assert forall|i: int, j: int| 0 <= i < j < prev.push(keys.last()).len() implies prev.push(keys.last())[i]
                != prev.push(keys.last())[j] by {
                if j == prev.len() {
                    assert(prev.contains(prev[i]));
                }
            }
            assert forall|k: Seq<char>| prev.contains(k) implies prev.push(keys.last()).contains(k) by {
                let t = choose|t: int| 0 <= t < prev.len() && prev[t] == k;
                assert(prev.push(keys.last())[t] == k);
            }
            assert(prev.push(keys.last())[prev.len() as int] == keys.last());
        }
        assert forall|i: int| 0 <= i < keys.len() implies append_new(seen, keys).contains(#[trigger] keys[i]) by {
            if i < keys.len() - 1 {
                assert(keys.drop_last()[i] == keys[i]);
            }
        }
    }
}

/// A card demands each label at most once, however many of its components
/// draw it.
pub proof fn law_demands_are_deduplicated(types: Seq<Option<i32>>)
    ensures
        demanded_keys(types).no_duplicates(),
    decreases types.len(),
{
    if types.len() > 0 {
        law_demands_are_deduplicated(types.drop_last());
        match types.last() {
            Some(t) => lemma_append_new_unique(demanded_keys(types.drop_last()), general_keys(t)),
            None => {},
        }
    }
}


/// The labels of each general component are its group of
/// [`GENERAL_LOCALIZATION_KEYS`], in order: the comment title; the total
/// power title; the challenge live title and solo label; the story favorite
/// title; the multiplayer live title, MVP, superstar and count labels; the
/// character rank title and challenge label; the music clear, full combo,
/// all perfect and six difficulty labels; the player level label; the card
/// level label. A type that is no general component draws none.
pub proof fn law_component_labels_are_catalog_groups(t: i32)
    ensures
        t == 4 ==> general_keys(t) == str_views(GENERAL_LOCALIZATION_KEYS@).subrange(0, 1),
        t == 2 ==> general_keys(t) == str_views(GENERAL_LOCALIZATION_KEYS@).subrange(1, 2),
        t == 10 ==> general_keys(t) == str_views(GENERAL_LOCALIZATION_KEYS@).subrange(2, 4),
        t == 14 ==> general_keys(t) == str_views(GENERAL_LOCALIZATION_KEYS@).subrange(4, 5),
        t == 9 ==> general_keys(t) == str_views(GENERAL_LOCALIZATION_KEYS@).subrange(5, 9),
        t == 11 || t == 15 ==> general_keys(t) == str_views(GENERAL_LOCALIZATION_KEYS@).subrange(9, 11),
        t == 12 || t == 16 ==> general_keys(t) == str_views(GENERAL_LOCALIZATION_KEYS@).subrange(11, 20),
        t == 17 ==> general_keys(t) == str_views(GENERAL_LOCALIZATION_KEYS@).subrange(20, 21),
        t == 3 ==> general_keys(t) == str_views(GENERAL_LOCALIZATION_KEYS@).subrange(21, 22),
        !(t == 2 || t == 3 || t == 4 || t == 9 || t == 10 || t == 11 || t == 12 || t == 14 || t == 15 || t == 16
            || t == 17) ==> general_keys(t).len() == 0,
{
    let c = str_views(GENERAL_LOCALIZATION_KEYS@);
    assert(c.len() == 22);
    assert(c.subrange(0, 1) =~= general_keys(4));
    assert(c.subrange(1, 2) =~= general_keys(2));
    assert(c.subrange(2, 4) =~= general_keys(10));
    assert(c.subrange(4, 5) =~= general_keys(14));
    assert(c.subrange(5, 9) =~= general_keys(9));
    assert(c.subrange(9, 11) =~= general_keys(11));
    assert(c.subrange(11, 20) =~= general_keys(12));
    assert(c.subrange(20, 21) =~= general_keys(17));
    assert(c.subrange(21, 22) =~= general_keys(3));
}

/// Every label a general component on the card draws is demanded.
pub proof fn law_every_drawn_label_is_demanded(types: Seq<Option<i32>>, g: int, t: i32, key: Seq<char>)
    requires
        0 <= g < types.len(),
        types[g] == Some(t),
        general_keys(t).contains(key),
    ensures
        demanded_keys(types).contains(key),
    decreases types.len(),
{
    let prev = types.drop_last();
    law_demands_are_deduplicated(prev);
    if g == types.len() - 1 {
        lemma_append_new_unique(demanded_keys(prev), general_keys(t));
        let i = choose|i: int| 0 <= i < general_keys(t).len() && general_keys(t)[i] == key;
        assert(append_new(demanded_keys(prev), general_keys(t)).contains(general_keys(t)[i]));
    } else {
        assert(prev[g] == types[g]);
        law_every_drawn_label_is_demanded(prev, g, t, key);
        match types.last() {
            Some(u) => lemma_append_new_unique(demanded_keys(prev), general_keys(u)),
            None => {},
        }
    }
}

} // verus!
