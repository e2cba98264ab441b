//! Normalized player data required by profile-card components, and the
//! rules that decide what a card shows of it.

use std::collections::BTreeMap;

use vstd::prelude::*;

use crate::json::{items_of, member, member_int, member_items, member_str, JsonValue};
use crate::masterdata::{opt_str_view, opt_string_view, or_empty, or_text};
use vstd::string::StringExecFns;

verus! {

broadcast use {
    vstd::string::group_string_axioms,
    vstd::std_specs::btree::group_btree_axioms,
    vstd::laws_cmp::group_laws_cmp,
};

/// One honor a player placed on their profile.
#[derive(Clone, Debug, Default, PartialEq, Eq)]
pub struct HonorSlot {
    pub honor_id: i32,
    pub honor_level: i32,
    pub full_size: bool,
    pub profile_honor_type: String,
    pub bonds_honor_word_id: Option<i64>,
    pub bonds_honor_view_type: Option<String>,
}

/// Whether `needle` occurs in `s` at some position.
pub open spec fn contains_text(s: Seq<char>, needle: Seq<char>) -> bool {
    exists|i: int| 0 <= i && i + needle.len() <= s.len() && #[trigger] s.subrange(i, i + needle.len()) == needle
}

/// The two flags of a bonds-honor view type: `reverse` and
/// `unit_virtual_singer`, each set when its word occurs in the value.
pub open spec fn view_flags(view_type: Option<Seq<char>>) -> (bool, bool) {
    let v = match view_type {
        Some(v) => v,
        None => Seq::empty(),
    };
    (contains_text(v, "reverse"@), contains_text(v, "unit_virtual_singer"@))
}

/// `str::contains` for a string needle.
pub fn str_contains(s: &str, needle: &str) -> (r: bool)
    ensures
        r == contains_text(s@, needle@),
{
    let x = crate::text::str_chars(s);
    let p = crate::text::str_chars(needle);
    if p.len() > x.len() {
        return false;
    }
    let mut start: usize = 0;
    while start <= x.len() - p.len()
        invariant
            x@ == s@,
            p@ == needle@,
            p@.len() <= x@.len(),
            start <= x@.len() - p@.len() + 1,
            forall|i: int| 0 <= i < start ==> #[trigger] s@.subrange(i, i + needle@.len()) != needle@,
        decreases x.len() - p.len() + 1 - start,
    {
        let mut k: usize = 0;
        let mut same = true;
        while k < p.len()
            invariant
                x@ == s@,
                p@ == needle@,
                start + p@.len() <= x@.len(),
                x@.len() <= usize::MAX,
                k <= p@.len(),
                same == (forall|j: int| 0 <= j < k ==> x@[start + j] == p@[j]),
            decreases p.len() - k,
        {
            let at: usize = start + k;
            if x[at] != p[k] {
                same = false;
            }
            k = k + 1;
        }
        if same {
            assert(s@.subrange(start as int, start + needle@.len()) =~= needle@);
            return true;
        }
        proof {
            let j = choose|j: int| 0 <= j < p@.len() && x@[start + j] != p@[j];
            assert(s@.subrange(start as int, start + needle@.len())[j] != needle@[j]);
        }
        start = start + 1;
    }
    false
}

/// Decodes the game's composable bonds-honor view type.
pub fn bonds_honor_view_flags(view_type: Option<&str>) -> (r: (bool, bool))
    ensures
        r == view_flags(opt_str_view(view_type)),
{
    let v: &str = match view_type {
        Some(v) => v,
        None => "",
    };
    proof {
        reveal_strlit("");
        assert(""@ =~= Seq::<char>::empty());
    }
    (str_contains(v, "reverse"), str_contains(v, "unit_virtual_singer"))
}

impl HonorSlot {
    /// Decodes the game's composable bonds-honor view type.
    ///
    /// Values may combine `reverse` and `unit_virtual_singer`; treating the
    /// field as an enum would silently discard one of those flags.
    pub fn bonds_honor_view_flags(&self) -> (r: (bool, bool))
        ensures
            r == view_flags(opt_string_view(self.bonds_honor_view_type)),
    {
        let v: Option<&str> = match &self.bonds_honor_view_type {
            Some(v) => Some(v.as_str()),
            None => None,
        };
        bonds_honor_view_flags(v)
    }
}

/// The state of one card a player owns.
#[derive(Clone, Debug, Default, PartialEq, Eq)]
pub struct CardState {
    pub card_id: i32,
    /// The player shows the trained illustration (`defaultImage` is
    /// `special_training`).
    pub after_training: bool,
    /// The card has finished special training (`specialTrainingStatus` is
    /// `done`). Rarity stars follow this, not the illustration choice.
    pub special_training_done: bool,
    pub master_rank: i32,
    pub level: i32,
}

/// Clear counts of one music difficulty.
#[derive(Clone, Copy, Debug, Default, PartialEq, Eq)]
pub struct MusicDifficultyStats {
    pub clear: i32,
    pub full_combo: i32,
    pub all_perfect: i32,
}

/// Clear counts of every music difficulty.
#[derive(Clone, Debug, Default, PartialEq, Eq)]
pub struct MusicResults {
    pub easy: MusicDifficultyStats,
    pub normal: MusicDifficultyStats,
    pub hard: MusicDifficultyStats,
    pub expert: MusicDifficultyStats,
    pub master: MusicDifficultyStats,
    pub append: MusicDifficultyStats,
}

/// A character's rank.
#[derive(Clone, Debug, Default, PartialEq, Eq)]
pub struct CharacterRank {
    pub character_id: i32,
    pub rank: i32,
}

/// A story a player shares on the favorite-story panel.
#[derive(Clone, Debug, Default, PartialEq, Eq)]
pub struct StoryFavorite {
    pub story_id: i32,
    pub story_type: String,
    /// One-based panel slot (`shareNo`).
    pub share_no: i32,
}

/// The panel slots that stories with the first `k` of `share_nos` fill:
/// entry `i` is the index of the story shared as slot `i + 1`, the later one
/// when two share a slot. Stories numbered below 1 take no slot.
pub open spec fn share_slots(share_nos: Seq<i32>, k: int) -> Seq<Option<int>>
    decreases k,
{
    if k <= 0 {
        Seq::empty()
    } else {
        let prev = share_slots(share_nos, k - 1);
        let n = share_nos[k - 1];
        if n < 1 {
            prev
        } else {
            let slot = n - 1;
            let grown = if prev.len() <= slot {
                prev + Seq::new((slot + 1 - prev.len()) as nat, |_i: int| None)
            } else {
                prev
            };
            grown.update(slot, Some(k - 1))
        }
    }
}

proof fn lemma_share_slots_bounds(share_nos: Seq<i32>, k: int)
    requires
        0 <= k <= share_nos.len(),
    ensures
        forall|j: int| 0 <= j < share_slots(share_nos, k).len() ==> match #[trigger] share_slots(share_nos, k)[j] {
            Some(i) => 0 <= i < k,
            None => true,
        },
        share_slots(share_nos, k).len() <= i32::MAX,
    decreases k,
{
    if k > 0 {
        lemma_share_slots_bounds(share_nos, k - 1);
    }
}

/// Arranges favorite stories by panel slot given each story's `shareNo`:
/// entry `i` is the index of the story shared as `shareNo` `i + 1`, or
/// `None` when nobody shares that slot.
pub fn story_slots(share_nos: &[i32]) -> (slots: Vec<Option<usize>>)
    ensures
        slots@.len() == share_slots(share_nos@, share_nos@.len() as int).len(),
        forall|j: int| 0 <= j < slots@.len() ==> match #[trigger] slots@[j] {
            Some(i) => share_slots(share_nos@, share_nos@.len() as int)[j] == Some(i as int),
            None => share_slots(share_nos@, share_nos@.len() as int)[j] is None,
        },
{
    let mut slots: Vec<Option<usize>> = Vec::new();
    let mut k: usize = 0;
    while k < share_nos.len()
        invariant
            k <= share_nos@.len(),
            slots@.len() == share_slots(share_nos@, k as int).len(),
            forall|j: int| 0 <= j < slots@.len() ==> match #[trigger] slots@[j] {
                Some(i) => share_slots(share_nos@, k as int)[j] == Some(i as int),
                None => share_slots(share_nos@, k as int)[j] is None,
            },
        decreases share_nos.len() - k,
    {
        let n = share_nos[k];
        let ghost prev = share_slots(share_nos@, k as int);
        if n >= 1 {
            let slot = (n - 1) as usize;
            while slots.len() <= slot
                invariant
                    prev == share_slots(share_nos@, k as int),
                    prev.len() <= slots@.len(),
                    slots@.len() <= slot + 1 || slots@.len() == prev.len(),
                    forall|j: int| 0 <= j < prev.len() ==> match #[trigger] slots@[j] {
                        Some(i) => prev[j] == Some(i as int),
                        None => prev[j] is None,
                    },
                    forall|j: int| prev.len() <= j < slots@.len() ==> #[trigger] slots@[j] is None,
                decreases slot + 1 - slots.len(),
            {
                slots.push(None);
            }
            slots.set(slot, Some(k));
        }
        k = k + 1;
    }
    slots
}

/// The story each slot holds, as [`story_slots`] arranges them.
pub open spec fn slot_stories<'a, T>(stories: &'a [T], slots: Seq<Option<int>>) -> Seq<Option<&'a T>> {
    slots.map_values(|s: Option<int>| match s {
        Some(i) => Some(&stories[i]),
        None => None,
    })
}

/// Arranges favorite stories by panel slot: entry `i` is the story shared as
/// `shareNo` `i + 1`, or `None` when nobody shares that slot. When two stories
/// name the same slot the later one takes it, as in the game. Stories without
/// a slot (`shareNo` below 1) are left out.
pub fn story_favorite_slots<'a, T, F: Fn(&T) -> i32>(stories: &'a [T], share_no: F) -> (slots: Vec<Option<&'a T>>)
    requires
        forall|i: int| 0 <= i < stories@.len() ==> call_requires(share_no, (&stories@[i],)),
    ensures
        exists|nos: Seq<i32>|
            {
                &&& nos.len() == stories@.len()
                &&& forall|i: int| 0 <= i < nos.len() ==> call_ensures(share_no, (&stories@[i],), #[trigger] nos[i])
                &&& slots@ == slot_stories(stories, share_slots(nos, nos.len() as int))
            },
{
    let mut nos: Vec<i32> = Vec::new();
    let mut i: usize = 0;
    while i < stories.len()
        invariant
            i <= stories@.len(),
            nos@.len() == i,
            forall|j: int| 0 <= j < stories@.len() ==> call_requires(share_no, (&stories@[j],)),
            forall|j: int| 0 <= j < i ==> call_ensures(share_no, (&stories@[j],), #[trigger] nos@[j]),
        decreases stories.len() - i,
    {
        let n = share_no(&stories[i]);
        nos.push(n);
        i = i + 1;
    }
    let slots = story_slots(nos.as_slice());
    proof {
        lemma_share_slots_bounds(nos@, nos@.len() as int);
    }
    let mut out: Vec<Option<&'a T>> = Vec::new();
    let mut j: usize = 0;
    let ghost want = slot_stories(stories, share_slots(nos@, nos@.len() as int));
    while j < slots.len()
        invariant
            j <= slots@.len(),
            nos@.len() == stories@.len(),
            slots@.len() == share_slots(nos@, nos@.len() as int).len(),
            want == slot_stories(stories, share_slots(nos@, nos@.len() as int)),
            forall|k: int| 0 <= k < slots@.len() ==> match #[trigger] slots@[k] {
                Some(i) => share_slots(nos@, nos@.len() as int)[k] == Some(i as int),
                None => share_slots(nos@, nos@.len() as int)[k] is None,
            },
            forall|k: int| 0 <= k < share_slots(nos@, nos@.len() as int).len() ==> match #[trigger] share_slots(
                nos@,
                nos@.len() as int,
            )[k] {
                Some(i) => 0 <= i < nos@.len(),
                None => true,
            },
            out@.len() == j,
            forall|k: int| 0 <= k < j ==> #[trigger] out@[k] == want[k],
        decreases slots.len() - j,
    {
        match slots[j] {
            Some(index) => {
                assert(share_slots(nos@, nos@.len() as int)[j as int] == Some(index as int));
                out.push(Some(&stories[index]));
            },
            None => {
                out.push(None);
            },
        }
        j = j + 1;
    }
    assert(out@ =~= want);
    out
}

/// Levels of the honors a player owns, read from `userHonors` and
/// `userBondsHonors`. A list the response does not carry stays `None`:
/// ownership is then unknown rather than empty.
#[derive(Clone, Debug, Default, PartialEq, Eq)]
pub struct OwnedHonorLevels {
    pub honors: Option<BTreeMap<i32, i32>>,
    pub bonds_honors: Option<BTreeMap<i32, i32>>,
}

/// The view of an optional level map.
pub open spec fn opt_levels(m: Option<BTreeMap<i32, i32>>) -> Option<Map<i32, i32>> {
    match m {
        Some(m) => Some(m@),
        None => None,
    }
}

/// The level a placed honor is drawn with: the owned level when the player's
/// list is known (`None`, not drawn, when the honor is not in it), else the
/// element's own level.
pub open spec fn placed_level_spec(levels: Option<Map<i32, i32>>, id: i32, element_level: i32) -> Option<i32> {
    match levels {
        Some(m) => if m.contains_key(id) {
            Some(m[id])
        } else {
            None
        },
        None => Some(element_level),
    }
}

fn placed_level(levels: Option<&BTreeMap<i32, i32>>, id: i32, element_level: i32) -> (r: Option<i32>)
    ensures
        r == placed_level_spec(
            match levels {
                Some(m) => Some(m@),
                None => None,
            },
            id,
            element_level,
        ),
{
    match levels {
        Some(levels) => match levels.get(&id) {
            Some(level) => Some(*level),
            None => None,
        },
        None => Some(element_level),
    }
}

/// Level a standard honor placed on a card is drawn with.
///
/// The game draws a placed honor only when the player owns it, at the owned
/// level; `None` means the element is not drawn. Without a `userHonors` list
/// the element's own level is kept.
pub fn placed_honor_level(owned: Option<&OwnedHonorLevels>, honor_id: i32, element_level: i32) -> (r: Option<i32>)
    ensures
        r == placed_level_spec(
            match owned {
                Some(o) => opt_levels(o.honors),
                None => None,
            },
            honor_id,
            element_level,
        ),
{
    let levels: Option<&BTreeMap<i32, i32>> = match owned {
        Some(o) => match &o.honors {
            Some(m) => Some(m),
            None => None,
        },
        None => None,
    };
    placed_level(levels, honor_id, element_level)
}

/// Level a bonds honor placed on a card is drawn with; the same ownership
/// rule as [`placed_honor_level`] applied to `userBondsHonors`.
pub fn placed_bonds_honor_level(owned: Option<&OwnedHonorLevels>, bonds_honor_id: i32, element_level: i32) -> (r:
    Option<i32>)
    ensures
        r == placed_level_spec(
            match owned {
                Some(o) => opt_levels(o.bonds_honors),
                None => None,
            },
            bonds_honor_id,
            element_level,
        ),
{
    let levels: Option<&BTreeMap<i32, i32>> = match owned {
        Some(o) => match &o.bonds_honors {
            Some(m) => Some(m),
            None => None,
        },
        None => None,
    };
    placed_level(levels, bonds_honor_id, element_level)
}

/// A panel slot holds the last story shared in it: slot `j` holds story
/// `i` only when story `i` is shared as `j + 1` and no later story is, and a
/// slot is empty only when no story is shared in it.
pub proof fn law_later_stories_take_the_slot(share_nos: Seq<i32>, k: int, j: int)
    requires
        0 <= k <= share_nos.len(),
        0 <= j < share_slots(share_nos, k).len(),
    ensures
        match share_slots(share_nos, k)[j] {
            Some(i) => 0 <= i < k && share_nos[i] == j + 1 && forall|l: int| i < l < k ==> share_nos[l] != j + 1,
            None => forall|l: int| 0 <= l < k ==> share_nos[l] != j + 1,
        },
    decreases k,
{
    let prev = share_slots(share_nos, k - 1);
    if k > 0 {
        let n = share_nos[k - 1];
        if n < 1 {
            law_later_stories_take_the_slot(share_nos, k - 1, j);
        } else if j == n - 1 {
        } else if j < prev.len() {
            law_later_stories_take_the_slot(share_nos, k - 1, j);
        } else {
            lemma_slots_beyond(share_nos, k - 1, j);
        }
    }
}

/// Slots past the end of the list are shared by no story so far.
proof fn lemma_slots_beyond(share_nos: Seq<i32>, k: int, j: int)
    requires
        0 <= k <= share_nos.len(),
        j >= share_slots(share_nos, k).len(),
    ensures
        forall|l: int| 0 <= l < k ==> share_nos[l] != j + 1,
    decreases k,
{
    if k > 0 {
        lemma_slots_beyond(share_nos, k - 1, j);
    }
}

/// Story types the favorite-story panel shows; entries of any other type are
/// left out.
pub open spec fn is_panel_story_type(story_type: Seq<char>) -> bool {
    story_type == "event_story"@ || story_type == "unit_story"@
}

/// Whether a `userStoryFavorites` entry is kept: a story of a type the panel
/// shows, with a positive id, shared in a slot.
pub fn keeps_story_favorite(story_id: i32, story_type: Option<&str>, share_no: i32) -> (r: bool)
    ensures
        r == (match story_type {
            Some(t) => is_panel_story_type(t@),
            None => false,
        } && story_id > 0 && share_no >= 1),
{
    let panel = match story_type {
        Some(t) => crate::text::str_eq(t, "event_story") || crate::text::str_eq(t, "unit_story"),
        None => false,
    };
    panel && story_id > 0 && share_no >= 1
}

/// The highest rank among the first `k` entries (character id, rank) for
/// `character_id`, if any entry is for it.
pub open spec fn best_rank(entries: Seq<(i32, i32)>, k: int, character_id: i32) -> Option<i32>
    decreases k,
{
    if k <= 0 {
        None
    } else {
        let prev = best_rank(entries, k - 1, character_id);
        let (id, rank) = entries[k - 1];
        if id != character_id {
            prev
        } else {
            match prev {
                Some(r) => Some(if rank > r { rank } else { r }),
                None => Some(rank),
            }
        }
    }
}

/// The ranks a profile lists: for every positive character id among
/// `entries`, its highest rank, by ascending character id.
pub open spec fn ranks_spec(entries: Seq<(i32, i32)>, ranks: Seq<CharacterRank>) -> bool {
    &&& forall|i: int, j: int| 0 <= i < j < ranks.len() ==> ranks[i].character_id < ranks[j].character_id
    &&& forall|i: int|
        0 <= i < ranks.len() ==> {
            &&& (#[trigger] ranks[i]).character_id > 0
            &&& best_rank(entries, entries.len() as int, ranks[i].character_id) == Some(ranks[i].rank)
        }
    &&& forall|id: i32|
        id > 0 && (#[trigger] best_rank(entries, entries.len() as int, id)) is Some ==> exists|i: int|
            0 <= i < ranks.len() && ranks[i].character_id == id
}

/// Each character's highest rank among `(character id, rank)` entries, by
/// ascending character id; entries without a positive character id are left
/// out.
pub fn max_ranks(entries: &[(i32, i32)]) -> (ranks: Vec<CharacterRank>)
    ensures
        ranks_spec(entries@, ranks@),
{
    let mut ranks: Vec<CharacterRank> = Vec::new();
    let mut k: usize = 0;
    while k < entries.len()
        invariant
            k <= entries@.len(),
            forall|i: int, j: int| 0 <= i < j < ranks@.len() ==> ranks@[i].character_id < ranks@[j].character_id,
            forall|i: int|
                0 <= i < ranks@.len() ==> {
                    &&& (#[trigger] ranks@[i]).character_id > 0
                    &&& best_rank(entries@, k as int, ranks@[i].character_id) == Some(ranks@[i].rank)
                },
            forall|id: i32|
                id > 0 && (#[trigger] best_rank(entries@, k as int, id)) is Some ==> exists|i: int|
                    0 <= i < ranks@.len() && ranks@[i].character_id == id,
        decreases entries.len() - k,
    {
        let (id, rank) = entries[k];
        let ghost before = ranks@;
        if id > 0 {
            let mut p: usize = 0;
            while p < ranks.len() && ranks[p].character_id < id
                invariant
                    p <= ranks@.len(),
                    ranks@ == before,
                    forall|t: int| 0 <= t < p ==> ranks@[t].character_id < id,
                decreases ranks.len() - p,
            {
                p = p + 1;
            }
            if p < ranks.len() && ranks[p].character_id == id {
                let current = ranks[p].rank;
                let best = if rank > current { rank } else { current };
                ranks.set(p, CharacterRank { character_id: id, rank: best });
                proof {
                    assert forall|i: int| 0 <= i < ranks@.len() implies {
                        &&& (#[trigger] ranks@[i]).character_id > 0
                        &&& best_rank(entries@, k + 1, ranks@[i].character_id) == Some(ranks@[i].rank)
                    } by {
                        assert(best_rank(entries@, k + 1, ranks@[i].character_id) == if ranks@[i].character_id == id {
                            Some(best)
                        } else {
                            best_rank(entries@, k as int, ranks@[i].character_id)
                        });
                        if i != p {
                            assert(before[i].character_id != id);
                        }
                    }
                    assert forall|x: i32| x > 0 && (#[trigger] best_rank(entries@, k + 1, x)) is Some implies exists|
                        i: int,
                    | 0 <= i < ranks@.len() && ranks@[i].character_id == x by {
                        if x == id {
                            assert(ranks@[p as int].character_id == x);
                        } else {
                            assert(best_rank(entries@, k + 1, x) == best_rank(entries@, k as int, x));
                            let i = choose|i: int| 0 <= i < before.len() && before[i].character_id == x;
                            assert(ranks@[i].character_id == x);
                        }
                    }
                }
            } else {
                ranks.insert(p, CharacterRank { character_id: id, rank });
                proof {
                    assert(ranks@ == before.insert(p as int, CharacterRank { character_id: id, rank }));
                    assert forall|i: int| 0 <= i < before.len() implies (#[trigger] before[i]).character_id != id by {
                        if i >= p {
                            if i > p {
                                assert(before[p as int].character_id < before[i].character_id);
                            }
                        }
                    }
                    assert(best_rank(entries@, k as int, id) is None) by {
                        if best_rank(entries@, k as int, id) is Some {
                            let i = choose|i: int| 0 <= i < before.len() && before[i].character_id == id;
                            assert(before[i].character_id != id);
                        }
                    }
                    assert forall|a: int, b: int| 0 <= a < b < ranks@.len() implies ranks@[a].character_id
                        < ranks@[b].character_id by {
                        if b < p {
                            assert(ranks@[a] == before[a] && ranks@[b] == before[b]);
                        } else if a > p {
                            assert(ranks@[a] == before[a - 1] && ranks@[b] == before[b - 1]);
                        } else if a == p {
                            assert(ranks@[b] == before[b - 1]);
                            if b - 1 > p {
                                assert(before[p as int].character_id < before[b - 1].character_id);
                            }
                        } else {
                            assert(ranks@[a] == before[a]);
                            if b > p {
                                assert(ranks@[b] == before[b - 1]);
                            }
                        }
                    }
                    assert forall|i: int| 0 <= i < ranks@.len() implies {
                        &&& (#[trigger] ranks@[i]).character_id > 0
                        &&& best_rank(entries@, k + 1, ranks@[i].character_id) == Some(ranks@[i].rank)
                    } by {
                        if i < p {
                            assert(ranks@[i] == before[i]);
                        } else if i > p {
                            assert(ranks@[i] == before[i - 1]);
                        }
                    }
                    assert forall|x: i32| x > 0 && (#[trigger] best_rank(entries@, k + 1, x)) is Some implies exists|
                        i: int,
                    | 0 <= i < ranks@.len() && ranks@[i].character_id == x by {
                        if x == id {
                            assert(ranks@[p as int].character_id == x);
                        } else {
                            assert(best_rank(entries@, k + 1, x) == best_rank(entries@, k as int, x));
                            let i = choose|i: int| 0 <= i < before.len() && before[i].character_id == x;
                            if i < p {
                                assert(ranks@[i].character_id == x);
                            } else {
                                assert(ranks@[i + 1].character_id == x);
                            }
                        }
                    }
                }
            }
        } else {
            proof {
                assert forall|x: i32| x > 0 implies best_rank(entries@, k + 1, x) == best_rank(entries@, k as int, x) by {}
                assert forall|x: i32| x > 0 && (#[trigger] best_rank(entries@, k + 1, x)) is Some implies exists|
                    i: int,
                | 0 <= i < ranks@.len() && ranks@[i].character_id == x by {
                    assert(best_rank(entries@, k + 1, x) == best_rank(entries@, k as int, x));
                }
                assert forall|i: int| 0 <= i < ranks@.len() implies {
                    &&& (#[trigger] ranks@[i]).character_id > 0
                    &&& best_rank(entries@, k + 1, ranks@[i].character_id) == Some(ranks@[i].rank)
                } by {
                    assert(best_rank(entries@, k + 1, ranks@[i].character_id) == best_rank(
                        entries@,
                        k as int,
                        ranks@[i].character_id,
                    ));
                }
            }
        }
        k = k + 1;
    }
    ranks
}

/// Normalized player data required by profile-card components.
#[derive(Clone, Debug, Default, PartialEq, Eq)]
pub struct ProfileData {
    pub user_name: String,
    pub user_rank: i32,
    pub total_power: i64,
    pub word: String,
    pub mvp: i32,
    pub superstar: i32,
    pub challenge_score: i32,
    pub challenge_character_id: i32,
    pub leader_card: Option<CardState>,
    pub honor_slots: Vec<HonorSlot>,
    pub deck_members: Vec<CardState>,
    pub music_results: Option<MusicResults>,
    pub character_ranks: Vec<CharacterRank>,
    pub challenge_ranks: Vec<CharacterRank>,
    pub story_favorites: Vec<StoryFavorite>,
    pub honor_mission_progress: BTreeMap<String, i32>,
    pub user_cards: BTreeMap<i32, CardState>,
    pub owned_honors: OwnedHonorLevels,
}

/// The state shown for card `card_id`: the player's own card, or a card at
/// level 60 with nothing else set when the player's cards do not list it.
pub open spec fn card_state_spec(user_cards: Map<i32, CardState>, card_id: i32) -> CardState {
    if user_cards.contains_key(card_id) {
        user_cards[card_id]
    } else {
        CardState { card_id, after_training: false, special_training_done: false, master_rank: 0, level: 60 }
    }
}

fn copy_card(card: &CardState) -> (r: CardState)
    ensures
        r == *card,
{
    CardState {
        card_id: card.card_id,
        after_training: card.after_training,
        special_training_done: card.special_training_done,
        master_rank: card.master_rank,
        level: card.level,
    }
}

impl ProfileData {
    /// The state shown for card `card_id`.
    pub fn card_state(&self, card_id: i32) -> (r: CardState)
        ensures
            r == card_state_spec(self.user_cards@, card_id),
    {

        match self.user_cards.get(&card_id) {
            Some(card) => copy_card(card),
            None => CardState { card_id, after_training: false, special_training_done: false, master_rank: 0, level: 60 },
        }
    }

    /// The deck members a deck lists in its member slots: the state of each
    /// positive card id, in slot order.
    pub fn deck_member_states(&self, member_ids: &[i32]) -> (r: Vec<CardState>)
        ensures
            r@ == member_ids@.filter(|id: i32| id > 0).map_values(|id: i32| card_state_spec(self.user_cards@, id)),
    {
        let mut out: Vec<CardState> = Vec::new();
        let mut k: usize = 0;
        while k < member_ids.len()
            invariant
                k <= member_ids@.len(),
                out@ == member_ids@.take(k as int).filter(|id: i32| id > 0).map_values(
                    |id: i32| card_state_spec(self.user_cards@, id),
                ),
            decreases member_ids.len() - k,
        {
            let id = member_ids[k];
            proof {
                reveal(Seq::filter);
                assert(member_ids@.take(k + 1).drop_last() =~= member_ids@.take(k as int));
            }
            if id > 0 {
                let card = self.card_state(id);
                out.push(card);
            }
            k = k + 1;
            assert(out@ =~= member_ids@.take(k as int).filter(|id: i32| id > 0).map_values(
                |id: i32| card_state_spec(self.user_cards@, id),
            ));
        }
        assert(member_ids@.take(member_ids@.len() as int) =~= member_ids@);
        out
    }
}

/// An honor slot as the profile lists it: levels below 1 read as 1, the slot
/// with `seq` 2 is the full-size one, and a missing honor type is `normal`.
pub fn honor_slot(
    honor_id: i32,
    honor_level: i32,
    seq: i32,
    profile_honor_type: Option<String>,
    bonds_honor_word_id: Option<i64>,
    bonds_honor_view_type: Option<String>,
) -> (slot: HonorSlot)
    ensures
        slot.honor_id == honor_id,
        slot.honor_level == if honor_level < 1 { 1 } else { honor_level },
        slot.full_size == (seq == 2),
        slot.profile_honor_type@ == match profile_honor_type {
            Some(t) => t@,
            None => "normal"@,
        },
        slot.bonds_honor_word_id == bonds_honor_word_id,
        slot.bonds_honor_view_type == bonds_honor_view_type,
{
    HonorSlot {
        honor_id,
        honor_level: if honor_level < 1 { 1 } else { honor_level },
        full_size: seq == 2,
        profile_honor_type: match profile_honor_type {
            Some(t) => t,
            None => String::from_str("normal"),
        },
        bonds_honor_word_id,
        bonds_honor_view_type,
    }
}

/// An `i32` member of a value: the integer it holds cut to 32 bits, or 0 when
/// the member is missing or holds no integer.
pub open spec fn int_member(value: JsonValue, key: Seq<char>) -> i32 {
    match member_int(value, key) {
        Some(n) => n as i32,
        None => 0,
    }
}

fn integer(value: &JsonValue, key: &str) -> (r: i32)
    ensures
        r == int_member(*value, key@),
{
    match value.get(key) {
        Some(v) => match v.as_i64() {
            Some(n) => n as i32,
            None => 0,
        },
        None => 0,
    }
}

fn optional_string(value: &JsonValue, key: &str) -> (r: Option<String>)
    ensures
        opt_string_view(r) == member_str(*value, key@),
{
    match value.get(key) {
        Some(v) => match v.as_str() {
            Some(s) => Some(String::from_str(s)),
            None => None,
        },
        None => None,
    }
}

fn string(value: &JsonValue, key: &str) -> (r: String)
    ensures
        r@ == or_empty(member_str(*value, key@)),
{
    match optional_string(value, key) {
        Some(s) => s,
        None => String::new(),
    }
}

/// The items of an optional array value; none for anything else.
pub open spec fn items_or_empty(value: Option<JsonValue>) -> Seq<JsonValue> {
    match value {
        Some(v) => match items_of(v) {
            Some(items) => items,
            None => Seq::empty(),
        },
        None => Seq::empty(),
    }
}

/// The `(id, level)` an owned-honor row holds: `[id, level, ...]`, or an
/// object with the id under `id_field` and `level`; both must be integers,
/// each cut to 32 bits.
pub open spec fn level_row(row: JsonValue, id_field: Seq<char>) -> Option<(i32, i32)> {
    match row {
        JsonValue::Array(fields) => if fields@.len() >= 2 {
            match (crate::json::int_of(fields@[0]), crate::json::int_of(fields@[1])) {
                (Some(id), Some(level)) => Some((id as i32, level as i32)),
                _ => None,
            }
        } else {
            None
        },
        _ => match (member_int(row, id_field), member_int(row, "level"@)) {
            (Some(id), Some(level)) => Some((id as i32, level as i32)),
            _ => None,
        },
    }
}

/// The levels the first `k` rows give, a later row of an id replacing an
/// earlier one.
pub open spec fn levels_from_rows(rows: Seq<JsonValue>, id_field: Seq<char>, k: int) -> Map<i32, i32>
    decreases k,
{
    if k <= 0 {
        Map::empty()
    } else {
        let prev = levels_from_rows(rows, id_field, k - 1);
        match level_row(rows[k - 1], id_field) {
            Some((id, level)) => prev.insert(id, level),
            None => prev,
        }
    }
}

/// The owned levels an optional list of rows gives; unknown without a list.
pub open spec fn owned_levels_spec(value: Option<JsonValue>, id_field: Seq<char>) -> Option<Map<i32, i32>> {
    match value {
        Some(v) => match items_of(v) {
            Some(rows) => Some(levels_from_rows(rows, id_field, rows.len() as int)),
            None => None,
        },
        None => None,
    }
}

fn level_of_row(row: &JsonValue, id_field: &str) -> (r: Option<(i32, i32)>)
    ensures
        r == level_row(*row, id_field@),
{
    match row {
        JsonValue::Array(fields) => {
            if fields.len() >= 2 {
                match (fields[0].as_i64(), fields[1].as_i64()) {
                    (Some(id), Some(level)) => Some((id as i32, level as i32)),
                    _ => None,
                }
            } else {
                None
            }
        },
        _ => {
            let id = match row.get(id_field) {
                Some(v) => v.as_i64(),
                None => None,
            };
            let level = match row.get("level") {
                Some(v) => v.as_i64(),
                None => None,
            };
            match (id, level) {
                (Some(id), Some(level)) => Some((id as i32, level as i32)),
                _ => None,
            }
        },
    }
}

fn owned_levels(value: Option<&JsonValue>, id_field: &str) -> (r: Option<BTreeMap<i32, i32>>)
    ensures
        opt_levels(r) == owned_levels_spec(
            match value {
                Some(v) => Some(*v),
                None => None,
            },
            id_field@,
        ),
{
    let rows = match value {
        Some(v) => match v.as_array() {
            Some(rows) => rows,
            None => {
                return None;
            },
        },
        None => {
            return None;
        },
    };
    let mut levels: BTreeMap<i32, i32> = BTreeMap::new();
    let mut k: usize = 0;
    while k < rows.len()
        invariant
            k <= rows@.len(),
            levels@ == levels_from_rows(rows@, id_field@, k as int),
        decreases rows.len() - k,
    {
        match level_of_row(&rows[k], id_field) {
            Some((id, level)) => {
                levels.insert(id, level);
            },
            None => {},
        }
        k = k + 1;
    }
    Some(levels)
}

impl OwnedHonorLevels {
    /// The levels of the honors a profile response lists under `userHonors`
    /// and `userBondsHonors`.
    pub fn from_json(body: &JsonValue) -> (r: Self)
        ensures
            opt_levels(r.honors) == owned_levels_spec(member(*body, "userHonors"@), "honorId"@),
            opt_levels(r.bonds_honors) == owned_levels_spec(member(*body, "userBondsHonors"@), "bondsHonorId"@),
    {
        OwnedHonorLevels {
            honors: owned_levels(body.get("userHonors"), "honorId"),
            bonds_honors: owned_levels(body.get("userBondsHonors"), "bondsHonorId"),
        }
    }
}

/// The state a `userCards` row gives: the trained illustration when
/// `defaultImage` is `special_training`, training done when
/// `specialTrainingStatus` is `done`, level 60 when none is listed.
pub open spec fn card_of_row(card: JsonValue) -> CardState {
    CardState {
        card_id: int_member(card, "cardId"@),
        after_training: member_str(card, "defaultImage"@) == Some("special_training"@),
        special_training_done: member_str(card, "specialTrainingStatus"@) == Some("done"@),
        master_rank: int_member(card, "masterRank"@),
        level: match member_int(card, "level"@) {
            Some(n) => n as i32,
            None => 60,
        },
    }
}

/// The cards the first `k` rows give, by positive card id, a later row of
/// an id replacing an earlier one.
pub open spec fn cards_from_rows(rows: Seq<JsonValue>, k: int) -> Map<i32, CardState>
    decreases k,
{
    if k <= 0 {
        Map::empty()
    } else {
        let prev = cards_from_rows(rows, k - 1);
        let card = card_of_row(rows[k - 1]);
        if card.card_id > 0 {
            prev.insert(card.card_id, card)
        } else {
            prev
        }
    }
}

fn member_is(value: &JsonValue, key: &str, expected: &str) -> (r: bool)
    ensures
        r == (member_str(*value, key@) == Some(expected@)),
{
    match value.get(key) {
        Some(v) => match v.as_str() {
            Some(s) => crate::text::str_eq(s, expected),
            None => false,
        },
        None => false,
    }
}

fn card_of(card: &JsonValue) -> (r: CardState)
    ensures
        r == card_of_row(*card),
{
    CardState {
        card_id: integer(card, "cardId"),
        after_training: member_is(card, "defaultImage", "special_training"),
        special_training_done: member_is(card, "specialTrainingStatus", "done"),
        master_rank: integer(card, "masterRank"),
        level: match card.get("level") {
            Some(v) => match v.as_i64() {
                Some(n) => n as i32,
                None => 60,
            },
            None => 60,
        },
    }
}

fn user_cards_from(rows: &Vec<JsonValue>) -> (r: BTreeMap<i32, CardState>)
    ensures
        r@ == cards_from_rows(rows@, rows@.len() as int),
{
    let mut cards: BTreeMap<i32, CardState> = BTreeMap::new();
    let mut k: usize = 0;
    while k < rows.len()
        invariant
            k <= rows@.len(),
            cards@ == cards_from_rows(rows@, k as int),
        decreases rows.len() - k,
    {
        let card = card_of(&rows[k]);
        if card.card_id > 0 {
            cards.insert(card.card_id, card);
        }
        k = k + 1;
    }
    cards
}

/// `slot` is the honor slot a `userProfileHonors` row gives.
pub open spec fn is_slot_of(slot: HonorSlot, row: JsonValue) -> bool {
    &&& slot.honor_id == int_member(row, "honorId"@)
    &&& slot.honor_level == if int_member(row, "honorLevel"@) < 1 {
        1
    } else {
        int_member(row, "honorLevel"@)
    }
    &&& slot.full_size == (int_member(row, "seq"@) == 2)
    &&& slot.profile_honor_type@ == or_text(member_str(row, "profileHonorType"@), "normal"@)
    &&& slot.bonds_honor_word_id == member_int(row, "bondsHonorWordId"@)
    &&& opt_string_view(slot.bonds_honor_view_type) == member_str(row, "bondsHonorViewType"@)
}

fn honor_slots_from(rows: &Vec<JsonValue>) -> (r: Vec<HonorSlot>)
    ensures
        r@.len() == rows@.len(),
        forall|i: int| 0 <= i < rows@.len() ==> is_slot_of(#[trigger] r@[i], rows@[i]),
{
    let mut slots: Vec<HonorSlot> = Vec::new();
    let mut k: usize = 0;
    while k < rows.len()
        invariant
            k <= rows@.len(),
            slots@.len() == k,
            forall|i: int| 0 <= i < k ==> is_slot_of(#[trigger] slots@[i], rows@[i]),
        decreases rows.len() - k,
    {
        let row = &rows[k];
        let word_id = match row.get("bondsHonorWordId") {
            Some(v) => v.as_i64(),
            None => None,
        };
        let slot = honor_slot(
            integer(row, "honorId"),
            integer(row, "honorLevel"),
            integer(row, "seq"),
            optional_string(row, "profileHonorType"),
            word_id,
            optional_string(row, "bondsHonorViewType"),
        );
        slots.push(slot);
        k = k + 1;
    }
    slots
}

/// The favorite a `userStoryFavorites` row gives: its story id, type and
/// slot, for a story of a type the panel shows with a positive id and a slot.
pub open spec fn favorite_of(row: JsonValue) -> Option<(i32, Seq<char>, i32)> {
    let id = int_member(row, "storyId"@);
    let share_no = int_member(row, "shareNo"@);
    match member_str(row, "storyType"@) {
        Some(t) => if is_panel_story_type(t) && id > 0 && share_no >= 1 {
            Some((id, t, share_no))
        } else {
            None
        },
        None => None,
    }
}

/// The favorites the first `k` rows give, in order.
pub open spec fn favorites_from_rows(rows: Seq<JsonValue>, k: int) -> Seq<(i32, Seq<char>, i32)>
    decreases k,
{
    if k <= 0 {
        Seq::empty()
    } else {
        let prev = favorites_from_rows(rows, k - 1);
        match favorite_of(rows[k - 1]) {
            Some(f) => prev.push(f),
            None => prev,
        }
    }
}

/// `stories` holds the favorites `favorites` lists.
pub open spec fn lists_favorites(stories: Seq<StoryFavorite>, favorites: Seq<(i32, Seq<char>, i32)>) -> bool {
    &&& stories.len() == favorites.len()
    &&& forall|i: int|
        0 <= i < stories.len() ==> {
            &&& (#[trigger] stories[i]).story_id == favorites[i].0
            &&& stories[i].story_type@ == favorites[i].1
            &&& stories[i].share_no == favorites[i].2
        }
}

fn story_favorites_from(rows: &Vec<JsonValue>) -> (r: Vec<StoryFavorite>)
    ensures
        lists_favorites(r@, favorites_from_rows(rows@, rows@.len() as int)),
{
    let mut stories: Vec<StoryFavorite> = Vec::new();
    let mut k: usize = 0;
    while k < rows.len()
        invariant
            k <= rows@.len(),
            lists_favorites(stories@, favorites_from_rows(rows@, k as int)),
        decreases rows.len() - k,
    {
        let row = &rows[k];
        let story_id = integer(row, "storyId");
        let share_no = integer(row, "shareNo");
        let story_type = optional_string(row, "storyType");
        let keep = match &story_type {
            Some(t) => keeps_story_favorite(story_id, Some(t.as_str()), share_no),
            None => false,
        };
        if keep {
            match story_type {
                Some(t) => {
                    stories.push(StoryFavorite { story_id, story_type: t, share_no });
                },
                None => {},
            }
        }
        k = k + 1;
    }
    stories
}

/// The first row of a difficulty's clear counts.
pub open spec fn difficulty_row(rows: Seq<JsonValue>, name: Seq<char>) -> Option<JsonValue>
    decreases rows.len(),
{
    if rows.len() == 0 {
        None
    } else if member_str(rows[0], "musicDifficultyType"@) == Some(name) {
        Some(rows[0])
    } else {
        difficulty_row(rows.drop_first(), name)
    }
}

/// The clear counts a row gives; all 0 without a row.
pub open spec fn stats_of(row: Option<JsonValue>) -> MusicDifficultyStats {
    match row {
        Some(r) => MusicDifficultyStats {
            clear: int_member(r, "liveClear"@),
            full_combo: int_member(r, "fullCombo"@),
            all_perfect: int_member(r, "allPerfect"@),
        },
        None => MusicDifficultyStats { clear: 0, full_combo: 0, all_perfect: 0 },
    }
}

fn difficulty(rows: &Vec<JsonValue>, name: &str) -> (r: MusicDifficultyStats)
    ensures
        r == stats_of(difficulty_row(rows@, name@)),
{
    let mut k: usize = 0;
    assert(rows@.skip(0) =~= rows@);
    while k < rows.len()
        invariant
            k <= rows@.len(),
            difficulty_row(rows@, name@) == difficulty_row(rows@.skip(k as int), name@),
        decreases rows.len() - k,
    {
        if member_is(&rows[k], "musicDifficultyType", name) {
            let row = &rows[k];
            return MusicDifficultyStats {
                clear: integer(row, "liveClear"),
                full_combo: integer(row, "fullCombo"),
                all_perfect: integer(row, "allPerfect"),
            };
        }
        assert(rows@.skip(k as int).drop_first() =~= rows@.skip(k + 1));
        k = k + 1;
    }
    MusicDifficultyStats { clear: 0, full_combo: 0, all_perfect: 0 }
}

/// The clear counts of each difficulty in `userMusicDifficultyClearCount`
/// rows.
pub open spec fn music_results_of(rows: Seq<JsonValue>) -> MusicResults {
    MusicResults {
        easy: stats_of(difficulty_row(rows, "easy"@)),
        normal: stats_of(difficulty_row(rows, "normal"@)),
        hard: stats_of(difficulty_row(rows, "hard"@)),
        expert: stats_of(difficulty_row(rows, "expert"@)),
        master: stats_of(difficulty_row(rows, "master"@)),
        append: stats_of(difficulty_row(rows, "append"@)),
    }
}

fn parse_music_results(rows: &Vec<JsonValue>) -> (r: MusicResults)
    ensures
        r == music_results_of(rows@),
{
    MusicResults {
        easy: difficulty(rows, "easy"),
        normal: difficulty(rows, "normal"),
        hard: difficulty(rows, "hard"),
        expert: difficulty(rows, "expert"),
        master: difficulty(rows, "master"),
        append: difficulty(rows, "append"),
    }
}

/// `(characterId, rank)` of each row, the rank read from `rank_field`.
pub open spec fn rank_entries(rows: Seq<JsonValue>, rank_field: Seq<char>) -> Seq<(i32, i32)> {
    rows.map_values(|row: JsonValue| (int_member(row, "characterId"@), int_member(row, rank_field)))
}

fn ranks(value: Option<&JsonValue>, rank_field: &str) -> (r: Vec<CharacterRank>)
    ensures
        ranks_spec(
            rank_entries(
                items_or_empty(
                    match value {
                        Some(v) => Some(*v),
                        None => None,
                    },
                ),
                rank_field@,
            ),
            r@,
        ),
{
    let empty: Vec<JsonValue> = Vec::new();
    let rows: &Vec<JsonValue> = match value {
        Some(v) => match v.as_array() {
            Some(rows) => rows,
            None => &empty,
        },
        None => &empty,
    };
    let mut entries: Vec<(i32, i32)> = Vec::new();
    let mut k: usize = 0;
    while k < rows.len()
        invariant
            k <= rows@.len(),
            entries@ == rank_entries(rows@, rank_field@).take(k as int),
        decreases rows.len() - k,
    {
        entries.push((integer(&rows[k], "characterId"), integer(&rows[k], rank_field)));
        k = k + 1;
        assert(entries@ =~= rank_entries(rows@, rank_field@).take(k as int));
    }
    assert(rank_entries(rows@, rank_field@).take(rows@.len() as int) =~= rank_entries(rows@, rank_field@));
    max_ranks(entries.as_slice())
}

/// The card ids a deck lists in its five member slots, in slot order.
pub open spec fn deck_member_ids(deck: JsonValue) -> Seq<i32> {
    seq![
        int_member(deck, "member1"@),
        int_member(deck, "member2"@),
        int_member(deck, "member3"@),
        int_member(deck, "member4"@),
        int_member(deck, "member5"@),
    ]
}

/// Whether `String`'s ordering obeys the laws of `Ord`, the condition under
/// which vstd specifies what `BTreeMap::insert` does with `String` keys.
pub open spec fn string_order_is_lawful() -> bool {
    vstd::laws_cmp::obeys_cmp::<String>()
}

/// The progress of the last of the first `n` mission rows whose type is
/// `kind`, if any of them has that type.
pub open spec fn mission_progress_of(rows: Seq<JsonValue>, n: int, kind: Seq<char>) -> Option<i32>
    decreases n,
{
    if n <= 0 {
        None
    } else if member_str(rows[n - 1], "honorMissionType"@) == Some(kind) {
        Some(int_member(rows[n - 1], "progress"@))
    } else {
        mission_progress_of(rows, n - 1, kind)
    }
}

/// The map read from the first `n` mission rows: each key is the type of
/// one of them and holds that row's progress, and each type among them is
/// a key holding the progress of the last row of that type.
pub open spec fn reads_missions(progress: Map<String, i32>, rows: Seq<JsonValue>, n: int) -> bool {
    &&& forall|key: String|
        #[trigger] progress.contains_key(key) ==> exists|i: int|
            {
                &&& 0 <= i < n
                &&& #[trigger] member_str(rows[i], "honorMissionType"@) == Some(key@)
                &&& int_member(rows[i], "progress"@) == progress[key]
            }
    &&& forall|kind: Seq<char>|
        #[trigger] mission_progress_of(rows, n, kind) is Some ==> exists|key: String|
            {
                &&& key@ == kind
                &&& #[trigger] progress.contains_key(key)
                &&& progress[key] == mission_progress_of(rows, n, kind).unwrap()
            }
}

/// The progress of each honor mission type, the last row of a type winning.
/// The map's contents are stated for keys whose ordering obeys the laws of
/// `Ord`, the condition under which vstd specifies `BTreeMap::insert`.
fn mission_progress_from(rows: &Vec<JsonValue>) -> (r: BTreeMap<String, i32>)
    ensures
        string_order_is_lawful() ==> reads_missions(r@, rows@, rows@.len() as int),
{
    let mut progress: BTreeMap<String, i32> = BTreeMap::new();
    let mut k: usize = 0;
    while k < rows.len()
        invariant
            k <= rows@.len(),
            string_order_is_lawful() ==> reads_missions(progress@, rows@, k as int),
        decreases rows.len() - k,
    {
        let ghost before = progress@;
        match optional_string(&rows[k], "honorMissionType") {
            Some(kind) => {
                let ghost kind_view = kind@;
                let ghost kind_key = kind;
                let value = integer(&rows[k], "progress");
                progress.insert(kind, value);
                proof {
                    if string_order_is_lawful() {
                        let after = progress@;
                        assert(after == before.insert(kind_key, value));
                        assert forall|key: String| #[trigger] after.contains_key(key) implies exists|i: int|
                            {
                                &&& 0 <= i < k + 1
                                &&& #[trigger] member_str(rows@[i], "honorMissionType"@) == Some(key@)
                                &&& int_member(rows@[i], "progress"@) == after[key]
                            } by {
                            if key == kind_key {
                                assert(member_str(rows@[k as int], "honorMissionType"@) == Some(key@));
                            } else {
                                assert(before.contains_key(key));
                                let i = choose|i: int|
                                    {
                                        &&& 0 <= i < k
                                        &&& #[trigger] member_str(rows@[i], "honorMissionType"@) == Some(key@)
                                        &&& int_member(rows@[i], "progress"@) == before[key]
                                    };
                                assert(member_str(rows@[i], "honorMissionType"@) == Some(key@));
                            }
                        }
                        assert forall|kind2: Seq<char>|
                            #[trigger] mission_progress_of(rows@, k + 1, kind2) is Some implies exists|key: String|
                                {
                                    &&& key@ == kind2
                                    &&& #[trigger] after.contains_key(key)
                                    &&& after[key] == mission_progress_of(rows@, k + 1, kind2).unwrap()
                                } by {
                            if kind2 == kind_view {
                                assert(after.contains_key(kind_key));
                            } else {
                                assert(mission_progress_of(rows@, k + 1, kind2) == mission_progress_of(rows@, k as int, kind2));
                                assert(mission_progress_of(rows@, k as int, kind2) is Some);
                                let key = choose|key: String|
                                    {
                                        &&& key@ == kind2
                                        &&& #[trigger] before.contains_key(key)
                                        &&& before[key] == mission_progress_of(rows@, k as int, kind2).unwrap()
                                    };
                                assert(key != kind_key);
                                assert(after.contains_key(key));
                            }
                        }
                    }
                }
            },
            None => {
                proof {
                    if string_order_is_lawful() {
                        assert forall|key: String| #[trigger] progress@.contains_key(key) implies exists|i: int|
                            {
                                &&& 0 <= i < k + 1
                                &&& #[trigger] member_str(rows@[i], "honorMissionType"@) == Some(key@)
                                &&& int_member(rows@[i], "progress"@) == progress@[key]
                            } by {
                            let i = choose|i: int|
                                {
                                    &&& 0 <= i < k
                                    &&& #[trigger] member_str(rows@[i], "honorMissionType"@) == Some(key@)
                                    &&& int_member(rows@[i], "progress"@) == progress@[key]
                                };
                            assert(member_str(rows@[i], "honorMissionType"@) == Some(key@));
                        }
                        assert forall|kind2: Seq<char>|
                            #[trigger] mission_progress_of(rows@, k + 1, kind2) is Some implies exists|key: String|
                                {
                                    &&& key@ == kind2
                                    &&& #[trigger] progress@.contains_key(key)
                                    &&& progress@[key] == mission_progress_of(rows@, k + 1, kind2).unwrap()
                                } by {
                            assert(mission_progress_of(rows@, k + 1, kind2) == mission_progress_of(rows@, k as int, kind2));
                            assert(mission_progress_of(rows@, k as int, kind2) is Some);
                        }
                    }
                }
            },
        }
        k = k + 1;
    }
    progress
}

impl ProfileData {
    /// The renderer's fields of an unmodified profile API response; every
    /// other field is left behind.
    pub fn from_json(body: &JsonValue) -> (r: Self)
        ensures
            r.user_name@ == match member(*body, "user"@) {
                Some(user) => or_empty(member_str(user, "name"@)),
                None => Seq::empty(),
            },
            r.user_rank == match member(*body, "user"@) {
                Some(user) => int_member(user, "rank"@),
                None => 0,
            },
            r.word@ == match member(*body, "userProfile"@) {
                Some(profile) => or_empty(member_str(profile, "word"@)),
                None => Seq::empty(),
            },
            r.total_power == match member(*body, "totalPower"@) {
                Some(total) => match member_int(total, "totalPower"@) {
                    Some(n) => n,
                    None => 0,
                },
                None => 0,
            },
            r.mvp == match member(*body, "userMultiLiveTopScoreCount"@) {
                Some(score) => int_member(score, "mvp"@),
                None => 0,
            },
            r.superstar == match member(*body, "userMultiLiveTopScoreCount"@) {
                Some(score) => int_member(score, "superStar"@),
                None => 0,
            },
            r.challenge_score == match member(*body, "userChallengeLiveSoloResult"@) {
                Some(challenge) => int_member(challenge, "highScore"@),
                None => 0,
            },
            r.challenge_character_id == match member(*body, "userChallengeLiveSoloResult"@) {
                Some(challenge) => int_member(challenge, "characterId"@),
                None => 0,
            },
            ranks_spec(
                rank_entries(items_or_empty(member(*body, "userCharacters"@)), "characterRank"@),
                r.character_ranks@,
            ),
            ranks_spec(
                rank_entries(items_or_empty(member(*body, "userChallengeLiveSoloStages"@)), "rank"@),
                r.challenge_ranks@,
            ),
            r.user_cards@ == cards_from_rows(
                items_or_empty(member(*body, "userCards"@)),
                items_or_empty(member(*body, "userCards"@)).len() as int,
            ),
            r.deck_members@ == match member(*body, "userDeck"@) {
                Some(deck) => deck_member_ids(deck).filter(|id: i32| id > 0).map_values(
                    |id: i32| card_state_spec(r.user_cards@, id),
                ),
                None => Seq::empty(),
            },
            r.leader_card == match member(*body, "userDeck"@) {
                Some(deck) => if int_member(deck, "leader"@) > 0 {
                    Some(card_state_spec(r.user_cards@, int_member(deck, "leader"@)))
                } else {
                    None
                },
                None => None,
            },
            r.honor_slots@.len() == items_or_empty(member(*body, "userProfileHonors"@)).len(),
            forall|i: int|
                0 <= i < r.honor_slots@.len() ==> is_slot_of(
                    #[trigger] r.honor_slots@[i],
                    items_or_empty(member(*body, "userProfileHonors"@))[i],
                ),
            lists_favorites(
                r.story_favorites@,
                favorites_from_rows(
                    items_or_empty(member(*body, "userStoryFavorites"@)),
                    items_or_empty(member(*body, "userStoryFavorites"@)).len() as int,
                ),
            ),
            r.music_results == match member_items(*body, "userMusicDifficultyClearCount"@) {
                Some(rows) => Some(music_results_of(rows)),
                None => None,
            },
            opt_levels(r.owned_honors.honors) == owned_levels_spec(member(*body, "userHonors"@), "honorId"@),
            opt_levels(r.owned_honors.bonds_honors) == owned_levels_spec(
                member(*body, "userBondsHonors"@),
                "bondsHonorId"@,
            ),
    {
        let empty: Vec<JsonValue> = Vec::new();
        let (user_name, user_rank) = match body.get("user") {
            Some(user) => (string(user, "name"), integer(user, "rank")),
            None => (String::new(), 0),
        };
        let word = match body.get("userProfile") {
            Some(profile) => string(profile, "word"),
            None => String::new(),
        };
        let total_power = match body.get("totalPower") {
            Some(total) => match total.get("totalPower") {
                Some(v) => match v.as_i64() {
                    Some(n) => n,
                    None => 0,
                },
                None => 0,
            },
            None => 0,
        };
        let (mvp, superstar) = match body.get("userMultiLiveTopScoreCount") {
            Some(score) => (integer(score, "mvp"), integer(score, "superStar")),
            None => (0, 0),
        };
        let (challenge_score, challenge_character_id) = match body.get("userChallengeLiveSoloResult") {
            Some(challenge) => (integer(challenge, "highScore"), integer(challenge, "characterId")),
            None => (0, 0),
        };
        let character_ranks = ranks(body.get("userCharacters"), "characterRank");
        let challenge_ranks = ranks(body.get("userChallengeLiveSoloStages"), "rank");
        let rows_of = |key: &str| -> (rows: &Vec<JsonValue>)
            ensures
                rows@ == items_or_empty(member(*body, key@)),
            {
                match body.get(key) {
                    Some(v) => match v.as_array() {
                        Some(rows) => rows,
                        None => &empty,
                    },
                    None => &empty,
                }
            };
        let user_cards = user_cards_from(rows_of("userCards"));
        let mut output = ProfileData {
            user_name,
            user_rank,
            total_power,
            word,
            mvp,
            superstar,
            challenge_score,
            challenge_character_id,
            leader_card: None,
            honor_slots: honor_slots_from(rows_of("userProfileHonors")),
            deck_members: Vec::new(),
            music_results: match body.get("userMusicDifficultyClearCount") {
                Some(v) => match v.as_array() {
                    Some(rows) => Some(parse_music_results(rows)),
                    None => None,
                },
                None => None,
            },
            character_ranks,
            challenge_ranks,
            story_favorites: story_favorites_from(rows_of("userStoryFavorites")),
            honor_mission_progress: mission_progress_from(rows_of("userHonorMissions")),
            user_cards,
            owned_honors: OwnedHonorLevels::from_json(body),
        };
        match body.get("userDeck") {
            Some(deck) => {
                let ids = [
                    integer(deck, "member1"),
                    integer(deck, "member2"),
                    integer(deck, "member3"),
                    integer(deck, "member4"),
                    integer(deck, "member5"),
                ];
                assert(ids@ =~= deck_member_ids(*deck));
                output.deck_members = output.deck_member_states(ids.as_slice());
                let leader = integer(deck, "leader");
                if leader > 0 {
                    output.leader_card = Some(output.card_state(leader));
                }
            },
            None => {},
        }
        output
    }
}

} // verus!
