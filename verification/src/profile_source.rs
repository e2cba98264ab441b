//! The order in which the game shows a profile's pages.
//!
//! The Profile API does not return pages sorted: pages are shown by
//! ascending `seq`, with the response order breaking ties, so a page number
//! must be looked up through that order rather than by array position.

use vstd::prelude::*;

verus! {

/// Page `a` comes before page `b` when its `seq` is smaller, or equal with
/// `a` earlier in the response.
pub open spec fn shown_before(keys: Seq<i32>, a: int, b: int) -> bool {
    keys[a] < keys[b] || (keys[a] == keys[b] && a < b)
}

/// `order` lists every index of `keys` once, in the order the game shows
/// the pages.
pub open spec fn is_page_order(keys: Seq<i32>, order: Seq<usize>) -> bool {
    &&& order.len() == keys.len()
    &&& forall|i: int| 0 <= i < order.len() ==> #[trigger] order[i] < keys.len()
    &&& forall|i: int, j: int| 0 <= i < j < order.len() ==> shown_before(keys, order[i] as int, order[j] as int)
}

/// Indices into `keys` by ascending key, equal keys in index order.
pub fn stable_order(keys: &[i32]) -> (order: Vec<usize>)
    ensures
        is_page_order(keys@, order@),
{
    let mut order: Vec<usize> = Vec::new();
    let mut i: usize = 0;
    while i < keys.len()
        invariant
            i <= keys@.len(),
            order@.len() == i,
            forall|k: int| 0 <= k < order@.len() ==> #[trigger] order@[k] < i,
            forall|a: int, b: int| 0 <= a < b < order@.len() ==> shown_before(keys@, order@[a] as int, order@[b] as int),
        decreases keys.len() - i,
    {
        let key = keys[i];
        let mut p: usize = 0;
        while p < order.len() && keys[order[p]] <= key
            invariant
                p <= order@.len(),
                i < keys@.len(),
                key == keys@[i as int],
                forall|k: int| 0 <= k < order@.len() ==> #[trigger] order@[k] < i,
                forall|k: int| 0 <= k < p ==> keys@[#[trigger] order@[k] as int] <= key,
            decreases order.len() - p,
        {
            p = p + 1;
        }
        let ghost before = order@;
        order.insert(p, i);
        proof {
            assert(order@ == before.insert(p as int, i));
            assert forall|a: int, b: int| 0 <= a < b < order@.len() implies shown_before(
                keys@,
                order@[a] as int,
                order@[b] as int,
            ) by {
                if b < p {
                    assert(order@[a] == before[a] && order@[b] == before[b]);
                } else if a > p {
                    assert(order@[a] == before[a - 1] && order@[b] == before[b - 1]);
                } else if a == p {
                    assert(order@[b] == before[b - 1]);
                    assert(keys@[before[p as int] as int] > key);
                    if b - 1 > p {
                        assert(shown_before(keys@, before[p as int] as int, before[b - 1] as int));
                    }
                } else {
                    assert(order@[a] == before[a]);
                    assert(keys@[before[a] as int] <= key);
                    assert(before[a] < i);
                    if b > p {
                        assert(order@[b] == before[b - 1]);
                    }
                }
            }
            assert forall|k: int| 0 <= k < order@.len() implies #[trigger] order@[k] < i + 1 by {
                if k < p {
                    assert(order@[k] == before[k]);
                } else if k > p {
                    assert(order@[k] == before[k - 1]);
                }
            }
        }
        i = i + 1;
    }
    order
}

/// Order in which the game shows a profile's pages: indices into `pages` by
/// ascending `seq`, with the response order breaking ties.
pub fn profile_page_order<T, F: Fn(&T) -> i32>(pages: &[T], seq: F) -> (order: Vec<usize>)
    requires
        forall|i: int| 0 <= i < pages@.len() ==> call_requires(seq, (&pages@[i],)),
    ensures
        exists|keys: Seq<i32>|
            {
                &&& keys.len() == pages@.len()
                &&& forall|i: int| 0 <= i < keys.len() ==> call_ensures(seq, (&pages@[i],), #[trigger] keys[i])
                &&& is_page_order(keys, order@)
            },
{
    let mut keys: Vec<i32> = Vec::new();
    let mut i: usize = 0;
    while i < pages.len()
        invariant
            i <= pages@.len(),
            keys@.len() == i,
            forall|j: int| 0 <= j < pages@.len() ==> call_requires(seq, (&pages@[j],)),
            forall|j: int| 0 <= j < i ==> call_ensures(seq, (&pages@[j],), #[trigger] keys@[j]),
        decreases pages.len() - i,
    {
        let k = seq(&pages[i]);
        keys.push(k);
        i = i + 1;
    }
    stable_order(keys.as_slice())
}

/// What the layout of a card reads of each element: the layer it is drawn
/// on and whether it is shown.
#[derive(Clone, Copy, Debug, PartialEq, Eq)]
pub struct ObjectData {
    pub layer: i32,
    pub visible: bool,
}

/// Source data for one custom profile-card page: its elements, one array per
/// kind.
#[derive(Clone, Debug, PartialEq)]
pub struct CustomProfileCard {
    pub texts: Vec<ObjectData>,
    pub shapes: Vec<ObjectData>,
    pub card_members: Vec<ObjectData>,
    pub stamps: Vec<ObjectData>,
    pub others: Vec<ObjectData>,
    pub bonds_honors: Vec<ObjectData>,
    pub honors: Vec<ObjectData>,
    pub collections: Vec<ObjectData>,
    pub generals: Vec<ObjectData>,
    pub general_backgrounds: Vec<ObjectData>,
    pub stand_members: Vec<ObjectData>,
    pub story_backgrounds: Vec<ObjectData>,
}

impl CustomProfileCard {
    /// The number of elements on the page, all kinds together.
    pub open spec fn count_spec(&self) -> nat {
        self.texts@.len() + self.shapes@.len() + self.card_members@.len() + self.stamps@.len()
            + self.others@.len() + self.bonds_honors@.len() + self.honors@.len() + self.collections@.len()
            + self.generals@.len() + self.stand_members@.len() + self.general_backgrounds@.len()
            + self.story_backgrounds@.len()
    }

    /// The number of elements on the page, all kinds together.
    pub fn element_count(&self) -> (n: usize)
        requires
            self.count_spec() <= usize::MAX,
        ensures
            n == self.count_spec(),
    {
        self.texts.len() + self.shapes.len() + self.card_members.len() + self.stamps.len() + self.others.len()
            + self.bonds_honors.len() + self.honors.len() + self.collections.len() + self.generals.len()
            + self.stand_members.len() + self.general_backgrounds.len() + self.story_backgrounds.len()
    }
}

/// A page as the Profile API returns it: the card with its identifiers and
/// the `seq` that places it among the profile's pages.
#[derive(Clone, Debug, PartialEq)]
pub struct UserCustomProfileCard {
    pub custom_profile_card: CustomProfileCard,
    pub custom_profile_card_id: i32,
    pub custom_profile_id: i32,
    pub seq: i32,
}

/// The `seq` of each page.
pub open spec fn page_seqs(cards: Seq<UserCustomProfileCard>) -> Seq<i32> {
    cards.map_values(|card: UserCustomProfileCard| card.seq)
}

/// The zero-based `index`-th page in the order the game shows them; `None`
/// past the last page.
pub fn profile_page(cards: &[UserCustomProfileCard], index: usize) -> (page: Option<&UserCustomProfileCard>)
    ensures
        index >= cards@.len() ==> page is None,
        forall|order: Seq<usize>|
            #[trigger] is_page_order(page_seqs(cards@), order) && index < cards@.len() ==> page == Some(
                &cards@[order[index as int] as int],
            ),
{
    let mut seqs: Vec<i32> = Vec::new();
    let mut i: usize = 0;
    while i < cards.len()
        invariant
            i <= cards@.len(),
            seqs@ == page_seqs(cards@.take(i as int)),
        decreases cards.len() - i,
    {
        seqs.push(cards[i].seq);
        i = i + 1;
        assert(seqs@ =~= page_seqs(cards@.take(i as int)));
    }
    assert(cards@.take(cards@.len() as int) =~= cards@);
    let order = stable_order(seqs.as_slice());
    proof {
        assert forall|other: Seq<usize>| #[trigger] is_page_order(page_seqs(cards@), other) implies other
            == order@ by {
            law_page_order_is_unique(page_seqs(cards@), other, order@);
        }
    }
    if index < order.len() {
        let position = order[index];
        Some(&cards[position])
    } else {
        None
    }
}

/// A page order is unique: two orders of the same keys are the same.
pub proof fn law_page_order_is_unique(keys: Seq<i32>, a: Seq<usize>, b: Seq<usize>)
    requires
        is_page_order(keys, a),
        is_page_order(keys, b),
    ensures
        a == b,
{
    assert forall|i: int| 0 <= i < a.len() implies a[i] == b[i] by {
        lemma_rank(keys, a, i);
        lemma_rank(keys, b, i);
        let x = a[i] as int;
        let y = b[i] as int;
        if x != y {
            if shown_before(keys, x, y) {
                lemma_predecessors_grow(keys, x, y);
            } else {
                lemma_predecessors_grow(keys, y, x);
            }
        }
    }
    assert(a =~= b);
}

/// The pages shown before page `t`.
pub open spec fn predecessors(keys: Seq<i32>, t: int) -> Set<int> {
    Set::new(|x: int| 0 <= x < keys.len() && shown_before(keys, x, t))
}

proof fn lemma_predecessors_grow(keys: Seq<i32>, x: int, y: int)
    requires
        0 <= x < keys.len(),
        0 <= y < keys.len(),
        shown_before(keys, x, y),
    ensures
        predecessors(keys, x).len() < predecessors(keys, y).len(),
{
    let px = predecessors(keys, x);
    let py = predecessors(keys, y);
    let full = vstd::set_lib::set_int_range(0, keys.len() as int);
    vstd::set_lib::lemma_int_range(0, keys.len() as int);
    assert(px.subset_of(full));
    assert(py.subset_of(full));
    vstd::set_lib::lemma_len_subset(px, full);
    vstd::set_lib::lemma_len_subset(py, full);
    assert(px.insert(x).subset_of(py));
    vstd::set_lib::lemma_len_subset(px.insert(x), py);
    assert(!px.contains(x));
}

/// The page at position `i` of an order is the one with exactly `i` pages
/// shown before it.
proof fn lemma_rank(keys: Seq<i32>, order: Seq<usize>, i: int)
    requires
        is_page_order(keys, order),
        0 <= i < order.len(),
    ensures
        predecessors(keys, order[i] as int).len() == i,
        predecessors(keys, order[i] as int).finite(),
{
    let target = order[i] as int;
    let s = predecessors(keys, target);
    let mapped = order.take(i).map_values(|v: usize| v as int);
    let prefix = mapped.to_set();
    assert forall|x: int| s.contains(x) implies prefix.contains(x) by {
        lemma_order_covers(keys, order, x);
        let k = choose|k: int| 0 <= k < order.len() && order[k] as int == x;
        if k >= i {
            if k == i {
                assert(x == target);
            } else {
                assert(shown_before(keys, target, x));
            }
        }
        assert(mapped[k] == x);
    }
    assert forall|x: int| prefix.contains(x) implies s.contains(x) by {
        let k = choose|k: int| 0 <= k < mapped.len() && #[trigger] mapped[k] == x;
        assert(order[k] as int == x);
    }
    assert(s =~= prefix);
    lemma_distinct_prefix(keys, order, i);
}

proof fn lemma_order_covers(keys: Seq<i32>, order: Seq<usize>, x: int)
    requires
        is_page_order(keys, order),
        0 <= x < keys.len(),
    ensures
        exists|k: int| 0 <= k < order.len() && order[k] as int == x,
{
    let mapped = order.map_values(|v: usize| v as int);
    let img = mapped.to_set();
    let full = vstd::set_lib::set_int_range(0, keys.len() as int);
    assert forall|y: int| img.contains(y) implies full.contains(y) by {
        let k = choose|k: int| 0 <= k < mapped.len() && #[trigger] mapped[k] == y;
        assert(order[k] < keys.len());
    }
    lemma_distinct_prefix(keys, order, order.len() as int);
    assert(order.take(order.len() as int) =~= order);
    vstd::set_lib::lemma_int_range(0, keys.len() as int);
    if !img.contains(x) {
        assert(img.subset_of(full.remove(x)));
        vstd::set_lib::lemma_len_subset(img, full.remove(x));
        assert(false);
    }
    let k = choose|k: int| 0 <= k < mapped.len() && #[trigger] mapped[k] == x;
    assert(order[k] as int == x);
}

proof fn lemma_distinct_prefix(keys: Seq<i32>, order: Seq<usize>, i: int)
    requires
        is_page_order(keys, order),
        0 <= i <= order.len(),
    ensures
        order.take(i).map_values(|v: usize| v as int).to_set().len() == i,
        order.take(i).map_values(|v: usize| v as int).to_set().finite(),
{
    let m = order.take(i).map_values(|v: usize| v as int);
    assert(m.no_duplicates()) by {
        assert forall|a: int, b: int| 0 <= a < m.len() && 0 <= b < m.len() && a != b implies m[a] != m[b] by {
            if a < b {
                assert(shown_before(keys, order[a] as int, order[b] as int));
            } else {
                assert(shown_before(keys, order[b] as int, order[a] as int));
            }
        }
    }
    m.unique_seq_to_set();
    vstd::seq_lib::seq_to_set_is_finite(m);
}

} // verus!
