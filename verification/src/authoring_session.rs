//! Identities, categories and change records of custom-profile editing, and
//! the rules for handing out element IDs and undoing changes.

use vstd::prelude::*;

use crate::authoring_document::{
    card_element_count, card_item_pushed, card_takes_item, card_array, elements_from, is_card_array, lemma_elements_from_nonnegative, lemma_same_card_takes, reported_count,
    MAX_ELEMENTS_PER_PAGE, MAX_PAGES, cards_error, cards_key, count_text, identity_cleared, is_blank_page, numbered_page, law_exports_import_again, lemma_card_edit_keeps_page, lemma_first_page_error_none,
    lemma_page_replaced_keeps, lemma_same_pages_error, numbered_pages, push_count, GameProfileDocument,
    GameProfileDocumentError,
};
use crate::json::{
    edit_member, edits, edits_in_turn, holds_item, items_of, lemma_edits_index_step, lemma_edits_keep_reach,
    lemma_edits_key_step, lemma_holds_item_key, lemma_member_index, lemma_reaches_index, lemma_reaches_key,
    lemma_removes_index_step, lemma_removes_key_step, lemma_same_items_of, lemma_same_keys_same_index,
    lemma_same_member, member, member_index, member_items, reaches, reaches_object, remove_item, removes, same,
    find_member, lemma_set_member_value, set_member, sets_member, JsonNumber, JsonValue, PathStep,
};
use crate::text::{decimal_digits, digits_of, push_chars};
use vstd::string::StringExecFns;

verus! {

broadcast use vstd::string::group_string_axioms;

/// Most undoable commands a session keeps.
pub const AUTHORING_HISTORY_LIMIT: usize = 150;

/// Schema tag of a session checkpoint.
pub const AUTHORING_CHECKPOINT_SCHEMA: &'static str = "allium.renderer-authoring-checkpoint/v1";

/// Stable identity of one element while a document is edited.
#[derive(Clone, Copy, Debug, Eq, Hash, Ord, PartialEq, PartialOrd, Structural)]
pub struct AuthoringElementId(pub u32);

/// The element arrays of a page.
#[derive(Clone, Copy, Debug, Eq, Hash, Ord, PartialEq, PartialOrd, Structural)]
pub enum AuthoringCategory {
    BondsHonors,
    CardMembers,
    CharacterIcons,
    Collections,
    GeneralBackgrounds,
    Generals,
    Honors,
    Materials,
    Others,
    Shapes,
    Stamps,
    StandMembers,
    StoryBackgrounds,
    Texts,
    UserInterfaceIcons,
}

/// The key of a category's array in a page.
pub open spec fn category_key(c: AuthoringCategory) -> Seq<char> {
    match c {
        AuthoringCategory::BondsHonors => "bondsHonors"@,
        AuthoringCategory::CardMembers => "cardMembers"@,
        AuthoringCategory::CharacterIcons => "characterIcons"@,
        AuthoringCategory::Collections => "collections"@,
        AuthoringCategory::GeneralBackgrounds => "generalBackgrounds"@,
        AuthoringCategory::Generals => "generals"@,
        AuthoringCategory::Honors => "honors"@,
        AuthoringCategory::Materials => "materials"@,
        AuthoringCategory::Others => "others"@,
        AuthoringCategory::Shapes => "shapes"@,
        AuthoringCategory::Stamps => "stamps"@,
        AuthoringCategory::StandMembers => "standMembers"@,
        AuthoringCategory::StoryBackgrounds => "storyBackgrounds"@,
        AuthoringCategory::Texts => "texts"@,
        AuthoringCategory::UserInterfaceIcons => "userInterfaceIcons"@,
    }
}

/// Every category, in the order pages list their arrays.
pub open spec fn all_categories() -> Seq<AuthoringCategory> {
    seq![
        AuthoringCategory::BondsHonors,
        AuthoringCategory::CardMembers,
        AuthoringCategory::CharacterIcons,
        AuthoringCategory::Collections,
        AuthoringCategory::GeneralBackgrounds,
        AuthoringCategory::Generals,
        AuthoringCategory::Honors,
        AuthoringCategory::Materials,
        AuthoringCategory::Others,
        AuthoringCategory::Shapes,
        AuthoringCategory::Stamps,
        AuthoringCategory::StandMembers,
        AuthoringCategory::StoryBackgrounds,
        AuthoringCategory::Texts,
        AuthoringCategory::UserInterfaceIcons,
    ]
}

impl AuthoringCategory {
    /// Every category, in the order pages list their arrays.
    pub fn all() -> (r: [AuthoringCategory; 15])
        ensures
            r@ == all_categories(),
    {
        let r = [
            AuthoringCategory::BondsHonors,
            AuthoringCategory::CardMembers,
            AuthoringCategory::CharacterIcons,
            AuthoringCategory::Collections,
            AuthoringCategory::GeneralBackgrounds,
            AuthoringCategory::Generals,
            AuthoringCategory::Honors,
            AuthoringCategory::Materials,
            AuthoringCategory::Others,
            AuthoringCategory::Shapes,
            AuthoringCategory::Stamps,
            AuthoringCategory::StandMembers,
            AuthoringCategory::StoryBackgrounds,
            AuthoringCategory::Texts,
            AuthoringCategory::UserInterfaceIcons,
        ];
        assert(r@ =~= all_categories());
        r
    }

    /// The key of this category's array in a page.
    pub fn key(self) -> (r: &'static str)
        ensures
            r@ == category_key(self),
    {
        match self {
            AuthoringCategory::BondsHonors => "bondsHonors",
            AuthoringCategory::CardMembers => "cardMembers",
            AuthoringCategory::CharacterIcons => "characterIcons",
            AuthoringCategory::Collections => "collections",
            AuthoringCategory::GeneralBackgrounds => "generalBackgrounds",
            AuthoringCategory::Generals => "generals",
            AuthoringCategory::Honors => "honors",
            AuthoringCategory::Materials => "materials",
            AuthoringCategory::Others => "others",
            AuthoringCategory::Shapes => "shapes",
            AuthoringCategory::Stamps => "stamps",
            AuthoringCategory::StandMembers => "standMembers",
            AuthoringCategory::StoryBackgrounds => "storyBackgrounds",
            AuthoringCategory::Texts => "texts",
            AuthoringCategory::UserInterfaceIcons => "userInterfaceIcons",
        }
    }
}

/// What a command did to one element.
#[derive(Clone, Copy, Debug, Eq, PartialEq, Structural)]
pub enum AuthoringChangeKind {
    Inserted,
    Updated,
    Removed,
}

/// The change that undoes one of `kind`: an insertion is undone by a removal
/// and the other way round; an update by an update.
pub open spec fn reversed_kind(kind: AuthoringChangeKind) -> AuthoringChangeKind {
    match kind {
        AuthoringChangeKind::Inserted => AuthoringChangeKind::Removed,
        AuthoringChangeKind::Updated => AuthoringChangeKind::Updated,
        AuthoringChangeKind::Removed => AuthoringChangeKind::Inserted,
    }
}

/// The change kind that undoes one of `kind`.
pub fn reverse_change_kind(kind: AuthoringChangeKind) -> (r: AuthoringChangeKind)
    ensures
        r == reversed_kind(kind),
{
    match kind {
        AuthoringChangeKind::Inserted => AuthoringChangeKind::Removed,
        AuthoringChangeKind::Updated => AuthoringChangeKind::Updated,
        AuthoringChangeKind::Removed => AuthoringChangeKind::Inserted,
    }
}

/// What a command did to a page.
#[derive(Clone, Copy, Debug, Eq, PartialEq, Structural)]
pub enum AuthoringPageChangeKind {
    Inserted,
    Removed,
    Moved,
}

/// One page a command inserted, removed or moved.
#[derive(Clone, Copy, Debug, Eq, PartialEq, Structural)]
pub struct AuthoringPageChange {
    pub kind: AuthoringPageChangeKind,
    pub page: usize,
    pub from_page: Option<usize>,
}

/// The `count` IDs a session with `next_id` hands out, and its next ID after
/// them; `None` when they do not all fit below `u32::MAX`.
pub open spec fn allocation(next_id: u32, count: usize) -> Option<(Seq<AuthoringElementId>, u32)> {
    if next_id + count > u32::MAX {
        None
    } else {
        Some((Seq::new(count as nat, |i: int| AuthoringElementId((next_id + i) as u32)), (next_id + count) as u32))
    }
}

/// Hands out `count` consecutive IDs from `next_id`, or none when they do
/// not all fit. The next ID stays above every issued ID, so `u32::MAX` is
/// never issued.
pub fn allocate_ids(next_id: u32, count: usize) -> (r: Option<(Vec<AuthoringElementId>, u32)>)
    ensures
        match r {
            Some((ids, next)) => allocation(next_id, count) == Some((ids@, next)),
            None => allocation(next_id, count) is None,
        },
{
    if count > (u32::MAX - next_id) as usize {
        return None;
    }
    let end: u32 = next_id + count as u32;
    let mut ids: Vec<AuthoringElementId> = Vec::new();
    let mut id = next_id;
    while id < end
        invariant
            next_id <= id <= end,
            end == next_id + count,
            ids@ =~= Seq::new((id - next_id) as nat, |i: int| AuthoringElementId((next_id + i) as u32)),
        decreases end - id,
    {
        ids.push(AuthoringElementId(id));
        id = id + 1;
    }
    proof {
        assert(ids@ =~= Seq::new(count as nat, |i: int| AuthoringElementId((next_id + i) as u32)));
    }
    Some((ids, end))
}

/// Why an editing command was refused.
#[derive(Debug)]
pub enum AuthoringError {
    Document(GameProfileDocumentError),
    PageNotFound(usize),
    ElementNotFound(AuthoringElementId),
    ElementMustBeObject,
    InvalidObjectData,
    NonFiniteTransform,
    ObjectDataParameterForbidden,
    ElementLimitReached { page: usize, max: usize },
    PageLimitReached { max: usize },
    ElementIdsExhausted,
    InvalidLayer { page: usize, layer: usize, count: usize },
    GestureAlreadyActive,
    GestureNotActive,
    GestureElementMismatch,
    GestureInProgress,
    FinalPageCannotBeDeleted,
    PageDestinationNotFound(usize),
    CheckpointGestureInProgress,
    InvalidCheckpoint(String),
}

impl AuthoringError {
    /// The message this error reads as.
    pub open spec fn message_spec(&self) -> Seq<char> {
        match self {
            AuthoringError::Document(e) => e.message_spec(),
            AuthoringError::PageNotFound(p) => "page "@ + count_text(*p) + " does not exist"@,
            AuthoringError::ElementNotFound(id) => "element AuthoringElementId("@ + decimal_digits(id.0 as nat)
                + ") does not exist"@,
            AuthoringError::ElementMustBeObject => "element must be a JSON object"@,
            AuthoringError::InvalidObjectData => "element objectData is missing or invalid"@,
            AuthoringError::NonFiniteTransform => "transform contains a non-finite number"@,
            AuthoringError::ObjectDataParameterForbidden => "objectData cannot be changed through SetParameters"@,
            AuthoringError::ElementLimitReached { page, max } => "page "@ + count_text(*page)
                + " already contains the maximum of "@ + count_text(*max) + " elements"@,
            AuthoringError::PageLimitReached { max } => "the custom profile already contains the maximum of "@
                + count_text(*max) + " pages"@,
            AuthoringError::ElementIdsExhausted => "authoring element IDs are exhausted"@,
            AuthoringError::InvalidLayer { page, layer, count } => "layer "@ + count_text(*layer)
                + " is outside page "@ + count_text(*page) + " element range 0.."@ + count_text(*count),
            AuthoringError::GestureAlreadyActive => "an authoring gesture is already active"@,
            AuthoringError::GestureNotActive => "no authoring gesture is active"@,
            AuthoringError::GestureElementMismatch => "gesture command targets a different element"@,
            AuthoringError::GestureInProgress => "document commands are unavailable while an authoring gesture is active"@,
            AuthoringError::FinalPageCannotBeDeleted => "the final custom-profile page cannot be deleted"@,
            AuthoringError::PageDestinationNotFound(p) => "page destination "@ + count_text(*p) + " does not exist"@,
            AuthoringError::CheckpointGestureInProgress => "an active authoring gesture cannot be checkpointed"@,
            AuthoringError::InvalidCheckpoint(why) => "invalid authoring checkpoint: "@ + why@,
        }
    }

    /// The message this error reads as.
    pub fn message(&self) -> (m: String)
        ensures
            m@ == self.message_spec(),
    {
        match self {
            AuthoringError::Document(e) => e.message(),
            AuthoringError::PageNotFound(p) => {
                let mut m = String::from_str("page ");
                push_count(&mut m, *p);
                m.append(" does not exist");
                m
            },
            AuthoringError::ElementNotFound(id) => {
                let mut m = String::from_str("element AuthoringElementId(");
                let digits = digits_of(id.0 as u64);
                push_chars(&mut m, digits.as_slice());
                m.append(") does not exist");
                m
            },
            AuthoringError::ElementMustBeObject => String::from_str("element must be a JSON object"),
            AuthoringError::InvalidObjectData => String::from_str("element objectData is missing or invalid"),
            AuthoringError::NonFiniteTransform => String::from_str("transform contains a non-finite number"),
            AuthoringError::ObjectDataParameterForbidden => String::from_str(
                "objectData cannot be changed through SetParameters",
            ),
            AuthoringError::ElementLimitReached { page, max } => {
                let mut m = String::from_str("page ");
                push_count(&mut m, *page);
                m.append(" already contains the maximum of ");
                push_count(&mut m, *max);
                m.append(" elements");
                m
            },
            AuthoringError::PageLimitReached { max } => {
                let mut m = String::from_str("the custom profile already contains the maximum of ");
                push_count(&mut m, *max);
                m.append(" pages");
                m
            },
            AuthoringError::ElementIdsExhausted => String::from_str("authoring element IDs are exhausted"),
            AuthoringError::InvalidLayer { page, layer, count } => {
                let mut m = String::from_str("layer ");
                push_count(&mut m, *layer);
                m.append(" is outside page ");
                push_count(&mut m, *page);
                m.append(" element range 0..");
                push_count(&mut m, *count);
                m
            },
            AuthoringError::GestureAlreadyActive => String::from_str("an authoring gesture is already active"),
            AuthoringError::GestureNotActive => String::from_str("no authoring gesture is active"),
            AuthoringError::GestureElementMismatch => String::from_str("gesture command targets a different element"),
            AuthoringError::GestureInProgress => String::from_str(
                "document commands are unavailable while an authoring gesture is active",
            ),
            AuthoringError::FinalPageCannotBeDeleted => String::from_str(
                "the final custom-profile page cannot be deleted",
            ),
            AuthoringError::PageDestinationNotFound(p) => {
                let mut m = String::from_str("page destination ");
                push_count(&mut m, *p);
                m.append(" does not exist");
                m
            },
            AuthoringError::CheckpointGestureInProgress => String::from_str(
                "an active authoring gesture cannot be checkpointed",
            ),
            AuthoringError::InvalidCheckpoint(why) => {
                let mut m = String::from_str("invalid authoring checkpoint: ");
                m.append(why.as_str());
                m
            },
        }
    }
}

impl From<GameProfileDocumentError> for AuthoringError {
    fn from(error: GameProfileDocumentError) -> (r: Self) {
        AuthoringError::Document(error)
    }
}

impl vstd::std_specs::convert::FromSpecImpl<GameProfileDocumentError> for AuthoringError {
    open spec fn obeys_from_spec() -> bool {
        true
    }

    open spec fn from_spec(error: GameProfileDocumentError) -> Self {
        AuthoringError::Document(error)
    }
}

/// Reversing a change kind twice gives back the kind it started as.
pub proof fn law_reversing_twice_restores_the_kind(kind: AuthoringChangeKind)
    ensures
        reversed_kind(reversed_kind(kind)) == kind,
{
}

/// Allocated IDs are consecutive, start at the old next ID and stay below
/// the new one, so no ID is handed out twice.
pub proof fn law_allocated_ids_are_fresh(next_id: u32, count: usize)
    ensures
        allocation(next_id, count) matches Some((ids, next)) ==> {
            &&& next == next_id + count
            &&& forall|i: int| 0 <= i < ids.len() ==> next_id <= (#[trigger] ids[i]).0 < next
            &&& forall|i: int, j: int| 0 <= i < j < ids.len() ==> ids[i].0 < ids[j].0
        },
{
}


/// The elements of category `c` on a page; none where the page lists no
/// array for it.
pub open spec fn page_elements(page: JsonValue, c: AuthoringCategory) -> Seq<JsonValue> {
    match member(page, "customProfileCard"@) {
        Some(card) => match member_items(card, category_key(c)) {
            Some(items) => items,
            None => Seq::empty(),
        },
        None => Seq::empty(),
    }
}

fn category_elements(page: &JsonValue, c: AuthoringCategory) -> (r: Option<&Vec<JsonValue>>)
    ensures
        match r {
            Some(v) => v@ == page_elements(*page, c),
            None => page_elements(*page, c) == Seq::<JsonValue>::empty(),
        },
{
    match page.get("customProfileCard") {
        Some(card) => match card.get(c.key()) {
            Some(v) => v.as_array(),
            None => None,
        },
        None => None,
    }
}

/// The number of elements of the first `k` categories of a page.
pub open spec fn page_total(page: JsonValue, k: int) -> int
    decreases k,
{
    if k <= 0 {
        0
    } else {
        page_total(page, k - 1) + page_elements(page, all_categories()[k - 1]).len()
    }
}

/// The number of elements of the first `p` pages.
pub open spec fn pages_total(pages: Seq<JsonValue>, p: int) -> int
    decreases p,
{
    if p <= 0 {
        0
    } else {
        pages_total(pages, p - 1) + page_total(pages[p - 1], 15)
    }
}

/// The IDs of a session's pages: per page, per category, per element.
pub open spec fn id_table(ids: Vec<Vec<Vec<AuthoringElementId>>>) -> Seq<Seq<Seq<AuthoringElementId>>> {
    ids@.map_values(|page: Vec<Vec<AuthoringElementId>>| page@.map_values(|cell: Vec<AuthoringElementId>| cell@))
}

/// The IDs of one page's categories, in category order.
pub open spec fn flat_page(row: Seq<Seq<AuthoringElementId>>) -> Seq<AuthoringElementId>
    decreases row.len(),
{
    if row.len() == 0 {
        Seq::empty()
    } else {
        flat_page(row.drop_last()) + row.last()
    }
}

/// The IDs of all pages, page by page.
pub open spec fn flat_ids(table: Seq<Seq<Seq<AuthoringElementId>>>) -> Seq<AuthoringElementId>
    decreases table.len(),
{
    if table.len() == 0 {
        Seq::empty()
    } else {
        flat_ids(table.drop_last()) + flat_page(table.last())
    }
}

/// IDs numbered from `first` on.
pub open spec fn numbered_from(first: int, n: int) -> Seq<AuthoringElementId> {
    Seq::new(n as nat, |i: int| AuthoringElementId((first + i) as u32))
}

/// `table` gives each element of `pages` an ID: one row of 15 categories per
/// page, one ID per element of the category.
pub open spec fn table_fits(table: Seq<Seq<Seq<AuthoringElementId>>>, pages: Seq<JsonValue>) -> bool {
    &&& table.len() == pages.len()
    &&& forall|p: int|
        0 <= p < table.len() ==> {
            &&& (#[trigger] table[p]).len() == 15
            &&& forall|k: int|
                0 <= k < 15 ==> (#[trigger] table[p][k]).len() == page_elements(pages[p], all_categories()[k]).len()
        }
}

/// Where element `id` stands: page `p`, category index `k`, position `i`.
pub open spec fn located(table: Seq<Seq<Seq<AuthoringElementId>>>, id: AuthoringElementId, p: int, k: int, i: int) -> bool {
    &&& 0 <= p < table.len()
    &&& 0 <= k < table[p].len()
    &&& 0 <= i < table[p][k].len()
    &&& table[p][k][i] == id
}

/// `c` carries the element it names as it stands in `s`: a copy of it where
/// the ID stands in the document, none where it stands nowhere (a removed
/// element).
pub open spec fn carries_element(s: AuthoringSession, c: AuthoringElementChange) -> bool {
    match c.element {
        Some(e) => exists|p: int, k: int, i: int|
            {
                &&& located(s.state().ids, c.id, p, k, i)
                &&& #[trigger] stands(s.pages_spec(), p, k, i)
                &&& same(e, page_elements(s.pages_spec()[p], all_categories()[k])[i])
            },
        None => forall|p: int, k: int, i: int|
            located(s.state().ids, c.id, p, k, i) ==> !#[trigger] stands(s.pages_spec(), p, k, i),
    }
}

/// Every change of `changes` carries its element as it stands in `s`.
pub open spec fn all_carry_elements(s: AuthoringSession, changes: Seq<AuthoringElementChange>) -> bool {
    forall|j: int| 0 <= j < changes.len() ==> carries_element(s, #[trigger] changes[j])
}

proof fn lemma_carry_transfer(a: AuthoringSession, b: AuthoringSession, changes: Seq<AuthoringElementChange>)
    requires
        all_carry_elements(a, changes),
        a.state().ids == b.state().ids,
        a.pages_spec() == b.pages_spec(),
    ensures
        all_carry_elements(b, changes),
{
    assert forall|j: int| 0 <= j < changes.len() implies carries_element(b, #[trigger] changes[j]) by {
        assert(carries_element(a, changes[j]));
    }
}

/// What a change record holds once its element is left out.
pub open spec fn change_fields(c: AuthoringElementChange) -> (AuthoringElementId, usize, AuthoringCategory, AuthoringChangeKind) {
    (c.id, c.page, c.category, c.kind)
}

/// What a command did to one element, with the element as it stands after
/// the change; a removed element carries none.
#[derive(Debug, PartialEq)]
pub struct AuthoringElementChange {
    pub id: AuthoringElementId,
    pub page: usize,
    pub category: AuthoringCategory,
    pub kind: AuthoringChangeKind,
    pub element: Option<JsonValue>,
}

/// What a session reports after an operation.
#[derive(Debug, PartialEq)]
pub struct AuthoringDelta {
    pub revision: u64,
    pub changes: Vec<AuthoringElementChange>,
    pub can_undo: bool,
    pub can_redo: bool,
    pub selected_id: Option<AuthoringElementId>,
    pub page_changes: Vec<AuthoringPageChange>,
}

/// A command on one element.
#[derive(Debug, PartialEq)]
pub enum AuthoringCommand {
    SetLock { id: AuthoringElementId, lock: bool },
    SetVisible { id: AuthoringElementId, visible: bool },
    SetParameters { id: AuthoringElementId, values: Vec<(String, JsonValue)> },
    Delete { id: AuthoringElementId },
    ChangeLayer { id: AuthoringElementId, layer: usize },
    Create { page: usize, category: AuthoringCategory, element: JsonValue },
}

/// The state a history entry brings back, and the changes it reports.
struct HistoryEntry {
    document: GameProfileDocument,
    ids: Vec<Vec<Vec<AuthoringElementId>>>,
    selected_id: Option<AuthoringElementId>,
    forward: Vec<AuthoringElementChange>,
    reverse: Vec<AuthoringElementChange>,
    page_forward: Vec<AuthoringPageChange>,
    page_reverse: Vec<AuthoringPageChange>,
}

/// A session's document, IDs and selection, as a history entry holds them.
pub struct SessionState {
    pub document: JsonValue,
    pub ids: Seq<Seq<Seq<AuthoringElementId>>>,
    pub selected_id: Option<AuthoringElementId>,
}

/// What a history entry reports when it is redone (`forward`) and when it
/// is undone (`reverse`): its element changes, left without the elements,
/// and its page changes.
pub struct HistoryReport {
    pub forward: Seq<(AuthoringElementId, usize, AuthoringCategory, AuthoringChangeKind)>,
    pub reverse: Seq<(AuthoringElementId, usize, AuthoringCategory, AuthoringChangeKind)>,
    pub page_forward: Seq<AuthoringPageChange>,
    pub page_reverse: Seq<AuthoringPageChange>,
}

/// The element changes of a list, left without the elements.
pub open spec fn fields_of(changes: Seq<AuthoringElementChange>) -> Seq<
    (AuthoringElementId, usize, AuthoringCategory, AuthoringChangeKind),
> {
    changes.map_values(|c: AuthoringElementChange| change_fields(c))
}

/// Element changes with insertions and removals swapped.
pub open spec fn reversed_fields(
    f: Seq<(AuthoringElementId, usize, AuthoringCategory, AuthoringChangeKind)>,
) -> Seq<(AuthoringElementId, usize, AuthoringCategory, AuthoringChangeKind)> {
    f.map_values(
        |t: (AuthoringElementId, usize, AuthoringCategory, AuthoringChangeKind)| (t.0, t.1, t.2, reversed_kind(t.3)),
    )
}

/// What a change reported as `delta` records for undo and redo.
pub open spec fn change_report(delta: AuthoringDelta) -> HistoryReport {
    HistoryReport {
        forward: fields_of(delta.changes@),
        reverse: reversed_fields(fields_of(delta.changes@)),
        page_forward: Seq::empty(),
        page_reverse: Seq::empty(),
    }
}

/// The reports kept after `entry` is recorded: at most
/// [`AUTHORING_HISTORY_LIMIT`], the oldest dropped first.
pub open spec fn recorded_reports(history: Seq<HistoryReport>, entry: HistoryReport) -> Seq<HistoryReport> {
    let grown = history.push(entry);
    if grown.len() > AUTHORING_HISTORY_LIMIT {
        grown.drop_first()
    } else {
        grown
    }
}

/// What an entry reports.
spec fn entry_report(e: HistoryEntry) -> HistoryReport {
    HistoryReport {
        forward: fields_of(e.forward@),
        reverse: fields_of(e.reverse@),
        page_forward: e.page_forward@,
        page_reverse: e.page_reverse@,
    }
}

/// The state an entry holds.
spec fn entry_state(e: HistoryEntry) -> SessionState {
    SessionState { document: e.document.value(), ids: id_table(e.ids), selected_id: e.selected_id }
}

/// An editing session over a custom-profile document: stable element IDs,
/// a selection, and bounded undo and redo.
pub struct AuthoringSession {
    document: GameProfileDocument,
    ids: Vec<Vec<Vec<AuthoringElementId>>>,
    next_id: u32,
    revision: u64,
    undo: Vec<HistoryEntry>,
    redo: Vec<HistoryEntry>,
    selected_id: Option<AuthoringElementId>,
    gesture: Option<(AuthoringElementId, Option<AuthoringElementId>)>,
    gesture_before: Option<GameProfileDocument>,
}

impl AuthoringSession {
    /// The document, IDs and selection.
    pub closed spec fn state(&self) -> SessionState {
        SessionState { document: self.document.value(), ids: id_table(self.ids), selected_id: self.selected_id }
    }

    /// The pages of the document.
    pub closed spec fn pages_spec(&self) -> Seq<JsonValue> {
        self.document.pages_spec()
    }

    /// The revision count.
    pub closed spec fn revision_spec(&self) -> u64 {
        self.revision
    }

    /// The next ID the session hands out.
    pub closed spec fn next_id_spec(&self) -> u32 {
        self.next_id
    }

    /// The states undo brings back, oldest first.
    pub closed spec fn undo_states(&self) -> Seq<SessionState> {
        self.undo@.map_values(|e: HistoryEntry| entry_state(e))
    }

    /// The states redo brings back, the next one last.
    pub closed spec fn redo_states(&self) -> Seq<SessionState> {
        self.redo@.map_values(|e: HistoryEntry| entry_state(e))
    }

    /// What the entries undo brings back report, oldest first.
    pub closed spec fn undo_reports(&self) -> Seq<HistoryReport> {
        self.undo@.map_values(|e: HistoryEntry| entry_report(e))
    }

    /// What the entries redo brings back report, the next one last.
    pub closed spec fn redo_reports(&self) -> Seq<HistoryReport> {
        self.redo@.map_values(|e: HistoryEntry| entry_report(e))
    }

    /// The element a gesture is editing, if one is active.
    pub closed spec fn gesture_spec(&self) -> Option<AuthoringElementId> {
        match self.gesture {
            Some((id, _)) => Some(id),
            None => None,
        }
    }

    /// The document a gesture found before its first preview, once a
    /// preview changed it.
    pub closed spec fn gesture_document(&self) -> Option<JsonValue> {
        match self.gesture_before {
            Some(d) => Some(d.value()),
            None => None,
        }
    }

    /// The selection a gesture found when it began.
    pub closed spec fn gesture_selection(&self) -> Option<AuthoringElementId> {
        match self.gesture {
            Some((_, selected)) => selected,
            None => None,
        }
    }

    /// A session over `document`, numbering its elements from 1 page by page
    /// and, within a page, category by category.
    pub fn new(document: GameProfileDocument) -> (s: Self)
        requires
            pages_total(document.pages_spec(), document.pages_spec().len() as int) < u32::MAX,
        ensures
            s.state().document == document.value(),
            s.pages_spec() == document.pages_spec(),
            table_fits(s.state().ids, document.pages_spec()),
            flat_ids(s.state().ids) == numbered_from(
                1,
                pages_total(document.pages_spec(), document.pages_spec().len() as int),
            ),
            s.next_id_spec() == pages_total(document.pages_spec(), document.pages_spec().len() as int) + 1,
            s.revision_spec() == 0,
            s.undo_states().len() == 0,
            s.redo_states().len() == 0,
            s.state().selected_id is None,
            s.gesture_spec() is None,
    {
        let cats = AuthoringCategory::all();
        let pages = document.pages();
        let ghost all_pages = pages@;
        let ghost n = pages_total(all_pages, all_pages.len() as int);
        proof {
            lemma_pages_total_monotone(all_pages, all_pages.len() as int);
        }
        let mut ids: Vec<Vec<Vec<AuthoringElementId>>> = Vec::new();
        let mut next_id: u32 = 1;
        let mut p: usize = 0;
        while p < pages.len()
            invariant
                cats@ == all_categories(),
                pages@ == all_pages,
                n == pages_total(all_pages, all_pages.len() as int),
                n < u32::MAX,
                forall|q: int| 0 <= q <= all_pages.len() ==> 0 <= #[trigger] pages_total(all_pages, q) <= n,
                p <= all_pages.len(),
                ids@.len() == p,
                forall|q: int|
                    0 <= q < p ==> {
                        &&& (#[trigger] id_table(ids)[q]).len() == 15
                        &&& forall|k: int|
                            0 <= k < 15 ==> (#[trigger] id_table(ids)[q][k]).len() == page_elements(
                                all_pages[q],
                                all_categories()[k],
                            ).len()
                    },
                flat_ids(id_table(ids)) == numbered_from(1, pages_total(all_pages, p as int)),
                next_id == pages_total(all_pages, p as int) + 1,
            decreases pages.len() - p,
        {
            let page = &pages[p];
            let mut row: Vec<Vec<AuthoringElementId>> = Vec::new();
            let mut k: usize = 0;
            proof {
                lemma_page_total_bounds(*page, 15);
                assert(pages_total(all_pages, p + 1) == pages_total(all_pages, p as int) + page_total(*page, 15));
            }
            while k < 15
                invariant
                    cats@ == all_categories(),
                    page == &all_pages[p as int],
                    k <= 15,
                    row@.len() == k,
                    forall|t: int|
                        0 <= t < k ==> (#[trigger] row@[t])@.len() == page_elements(*page, all_categories()[t]).len(),
                    flat_page(row@.map_values(|cell: Vec<AuthoringElementId>| cell@)) == numbered_from(
                        pages_total(all_pages, p as int) + 1,
                        page_total(*page, k as int),
                    ),
                    next_id == pages_total(all_pages, p as int) + page_total(*page, k as int) + 1,
                    forall|t: int| 0 <= t <= 15 ==> 0 <= #[trigger] page_total(*page, t) <= page_total(*page, 15),
                    pages_total(all_pages, p as int) + page_total(*page, 15) <= n,
                    n < u32::MAX,
                decreases 15 - k,
            {
                let count = match category_elements(page, cats[k]) {
                    Some(v) => v.len(),
                    None => 0,
                };
                let ghost start = next_id as int;
                let mut cell: Vec<AuthoringElementId> = Vec::new();
                let mut j: usize = 0;
                assert(page_total(*page, k + 1) == page_total(*page, k as int) + count);
                while j < count
                    invariant
                        j <= count,
                        cell@ == numbered_from(start, j as int),
                        next_id == start + j,
                        start + count <= n + 1,
                        n < u32::MAX,
                    decreases count - j,
                {
                    cell.push(AuthoringElementId(next_id));
                    next_id = next_id + 1;
                    j = j + 1;
                    assert(cell@ =~= numbered_from(start, j as int));
                }
                let ghost before = row@.map_values(|c: Vec<AuthoringElementId>| c@);
                row.push(cell);
                k = k + 1;
                proof {
                    let after = row@.map_values(|c: Vec<AuthoringElementId>| c@);
                    assert(after.drop_last() =~= before);
                    assert(flat_page(after) =~= numbered_from(
                        pages_total(all_pages, p as int) + 1,
                        page_total(*page, k as int),
                    ));
                }
            }
            let ghost before = id_table(ids);
            ids.push(row);
            p = p + 1;
            proof {
                let after = id_table(ids);
                assert(after.drop_last() =~= before);
                assert(after.last() == row@.map_values(|c: Vec<AuthoringElementId>| c@));
                assert(flat_ids(after) =~= numbered_from(1, pages_total(all_pages, p as int)));
                assert forall|q: int| 0 <= q < p implies {
                    &&& (#[trigger] id_table(ids)[q]).len() == 15
                    &&& forall|k: int|
                        0 <= k < 15 ==> (#[trigger] id_table(ids)[q][k]).len() == page_elements(
                            all_pages[q],
                            all_categories()[k],
                        ).len()
                } by {
                    if q < p - 1 {
                        assert(id_table(ids)[q] == before[q]);
                    }
                }
            }
        }
        AuthoringSession {
            document,
            ids,
            next_id,
            revision: 0,
            undo: Vec::new(),
            redo: Vec::new(),
            selected_id: None,
            gesture: None,
            gesture_before: None,
        }
    }
}


/// `path` leads to element `i` of category `k` on page `p` of an exported
/// profile.
pub open spec fn element_path(path: Seq<PathStep>, p: int, k: int, i: int) -> bool {
    &&& path.len() == 5
    &&& path[0] matches PathStep::Key(a) && a@ == cards_key()
    &&& path[1] == PathStep::Index(p as usize)
    &&& path[2] matches PathStep::Key(b) && b@ == "customProfileCard"@
    &&& path[3] matches PathStep::Key(c) && c@ == category_key(all_categories()[k])
    &&& path[4] == PathStep::Index(i as usize)
}

/// `path` leads to the `objectData` of element `i` of category `k` on page
/// `p` of an exported profile.
pub open spec fn object_data_path(path: Seq<PathStep>, p: int, k: int, i: int) -> bool {
    &&& path.len() == 6
    &&& element_path(path.take(5), p, k, i)
    &&& path[5] matches PathStep::Key(d) && d@ == "objectData"@
}

/// The element a command targets.
pub open spec fn command_id(command: AuthoringCommand) -> AuthoringElementId {
    match command {
        AuthoringCommand::SetLock { id, .. } => id,
        AuthoringCommand::SetVisible { id, .. } => id,
        AuthoringCommand::SetParameters { id, .. } => id,
        AuthoringCommand::Delete { id } => id,
        AuthoringCommand::ChangeLayer { id, .. } => id,
        AuthoringCommand::Create { .. } => AuthoringElementId(0),
    }
}

/// Whether parameters name `objectData`.
pub open spec fn sets_object_data(values: Seq<(String, JsonValue)>) -> bool {
    exists|j: int| 0 <= j < values.len() && (#[trigger] values[j]).0@ == "objectData"@
}

/// `edited` is `copy` with `command` done to element `(p, k, i)`: its
/// `objectData` flag set, or its parameters set one after another.
pub open spec fn command_effect(command: AuthoringCommand, copy: JsonValue, p: int, k: int, i: int, edited: JsonValue) -> bool {
    match command {
        AuthoringCommand::SetLock { lock, .. } => exists|path: Seq<PathStep>|
            object_data_path(path, p, k, i) && #[trigger] edits(copy, path, "lock"@, JsonValue::Bool(lock), edited),
        AuthoringCommand::SetVisible { visible, .. } => exists|path: Seq<PathStep>|
            object_data_path(path, p, k, i) && #[trigger] edits(copy, path, "visible"@, JsonValue::Bool(visible), edited),
        AuthoringCommand::SetParameters { values, .. } => exists|path: Seq<PathStep>, mids: Seq<JsonValue>|
            {
                &&& element_path(path, p, k, i)
                &&& reaches(copy, path)
                &&& #[trigger] edits_in_turn(copy, path, values@, mids)
                &&& mids.last() == edited
            },
        AuthoringCommand::Delete { .. } => false,
        AuthoringCommand::Create { .. } => false,
        AuthoringCommand::ChangeLayer { layer, .. } => exists|mids: Seq<JsonValue>|
            {
                &&& p < exported_pages(copy).len()
                &&& #[trigger] layer_chain(copy, p, change_layer_plan(exported_pages(copy)[p], k, i, layer as int), mids)
                &&& mids.last() == edited
            },
    }
}

/// The layer an element at `current` moves to when the element at `old`
/// moves to `layer`: the ones between close up behind it.
pub open spec fn moved_layer(current: int, old: int, layer: int) -> int {
    if old < layer && current > old && current <= layer {
        current - 1
    } else if layer < old && current >= layer && current < old {
        current + 1
    } else {
        current
    }
}

/// The layers a page's elements are given when element `(k, i)` moves to
/// `layer`: every element in slot order, then the moved one.
pub open spec fn change_layer_plan(page: JsonValue, k: int, i: int, layer: int) -> Seq<(int, int, int)> {
    let old = layer_of(slot_element(page, (k, i)));
    page_slots(page, 15).map_values(
        |s: (int, int)| (s.0, s.1, moved_layer(layer_of(slot_element(page, s)), old, layer)),
    ).push((k, i, layer))
}

/// Element `i` of category `k` on page `p` of an exported profile, where the
/// page lists one there.
pub open spec fn element_at(doc: JsonValue, p: int, k: int, i: int) -> Option<JsonValue> {
    let pages = exported_pages(doc);
    if 0 <= p < pages.len() && 0 <= k < 15 && 0 <= i < page_elements(pages[p], all_categories()[k]).len() {
        Some(page_elements(pages[p], all_categories()[k])[i])
    } else {
        None
    }
}

/// Element `(p, k, i)` is there and is an object.
pub open spec fn element_is_object(doc: JsonValue, p: int, k: int, i: int) -> bool {
    element_at(doc, p, k, i) matches Some(e) && e is Object
}

/// Element `(p, k, i)` is there and its `objectData` is an object.
pub open spec fn object_data_is_object(doc: JsonValue, p: int, k: int, i: int) -> bool {
    element_at(doc, p, k, i) matches Some(e) && member(e, "objectData"@) matches Some(o) && o is Object
}

/// Some element of page `p` has no `objectData` object.
pub open spec fn page_lacks_object_data(doc: JsonValue, p: int) -> bool {
    exists|a: int, b: int|
        0 <= a < 15 && #[trigger] element_at(doc, p, a, b) is Some && !object_data_is_object(doc, p, a, b)
}

proof fn lemma_same_element_at(copy: JsonValue, doc: JsonValue, p: int, k: int, i: int)
    requires
        same(copy, doc),
    ensures
        element_at(copy, p, k, i) is Some == element_at(doc, p, k, i) is Some,
        element_is_object(copy, p, k, i) == element_is_object(doc, p, k, i),
        object_data_is_object(copy, p, k, i) == object_data_is_object(doc, p, k, i),
{
    lemma_same_member(copy, doc, cards_key());
    if let Some(cc) = member(copy, cards_key()) {
        let cd = member(doc, cards_key()).unwrap();
        lemma_same_items_of(cc, cd);
        if let Some(xs) = items_of(cc) {
            let ys = items_of(cd).unwrap();
            if 0 <= p < xs.len() && 0 <= k < 15 {
                assert(same(xs[p], ys[p]));
                lemma_same_member(xs[p], ys[p], "customProfileCard"@);
                if let Some(card) = member(xs[p], "customProfileCard"@) {
                    let card2 = member(ys[p], "customProfileCard"@).unwrap();
                    let key = category_key(all_categories()[k]);
                    lemma_same_member(card, card2, key);
                    if let Some(arr) = member(card, key) {
                        let arr2 = member(card2, key).unwrap();
                        lemma_same_items_of(arr, arr2);
                        if let Some(es) = items_of(arr) {
                            if 0 <= i < es.len() {
                                let fs = items_of(arr2).unwrap();
                                assert(same(es[i], fs[i]));
                                lemma_same_member(es[i], fs[i], "objectData"@);
                                if let Some(o) = member(es[i], "objectData"@) {
                                    let o2 = member(fs[i], "objectData"@).unwrap();
                                    assert(same(o, o2));
                                    assert((o is Object) == (o2 is Object));
                                }
                                assert((es[i] is Object) == (fs[i] is Object));
                            }
                        }
                    }
                }
            }
        }
    }
}

proof fn lemma_reaches_element(v: JsonValue, path: Seq<PathStep>, p: int, k: int, i: int)
    requires
        element_path(path, p, k, i),
        0 <= p <= usize::MAX,
        0 <= k < 15,
        0 <= i <= usize::MAX,
    ensures
        reaches(v, path) == element_is_object(v, p, k, i),
{
    let p1 = path.drop_first();
    let p2 = p1.drop_first();
    let p3 = p2.drop_first();
    let p4 = p3.drop_first();
    let p5 = p4.drop_first();
    assert(p1[0] == path[1]);
    assert(p2[0] == path[2]);
    assert(p3[0] == path[3]);
    assert(p4[0] == path[4]);
    assert(p5.len() == 0);
    lemma_reaches_key(v, path);
    if let Some(c) = member(v, cards_key()) {
        lemma_reaches_index(c, p1);
        if let Some(xs) = items_of(c) {
            if p < xs.len() {
                let page = xs[p];
                lemma_reaches_key(page, p2);
                if let Some(card) = member(page, "customProfileCard"@) {
                    lemma_reaches_key(card, p3);
                    if let Some(cv) = member(card, category_key(all_categories()[k])) {
                        lemma_reaches_index(cv, p4);
                    }
                }
            }
        }
    }
}

proof fn lemma_reaches_object_data(v: JsonValue, path: Seq<PathStep>, p: int, k: int, i: int)
    requires
        object_data_path(path, p, k, i),
        0 <= p <= usize::MAX,
        0 <= k < 15,
        0 <= i <= usize::MAX,
    ensures
        reaches(v, path) == object_data_is_object(v, p, k, i),
{
    let e5 = path.take(5);
    let p1 = path.drop_first();
    let p2 = p1.drop_first();
    let p3 = p2.drop_first();
    let p4 = p3.drop_first();
    let p5 = p4.drop_first();
    let p6 = p5.drop_first();
    assert(path[0] == e5[0]);
    assert(path[1] == e5[1]);
    assert(path[2] == e5[2]);
    assert(path[3] == e5[3]);
    assert(path[4] == e5[4]);
    assert(p1[0] == path[1]);
    assert(p2[0] == path[2]);
    assert(p3[0] == path[3]);
    assert(p4[0] == path[4]);
    assert(p5[0] == path[5]);
    assert(p6.len() == 0);
    lemma_reaches_key(v, path);
    if let Some(c) = member(v, cards_key()) {
        lemma_reaches_index(c, p1);
        if let Some(xs) = items_of(c) {
            if p < xs.len() {
                let page = xs[p];
                lemma_reaches_key(page, p2);
                if let Some(card) = member(page, "customProfileCard"@) {
                    lemma_reaches_key(card, p3);
                    if let Some(cv) = member(card, category_key(all_categories()[k])) {
                        lemma_reaches_index(cv, p4);
                        if let Some(es) = items_of(cv) {
                            if i < es.len() {
                                lemma_reaches_key(es[i], p5);
                            }
                        }
                    }
                }
            }
        }
    }
}

proof fn lemma_holds_element(v: JsonValue, path: Seq<PathStep>, p: int, k: int, i: int)
    requires
        category_path(path, p, k),
        0 <= p <= usize::MAX,
        0 <= k < 15,
        0 <= i,
    ensures
        holds_item(v, path, i) == element_at(v, p, k, i) is Some,
{
    let p1 = path.drop_first();
    let p2 = p1.drop_first();
    let p3 = p2.drop_first();
    let p4 = p3.drop_first();
    assert(p1[0] == path[1]);
    assert(p2[0] == path[2]);
    assert(p3[0] == path[3]);
    assert(p4.len() == 0);
    lemma_holds_item_key(v, path, i);
    if let Some(c) = member(v, cards_key()) {
        if let Some(xs) = items_of(c) {
            if p < xs.len() {
                let page = xs[p];
                lemma_holds_item_key(page, p2, i);
                if let Some(card) = member(page, "customProfileCard"@) {
                    lemma_holds_item_key(card, p3, i);
                }
            }
        }
    }
}

/// Why `command` on the element found at `(p, k, i)` of `doc`, on a page
/// holding `count` IDs, may be refused with `x`: a category index past the
/// fifteen categories, or what the command asks for that the element or its
/// page cannot take. An edit never leaves the document refused.
pub open spec fn command_refusal(
    command: AuthoringCommand,
    doc: JsonValue,
    p: int,
    k: int,
    i: int,
    count: int,
    x: AuthoringError,
) -> bool {
    ||| k >= 15 && x == AuthoringError::ElementNotFound(command_id(command))
    ||| match command {
        AuthoringCommand::SetLock { .. } => x == AuthoringError::InvalidObjectData && !object_data_is_object(doc, p, k, i),
        AuthoringCommand::SetVisible { .. } => x == AuthoringError::InvalidObjectData && !object_data_is_object(
            doc,
            p,
            k,
            i,
        ),
        AuthoringCommand::SetParameters { values, .. } => if sets_object_data(values@) {
            x == AuthoringError::ObjectDataParameterForbidden
        } else {
            x == AuthoringError::ElementMustBeObject && !element_is_object(doc, p, k, i)
        },
        AuthoringCommand::ChangeLayer { layer, .. } => if layer >= count {
            x == AuthoringError::InvalidLayer { page: p as usize, layer, count: count as usize }
        } else {
            ||| x == AuthoringError::ElementMustBeObject && element_at(doc, p, k, i) is None
            ||| x == AuthoringError::InvalidObjectData && page_lacks_object_data(doc, p)
        },
        AuthoringCommand::Delete { .. } => {
            ||| x == AuthoringError::ElementMustBeObject && element_at(doc, p, k, i) is None
            ||| x == AuthoringError::InvalidObjectData && deletion_lacks_object_data(doc, p, k, i)
        },
        AuthoringCommand::Create { .. } => false,
    }
}

/// With element `(p, k, i)` removed from a copy of `doc`, some element left
/// on page `p` has no `objectData` object.
pub open spec fn deletion_lacks_object_data(doc: JsonValue, p: int, k: int, i: int) -> bool {
    exists|copy: JsonValue, path: Seq<PathStep>, removed: JsonValue|
        {
            &&& same(copy, doc)
            &&& category_path(path, p, k)
            &&& #[trigger] removes(copy, path, i, removed)
            &&& page_lacks_object_data(removed, p)
        }
}

/// One element a session lists: its ID and where it stands, with the
/// element as it stands there.
#[derive(Debug)]
pub struct AuthoringSelection {
    pub id: AuthoringElementId,
    pub page: usize,
    pub category: AuthoringCategory,
    pub index: usize,
    pub element: JsonValue,
}

/// Whether element `(p, k, i)` stands among `pages`.
pub open spec fn stands(pages: Seq<JsonValue>, p: int, k: int, i: int) -> bool {
    0 <= p < pages.len() && 0 <= k < 15 && 0 <= i < page_elements(pages[p], all_categories()[k]).len()
}

/// The listed places of the first `n` IDs of category `k` on page `p`:
/// those whose element stands.
pub open spec fn listed_cell(cell: Seq<AuthoringElementId>, pages: Seq<JsonValue>, p: int, k: int, n: int) -> Seq<
    (AuthoringElementId, usize, AuthoringCategory, usize),
>
    decreases n,
{
    if n <= 0 {
        Seq::empty()
    } else {
        listed_cell(cell, pages, p, k, n - 1) + if stands(pages, p, k, n - 1) {
            seq![(cell[n - 1], p as usize, all_categories()[k], (n - 1) as usize)]
        } else {
            Seq::empty()
        }
    }
}

/// The listed places of the first `k` categories of page `p`.
pub open spec fn listed_row(row: Seq<Seq<AuthoringElementId>>, pages: Seq<JsonValue>, p: int, k: int) -> Seq<
    (AuthoringElementId, usize, AuthoringCategory, usize),
>
    decreases k,
{
    if k <= 0 {
        Seq::empty()
    } else {
        listed_row(row, pages, p, k - 1) + listed_cell(row[k - 1], pages, p, k - 1, row[k - 1].len() as int)
    }
}

/// The listed places of the first `n` pages, page by page and, within a
/// page, category by category.
pub open spec fn listed_pages(table: Seq<Seq<Seq<AuthoringElementId>>>, pages: Seq<JsonValue>, n: int) -> Seq<
    (AuthoringElementId, usize, AuthoringCategory, usize),
>
    decreases n,
{
    if n <= 0 {
        Seq::empty()
    } else {
        listed_pages(table, pages, n - 1) + listed_row(
            table[n - 1],
            pages,
            n - 1,
            if table[n - 1].len() < 15 {
                table[n - 1].len() as int
            } else {
                15
            },
        )
    }
}

/// Where a listed element stands.
pub open spec fn selection_place(s: AuthoringSelection) -> (AuthoringElementId, usize, AuthoringCategory, usize) {
    (s.id, s.page, s.category, s.index)
}

impl AuthoringSession {
    /// Every ID of the session whose element stands in the document, page by
    /// page and category by category, with the element copied.
    pub fn list_elements(&self) -> (r: Vec<AuthoringSelection>)
        ensures
            r@.map_values(|s: AuthoringSelection| selection_place(s)) == listed_pages(
                self.state().ids,
                self.pages_spec(),
                self.state().ids.len() as int,
            ),
            forall|j: int|
                0 <= j < r@.len() ==> same(
                    #[trigger] r@[j].element,
                    page_elements(self.pages_spec()[r@[j].page as int], r@[j].category)[r@[j].index as int],
                ),
    {
        let cats = AuthoringCategory::all();
        let ghost table = self.state().ids;
        let ghost pages = self.pages_spec();
        let mut out: Vec<AuthoringSelection> = Vec::new();
        let mut p: usize = 0;
        while p < self.ids.len()
            invariant
                cats@ == all_categories(),
                table == self.state().ids,
                pages == self.pages_spec(),
                p <= table.len(),
                table.len() == self.ids@.len(),
                out@.map_values(|s: AuthoringSelection| selection_place(s)) == listed_pages(table, pages, p as int),
                forall|j: int|
                    0 <= j < out@.len() ==> same(
                        #[trigger] out@[j].element,
                        page_elements(pages[out@[j].page as int], out@[j].category)[out@[j].index as int],
                    ),
            decreases self.ids.len() - p,
        {
            let ghost before = listed_pages(table, pages, p as int);
            let row_len = if self.ids[p].len() < 15 { self.ids[p].len() } else { 15 };
            let mut k: usize = 0;
            while k < row_len
                invariant
                    cats@ == all_categories(),
                    table == self.state().ids,
                    pages == self.pages_spec(),
                    p < table.len(),
                    table.len() == self.ids@.len(),
                    row_len <= 15,
                    row_len <= table[p as int].len(),
                    k <= row_len,
                    out@.map_values(|s: AuthoringSelection| selection_place(s)) == before + listed_row(
                        table[p as int],
                        pages,
                        p as int,
                        k as int,
                    ),
                    forall|j: int|
                        0 <= j < out@.len() ==> same(
                            #[trigger] out@[j].element,
                            page_elements(pages[out@[j].page as int], out@[j].category)[out@[j].index as int],
                        ),
                decreases row_len - k,
            {
                let ghost before_row = listed_row(table[p as int], pages, p as int, k as int);
                let ghost cell = table[p as int][k as int];
                let mut i: usize = 0;
                while i < self.ids[p][k].len()
                    invariant
                        cats@ == all_categories(),
                        table == self.state().ids,
                        pages == self.pages_spec(),
                        p < table.len(),
                        table.len() == self.ids@.len(),
                        k < 15,
                        k < table[p as int].len(),
                        cell == table[p as int][k as int],
                        cell.len() == self.ids@[p as int]@[k as int]@.len(),
                        i <= cell.len(),
                        out@.map_values(|s: AuthoringSelection| selection_place(s)) == before + before_row + listed_cell(
                            cell,
                            pages,
                            p as int,
                            k as int,
                            i as int,
                        ),
                        forall|j: int|
                            0 <= j < out@.len() ==> same(
                                #[trigger] out@[j].element,
                                page_elements(pages[out@[j].page as int], out@[j].category)[out@[j].index as int],
                            ),
                    decreases cell.len() - i,
                {
                    let ghost prev = out@;
                    match self.element_copy(p, k, i) {
                        Some(element) => {
                            let id = self.ids[p][k][i];
                            out.push(AuthoringSelection { id, page: p, category: cats[k], index: i, element });
                            proof {
                                assert(out@.map_values(|s: AuthoringSelection| selection_place(s)) =~= prev.map_values(
                                    |s: AuthoringSelection| selection_place(s),
                                ).push((id, p, all_categories()[k as int], i)));
                                assert(cell[i as int] == id);
                                assert forall|j: int| 0 <= j < out@.len() implies same(
                                    #[trigger] out@[j].element,
                                    page_elements(pages[out@[j].page as int], out@[j].category)[out@[j].index as int],
                                ) by {
                                    if j < prev.len() {
                                        assert(out@[j] == prev[j]);
                                    }
                                }
                            }
                        },
                        None => {},
                    }
                    proof {
                        assert(out@.map_values(|s: AuthoringSelection| selection_place(s)) =~= before + before_row
                            + listed_cell(cell, pages, p as int, k as int, i + 1));
                    }
                    i = i + 1;
                }
                proof {
                    assert(listed_row(table[p as int], pages, p as int, k + 1) =~= before_row + listed_cell(
                        cell,
                        pages,
                        p as int,
                        k as int,
                        cell.len() as int,
                    ));
                }
                k = k + 1;
            }
            proof {
                assert(listed_pages(table, pages, p + 1) =~= before + listed_row(
                    table[p as int],
                    pages,
                    p as int,
                    row_len as int,
                ));
            }
            p = p + 1;
        }
        out
    }
}

/// An exported profile whose `userCustomProfileCards` are all accepted.
pub open spec fn export_valid(v: JsonValue) -> bool {
    member(v, cards_key()) matches Some(c) && cards_error(c) is None
}

/// A JSON value holding the same JSON as an accepted document is accepted.
proof fn lemma_same_export_valid(copy: JsonValue, doc: GameProfileDocument)
    requires
        doc.wf(),
        same(copy, doc.value()),
    ensures
        export_valid(copy),
{
    law_exports_import_again(doc);
    lemma_same_member(copy, doc.value(), cards_key());
    let c = member(copy, cards_key()).unwrap();
    let d = member(doc.value(), cards_key()).unwrap();
    lemma_same_items_of(c, d);
    let xs = items_of(c).unwrap();
    let ys = items_of(d).unwrap();
    assert forall|j: int| 0 <= j < xs.len() implies same(#[trigger] xs[j], ys[j]) by {
        assert(same(items_of(c).unwrap()[j], items_of(d).unwrap()[j]));
    }
    lemma_same_pages_error(xs, ys, 0);
}

/// Setting a member inside element `i` of category `k` on page `p` leaves
/// an accepted export accepted.
proof fn lemma_element_edit_keeps_valid(
    v: JsonValue,
    path: Seq<PathStep>,
    key: Seq<char>,
    value: JsonValue,
    r: JsonValue,
    p: int,
    k: int,
    i: int,
)
    requires
        edits(v, path, key, value, r),
        path.len() >= 5,
        element_path(path.take(5), p, k, i),
        export_valid(v),
        0 <= p <= usize::MAX,
    ensures
        export_valid(r),
{
    let e5 = path.take(5);
    assert(path[0] == e5[0] && path[1] == e5[1] && path[2] == e5[2] && path[3] == e5[3] && path[4] == e5[4]);
    let p1 = path.drop_first();
    let p2 = p1.drop_first();
    let p3 = p2.drop_first();
    let p4 = p3.drop_first();
    assert(p1[0] == path[1] && p2[0] == path[2] && p3[0] == path[3] && p4[0] == path[4]);
    lemma_edits_key_step(v, path, key, value, r);
    let c = member(v, cards_key()).unwrap();
    let c2 = member(r, cards_key()).unwrap();
    lemma_edits_index_step(c, p1, key, value, c2);
    let xs = items_of(c).unwrap();
    let ys = items_of(c2).unwrap();
    lemma_edits_key_step(xs[p], p2, key, value, ys[p]);
    let card = member(xs[p], "customProfileCard"@).unwrap();
    let card2 = member(ys[p], "customProfileCard"@).unwrap();
    let ckey = category_key(all_categories()[k]);
    lemma_edits_key_step(card, p3, key, value, card2);
    lemma_edits_index_step(member(card, ckey).unwrap(), p4, key, value, member(card2, ckey).unwrap());
    lemma_first_page_error_none(xs, 0, p);
    lemma_card_edit_keeps_page(p as usize, xs[p], ys[p], ckey);
    lemma_page_replaced_keeps(xs, ys, p, 0);
}

proof fn lemma_params_keep_valid(v: JsonValue, path: Seq<PathStep>, params: Seq<(String, JsonValue)>, mids: Seq<JsonValue>, p: int, k: int, i: int, t: int)
    requires
        edits_in_turn(v, path, params, mids),
        element_path(path, p, k, i),
        export_valid(v),
        0 <= p <= usize::MAX,
        0 <= t < mids.len(),
    ensures
        export_valid(mids[t]),
    decreases t,
{
    if t > 0 {
        lemma_params_keep_valid(v, path, params, mids, p, k, i, t - 1);
        assert(path.take(5) =~= path);
        let j = t - 1;
        assert(edits(mids[j], path, params[j].0@, params[j].1, mids[j + 1]));
        lemma_element_edit_keeps_valid(mids[j], path, params[j].0@, params[j].1, mids[j + 1], p, k, i);
    }
}

proof fn lemma_layers_keep_valid(v: JsonValue, p: int, list: Seq<(int, int, int)>, mids: Seq<JsonValue>, t: int)
    requires
        layer_chain(v, p, list, mids),
        export_valid(v),
        0 <= p <= usize::MAX,
        0 <= t < mids.len(),
    ensures
        export_valid(mids[t]),
    decreases t,
{
    if t > 0 {
        lemma_layers_keep_valid(v, p, list, mids, t - 1);
        let j = t - 1;
        assert(layer_step(mids[j], mids[j + 1], p, list[j]));
        let e = list[j];
        let q = choose|q: Seq<PathStep>|
            object_data_path(q, p, e.0, e.1) && #[trigger] edits(
                mids[j],
                q,
                "layer"@,
                JsonValue::Number(JsonNumber::PosInt(e.2 as u64)),
                mids[j + 1],
            );
        lemma_element_edit_keeps_valid(
            mids[j],
            q,
            "layer"@,
            JsonValue::Number(JsonNumber::PosInt(e.2 as u64)),
            mids[j + 1],
            p,
            e.0,
            e.1,
        );
    }
}

/// Removing element `i` of category `k` on page `p` leaves an accepted
/// export accepted.
proof fn lemma_removal_keeps_valid(v: JsonValue, path: Seq<PathStep>, i: int, r: JsonValue, p: int, k: int)
    requires
        removes(v, path, i, r),
        category_path(path, p, k),
        export_valid(v),
        0 <= p <= usize::MAX,
    ensures
        export_valid(r),
{
    let p1 = path.drop_first();
    let p2 = p1.drop_first();
    let p3 = p2.drop_first();
    let p4 = p3.drop_first();
    assert(p1[0] == path[1] && p2[0] == path[2] && p3[0] == path[3] && p4.len() == 0);
    lemma_removes_key_step(v, path, i, r);
    let c = member(v, cards_key()).unwrap();
    let c2 = member(r, cards_key()).unwrap();
    lemma_removes_index_step(c, p1, i, c2);
    let xs = items_of(c).unwrap();
    let ys = items_of(c2).unwrap();
    lemma_removes_key_step(xs[p], p2, i, ys[p]);
    let card = member(xs[p], "customProfileCard"@).unwrap();
    let card2 = member(ys[p], "customProfileCard"@).unwrap();
    let ckey = category_key(all_categories()[k]);
    lemma_removes_key_step(card, p3, i, card2);
    lemma_first_page_error_none(xs, 0, p);
    lemma_card_edit_keeps_page(p as usize, xs[p], ys[p], ckey);
    lemma_page_replaced_keeps(xs, ys, p, 0);
}

/// A command's edit leaves an accepted export accepted.
proof fn lemma_effect_keeps_valid(command: AuthoringCommand, copy: JsonValue, p: int, k: int, i: int, edited: JsonValue)
    requires
        command_effect(command, copy, p, k, i, edited),
        export_valid(copy),
        0 <= p <= usize::MAX,
    ensures
        export_valid(edited),
{
    match command {
        AuthoringCommand::SetLock { lock, .. } => {
            let path = choose|path: Seq<PathStep>|
                object_data_path(path, p, k, i) && #[trigger] edits(copy, path, "lock"@, JsonValue::Bool(lock), edited);
            lemma_element_edit_keeps_valid(copy, path, "lock"@, JsonValue::Bool(lock), edited, p, k, i);
        },
        AuthoringCommand::SetVisible { visible, .. } => {
            let path = choose|path: Seq<PathStep>|
                object_data_path(path, p, k, i) && #[trigger] edits(copy, path, "visible"@, JsonValue::Bool(visible), edited);
            lemma_element_edit_keeps_valid(copy, path, "visible"@, JsonValue::Bool(visible), edited, p, k, i);
        },
        AuthoringCommand::SetParameters { values, .. } => {
            let (path, mids) = choose|path: Seq<PathStep>, mids: Seq<JsonValue>|
                {
                    &&& element_path(path, p, k, i)
                    &&& reaches(copy, path)
                    &&& #[trigger] edits_in_turn(copy, path, values@, mids)
                    &&& mids.last() == edited
                };
            lemma_params_keep_valid(copy, path, values@, mids, p, k, i, mids.len() - 1);
        },
        AuthoringCommand::ChangeLayer { layer, .. } => {
            let mids = choose|mids: Seq<JsonValue>|
                {
                    &&& p < exported_pages(copy).len()
                    &&& #[trigger] layer_chain(copy, p, change_layer_plan(exported_pages(copy)[p], k, i, layer as int), mids)
                    &&& mids.last() == edited
                };
            lemma_layers_keep_valid(
                copy,
                p,
                change_layer_plan(exported_pages(copy)[p], k, i, layer as int),
                mids,
                mids.len() - 1,
            );
        },
        AuthoringCommand::Delete { .. } => {},
        AuthoringCommand::Create { .. } => {},
    }
}

/// The pages of an exported profile.
pub open spec fn exported_pages(export: JsonValue) -> Seq<JsonValue> {
    match member(export, cards_key()) {
        Some(cards) => match items_of(cards) {
            Some(pages) => pages,
            None => Seq::empty(),
        },
        None => Seq::empty(),
    }
}

/// The history kept after `entry` is recorded: at most
/// [`AUTHORING_HISTORY_LIMIT`] entries, the oldest dropped first.
pub open spec fn recorded(history: Seq<SessionState>, entry: SessionState) -> Seq<SessionState> {
    let grown = history.push(entry);
    if grown.len() > AUTHORING_HISTORY_LIMIT {
        grown.drop_first()
    } else {
        grown
    }
}

fn copy_ids(ids: &Vec<Vec<Vec<AuthoringElementId>>>) -> (r: Vec<Vec<Vec<AuthoringElementId>>>)
    ensures
        id_table(r) == id_table(*ids),
{
    let mut out: Vec<Vec<Vec<AuthoringElementId>>> = Vec::new();
    let mut p: usize = 0;
    while p < ids.len()
        invariant
            p <= ids@.len(),
            out@.len() == p,
            forall|q: int| 0 <= q < p ==> (#[trigger] out@[q])@.map_values(|c: Vec<AuthoringElementId>| c@)
                == ids@[q]@.map_values(|c: Vec<AuthoringElementId>| c@),
        decreases ids.len() - p,
    {
        let mut row: Vec<Vec<AuthoringElementId>> = Vec::new();
        let mut k: usize = 0;
        while k < ids[p].len()
            invariant
                p < ids@.len(),
                k <= ids@[p as int]@.len(),
                row@.len() == k,
                forall|t: int| 0 <= t < k ==> (#[trigger] row@[t])@ == ids@[p as int]@[t]@,
            decreases ids@[p as int]@.len() - k,
        {
            let mut cell: Vec<AuthoringElementId> = Vec::new();
            let mut j: usize = 0;
            while j < ids[p][k].len()
                invariant
                    p < ids@.len(),
                    k < ids@[p as int]@.len(),
                    j <= ids@[p as int]@[k as int]@.len(),
                    cell@ == ids@[p as int]@[k as int]@.take(j as int),
                decreases ids@[p as int]@[k as int]@.len() - j,
            {
                cell.push(ids[p][k][j]);
                j = j + 1;
                assert(cell@ =~= ids@[p as int]@[k as int]@.take(j as int));
            }
            assert(cell@ =~= ids@[p as int]@[k as int]@);
            row.push(cell);
            k = k + 1;
        }
        assert(row@.map_values(|c: Vec<AuthoringElementId>| c@) =~= ids@[p as int]@.map_values(
            |c: Vec<AuthoringElementId>| c@,
        ));
        out.push(row);
        p = p + 1;
    }
    assert(id_table(out) =~= id_table(*ids));
    out
}

fn change_record(id: AuthoringElementId, page: usize, category: AuthoringCategory, kind: AuthoringChangeKind) -> (r:
    AuthoringElementChange)
    ensures
        change_fields(r) == (id, page, category, kind),
        r.element is None,
{
    AuthoringElementChange { id, page, category, kind, element: None }
}

impl AuthoringSession {
    /// Where element `id` stands, if the session knows it.
    fn locate(&self, id: AuthoringElementId) -> (r: Option<(usize, usize, usize)>)
        ensures
            match r {
                Some((p, k, i)) => located(self.state().ids, id, p as int, k as int, i as int),
                None => forall|p: int, k: int, i: int| !located(self.state().ids, id, p, k, i),
            },
    {
        let mut p: usize = 0;
        while p < self.ids.len()
            invariant
                p <= self.ids@.len(),
                forall|q: int, k: int, i: int| 0 <= q < p ==> !located(self.state().ids, id, q, k, i),
            decreases self.ids.len() - p,
        {
            let mut k: usize = 0;
            while k < self.ids[p].len()
                invariant
                    p < self.ids@.len(),
                    k <= self.ids@[p as int]@.len(),
                    forall|q: int, kk: int, i: int| 0 <= q < p ==> !located(self.state().ids, id, q, kk, i),
                    forall|kk: int, i: int| 0 <= kk < k ==> !located(self.state().ids, id, p as int, kk, i),
                decreases self.ids@[p as int]@.len() - k,
            {
                let mut i: usize = 0;
                while i < self.ids[p][k].len()
                    invariant
                        p < self.ids@.len(),
                        k < self.ids@[p as int]@.len(),
                        i <= self.ids@[p as int]@[k as int]@.len(),
                        forall|q: int, kk: int, t: int| 0 <= q < p ==> !located(self.state().ids, id, q, kk, t),
                        forall|kk: int, t: int| 0 <= kk < k ==> !located(self.state().ids, id, p as int, kk, t),
                        forall|t: int| 0 <= t < i ==> !located(self.state().ids, id, p as int, k as int, t),
                    decreases self.ids@[p as int]@[k as int]@.len() - i,
                {
                    if self.ids[p][k][i] == id {
                        return Some((p, k, i));
                    }
                    i = i + 1;
                }
                k = k + 1;
            }
            p = p + 1;
        }
        None
    }

    /// Whether element `(p, k, i)` stands in the document.
    fn stands_at(&self, p: usize, k: usize, i: usize) -> (r: bool)
        ensures
            r == stands(self.pages_spec(), p as int, k as int, i as int),
    {
        if k >= 15 {
            return false;
        }
        let pages = self.document.pages();
        if p >= pages.len() {
            return false;
        }
        let cats = AuthoringCategory::all();
        match category_elements(&pages[p], cats[k]) {
            Some(items) => i < items.len(),
            None => false,
        }
    }

    /// A place where `id` stands in the document, if it stands anywhere.
    fn locate_standing(&self, id: AuthoringElementId) -> (r: Option<(usize, usize, usize)>)
        ensures
            match r {
                Some((p, k, i)) => located(self.state().ids, id, p as int, k as int, i as int) && stands(
                    self.pages_spec(),
                    p as int,
                    k as int,
                    i as int,
                ),
                None => forall|p: int, k: int, i: int|
                    located(self.state().ids, id, p, k, i) ==> !stands(self.pages_spec(), p, k, i),
            },
    {
        let ghost pages = self.pages_spec();
        let mut p: usize = 0;
        while p < self.ids.len()
            invariant
                pages == self.pages_spec(),
                p <= self.ids@.len(),
                forall|q: int, k: int, i: int|
                    0 <= q < p && located(self.state().ids, id, q, k, i) ==> !stands(pages, q, k, i),
            decreases self.ids.len() - p,
        {
            let mut k: usize = 0;
            while k < self.ids[p].len()
                invariant
                    pages == self.pages_spec(),
                    p < self.ids@.len(),
                    k <= self.ids@[p as int]@.len(),
                    forall|q: int, kk: int, i: int|
                        0 <= q < p && located(self.state().ids, id, q, kk, i) ==> !stands(pages, q, kk, i),
                    forall|kk: int, i: int|
                        0 <= kk < k && located(self.state().ids, id, p as int, kk, i) ==> !stands(pages, p as int, kk, i),
                decreases self.ids@[p as int]@.len() - k,
            {
                let mut i: usize = 0;
                while i < self.ids[p][k].len()
                    invariant
                        pages == self.pages_spec(),
                        p < self.ids@.len(),
                        k < self.ids@[p as int]@.len(),
                        i <= self.ids@[p as int]@[k as int]@.len(),
                        forall|q: int, kk: int, t: int|
                            0 <= q < p && located(self.state().ids, id, q, kk, t) ==> !stands(pages, q, kk, t),
                        forall|kk: int, t: int|
                            0 <= kk < k && located(self.state().ids, id, p as int, kk, t) ==> !stands(
                                pages,
                                p as int,
                                kk,
                                t,
                            ),
                        forall|t: int|
                            0 <= t < i && located(self.state().ids, id, p as int, k as int, t) ==> !stands(
                                pages,
                                p as int,
                                k as int,
                                t,
                            ),
                    decreases self.ids@[p as int]@[k as int]@.len() - i,
                {
                    if self.ids[p][k][i] == id && self.stands_at(p, k, i) {
                        return Some((p, k, i));
                    }
                    i = i + 1;
                }
                k = k + 1;
            }
            p = p + 1;
        }
        None
    }

    /// An update record for every element of page `p`, category by category.
    fn page_records(&self, p: usize) -> (r: Vec<AuthoringElementChange>)
        requires
            p < self.state().ids.len(),
        ensures
            r@.len() == flat_page(self.state().ids[p as int]).len(),
            forall|j: int|
                0 <= j < r@.len() ==> {
                    &&& (#[trigger] r@[j]).id == flat_page(self.state().ids[p as int])[j]
                    &&& r@[j].page == p
                    &&& r@[j].kind == AuthoringChangeKind::Updated
                },
    {
        let cats = AuthoringCategory::all();
        let ghost row = self.state().ids[p as int];
        let mut out: Vec<AuthoringElementChange> = Vec::new();
        let mut k: usize = 0;
        while k < self.ids[p].len()
            invariant
                cats@ == all_categories(),
                p < self.ids@.len(),
                row == self.state().ids[p as int],
                row.len() == self.ids@[p as int]@.len(),
                k <= row.len(),
                out@.len() == flat_page(row.take(k as int)).len(),
                forall|j: int|
                    0 <= j < out@.len() ==> {
                        &&& (#[trigger] out@[j]).id == flat_page(row.take(k as int))[j]
                        &&& out@[j].page == p
                        &&& out@[j].kind == AuthoringChangeKind::Updated
                    },
            decreases row.len() - k,
        {
            let category = if k < 15 {
                cats[k]
            } else {
                AuthoringCategory::UserInterfaceIcons
            };
            let mut j: usize = 0;
            let ghost start = out@;
            let ghost start_ids = flat_page(row.take(k as int));
            while j < self.ids[p][k].len()
                invariant
                    p < self.ids@.len(),
                    row == self.state().ids[p as int],
                    k < row.len(),
                    row[k as int] == self.ids@[p as int]@[k as int]@,
                    j <= row[k as int].len(),
                    out@.len() == start.len() + j,
                    start.len() == start_ids.len(),
                    forall|t: int|
                        0 <= t < out@.len() ==> {
                            &&& (#[trigger] out@[t]).id == (start_ids + row[k as int].take(j as int))[t]
                            &&& out@[t].page == p
                            &&& out@[t].kind == AuthoringChangeKind::Updated
                        },
                decreases row[k as int].len() - j,
            {
                let ghost before = out@;
                out.push(change_record(self.ids[p][k][j], p, category, AuthoringChangeKind::Updated));
                j = j + 1;
                proof {
                    assert forall|t: int| 0 <= t < out@.len() implies {
                        &&& (#[trigger] out@[t]).id == (start_ids + row[k as int].take(j as int))[t]
                        &&& out@[t].page == p
                        &&& out@[t].kind == AuthoringChangeKind::Updated
                    } by {
                        if t < before.len() {
                            assert(out@[t] == before[t]);
                            assert((start_ids + row[k as int].take(j as int))[t] == (start_ids + row[k as int].take(j - 1))[t]);
                        }
                    }
                }
            }
            proof {
                assert(row.take(k + 1).drop_last() =~= row.take(k as int));
                assert(row[k as int].take(j as int) =~= row[k as int]);
                assert(flat_page(row.take(k + 1)) =~= start_ids + row[k as int]);
            }
            k = k + 1;
        }
        proof {
            assert(row.take(k as int) =~= row);
        }
        out
    }

    /// The IDs of page `page`'s elements, category by category.
    pub fn element_ids(&self, page: usize) -> (r: Result<Vec<AuthoringElementId>, AuthoringError>)
        ensures
            page < self.state().ids.len() ==> r is Ok && r.unwrap()@ == flat_page(self.state().ids[page as int]),
            page >= self.state().ids.len() ==> r == Err::<Vec<AuthoringElementId>, AuthoringError>(
                AuthoringError::PageNotFound(page),
            ),
    {
        if page >= self.ids.len() {
            return Err(AuthoringError::PageNotFound(page));
        }
        let ghost row = self.state().ids[page as int];
        let mut out: Vec<AuthoringElementId> = Vec::new();
        let mut k: usize = 0;
        while k < self.ids[page].len()
            invariant
                page < self.ids@.len(),
                row == self.state().ids[page as int],
                row.len() == self.ids@[page as int]@.len(),
                k <= row.len(),
                out@ == flat_page(row.take(k as int)),
            decreases row.len() - k,
        {
            let mut j: usize = 0;
            let ghost start = out@;
            while j < self.ids[page][k].len()
                invariant
                    page < self.ids@.len(),
                    row == self.state().ids[page as int],
                    k < row.len(),
                    row[k as int] == self.ids@[page as int]@[k as int]@,
                    j <= row[k as int].len(),
                    out@ == start + row[k as int].take(j as int),
                decreases row[k as int].len() - j,
            {
                out.push(self.ids[page][k][j]);
                j = j + 1;
                assert(out@ =~= start + row[k as int].take(j as int));
            }
            assert(row.take(k + 1).drop_last() =~= row.take(k as int));
            assert(row[k as int].take(j as int) =~= row[k as int]);
            k = k + 1;
        }
        assert(row.take(k as int) =~= row);
        Ok(out)
    }

    /// The revision count.
    pub fn revision(&self) -> (r: u64)
        ensures
            r == self.revision_spec(),
    {
        self.revision
    }

    /// The selected element, if any.
    pub fn selected_id(&self) -> (r: Option<AuthoringElementId>)
        ensures
            r == self.state().selected_id,
    {
        self.selected_id
    }

    /// The profile the session exports.
    pub fn export_value(&self) -> (r: &JsonValue)
        ensures
            *r == self.state().document,
    {
        self.document.export_value()
    }

    /// The element at `(p, k, i)`, copied.
    fn element_copy(&self, p: usize, k: usize, i: usize) -> (r: Option<JsonValue>)
        requires
            k < 15,
        ensures
            r matches Some(e) ==> p < self.pages_spec().len() && i < page_elements(
                self.pages_spec()[p as int],
                all_categories()[k as int],
            ).len() && same(e, page_elements(self.pages_spec()[p as int], all_categories()[k as int])[i as int]),
            r is None ==> !(p < self.pages_spec().len() && i < page_elements(
                self.pages_spec()[p as int],
                all_categories()[k as int],
            ).len()),
    {
        let pages = self.document.pages();
        if p >= pages.len() {
            return None;
        }
        let cats = AuthoringCategory::all();
        match category_elements(&pages[p], cats[k]) {
            Some(items) => if i < items.len() {
                Some(items[i].duplicate())
            } else {
                None
            },
            None => None,
        }
    }

    /// Each record with the element it names as it stands now.
    fn filled(&self, records: &Vec<AuthoringElementChange>) -> (r: Vec<AuthoringElementChange>)
        ensures
            r@.len() == records@.len(),
            forall|j: int| 0 <= j < r@.len() ==> change_fields(#[trigger] r@[j]) == change_fields(records@[j]),
            forall|j: int| 0 <= j < r@.len() ==> carries_element(*self, #[trigger] r@[j]),
    {
        let mut out: Vec<AuthoringElementChange> = Vec::new();
        let mut j: usize = 0;
        while j < records.len()
            invariant
                j <= records@.len(),
                out@.len() == j,
                forall|t: int| 0 <= t < j ==> change_fields(#[trigger] out@[t]) == change_fields(records@[t]),
                forall|t: int| 0 <= t < j ==> carries_element(*self, #[trigger] out@[t]),
            decreases records.len() - j,
        {
            let rec = &records[j];
            let element = match self.locate_standing(rec.id) {
                Some((p, k, i)) => self.element_copy(p, k, i),
                None => None,
            };
            out.push(AuthoringElementChange { id: rec.id, page: rec.page, category: rec.category, kind: rec.kind, element });
            j = j + 1;
        }
        out
    }

    fn delta(&self, changes: Vec<AuthoringElementChange>) -> (d: AuthoringDelta)
        ensures
            d.revision == self.revision_spec(),
            d.changes == changes,
            d.can_undo == (self.undo_states().len() > 0),
            d.can_redo == (self.redo_states().len() > 0),
            d.selected_id == self.state().selected_id,
            d.page_changes@.len() == 0,
    {
        AuthoringDelta {
            revision: self.revision,
            changes,
            can_undo: self.undo.len() > 0,
            can_redo: self.redo.len() > 0,
            selected_id: self.selected_id,
            page_changes: Vec::new(),
        }
    }
}


/// `after` and `delta` are what applying `command` to `before` gives: the
/// command's element stands at `(p, k, i)`, and `edited` is `copy` (which
/// holds the same JSON as the document) with the command done. Where that
/// changes nothing the session is as it was; else the edited pages are the
/// document, the change is recorded for undo and redo is cleared.
pub open spec fn applied(
    before: AuthoringSession,
    after: AuthoringSession,
    command: AuthoringCommand,
    delta: AuthoringDelta,
    p: int,
    k: int,
    i: int,
    copy: JsonValue,
    edited: JsonValue,
) -> bool {
    &&& located(before.state().ids, command_id(command), p, k, i)
    &&& same(copy, before.state().document)
    &&& command_effect(command, copy, p, k, i, edited)
    &&& (command matches AuthoringCommand::ChangeLayer { layer, .. } ==> layer < flat_page(before.state().ids[p]).len())
    &&& delta.page_changes@.len() == 0
    &&& if same(edited, before.state().document) {
        &&& after == before
        &&& delta.changes@.len() == 0
    } else {
        &&& after.pages_spec() == exported_pages(edited)
        &&& after.state().ids == before.state().ids
        &&& after.state().selected_id == before.state().selected_id
        &&& after.revision_spec() == before.revision_spec() + 1
        &&& after.undo_states() == recorded(before.undo_states(), before.state())
        &&& after.redo_states().len() == 0
        &&& after.undo_reports() == recorded_reports(before.undo_reports(), change_report(delta))
        &&& after.redo_reports().len() == 0
        &&& after.gesture_spec() is None
        &&& after.next_id_spec() == before.next_id_spec()
        &&& all_carry_elements(after, delta.changes@)
        &&& if command is ChangeLayer {
            &&& delta.changes@.len() == flat_page(before.state().ids[p]).len()
            &&& forall|j: int|
                0 <= j < delta.changes@.len() ==> {
                    &&& (#[trigger] delta.changes@[j]).id == flat_page(before.state().ids[p])[j]
                    &&& delta.changes@[j].page == p as usize
                    &&& delta.changes@[j].kind == AuthoringChangeKind::Updated
                }
        } else {
            &&& delta.changes@.len() == 1
            &&& change_fields(delta.changes@[0]) == (
                command_id(command),
                p as usize,
                all_categories()[k],
                AuthoringChangeKind::Updated,
            )
        }
    }
    &&& delta.revision == after.revision_spec()
    &&& delta.can_undo == (after.undo_states().len() > 0)
    &&& delta.can_redo == (after.redo_states().len() > 0)
    &&& delta.selected_id == after.state().selected_id
}

/// `after` is `before` with its last change undone.
pub open spec fn undone(before: AuthoringSession, after: AuthoringSession) -> bool {
    &&& before.undo_states().len() > 0
    &&& after.state() == before.undo_states().last()
    &&& after.undo_states() == before.undo_states().drop_last()
    &&& after.redo_states() == before.redo_states().push(before.state())
}

/// `after` is `before` with its last undone change redone.
pub open spec fn redone(before: AuthoringSession, after: AuthoringSession) -> bool {
    &&& before.redo_states().len() > 0
    &&& after.state() == before.redo_states().last()
    &&& after.redo_states() == before.redo_states().drop_last()
    &&& after.undo_states() == before.undo_states().push(before.state())
}

/// `delta` reports what undoing the last recorded change of `before`
/// reports, and the entry moves from the undo history to the redo history.
pub open spec fn undo_reported(before: AuthoringSession, after: AuthoringSession, delta: AuthoringDelta) -> bool {
    &&& before.undo_reports().len() > 0
    &&& after.undo_reports() == before.undo_reports().drop_last()
    &&& after.redo_reports() == before.redo_reports().push(before.undo_reports().last())
    &&& fields_of(delta.changes@) == before.undo_reports().last().reverse
    &&& all_carry_elements(after, delta.changes@)
    &&& delta.page_changes@ == before.undo_reports().last().page_reverse
}

/// `delta` reports what redoing the last undone change of `before`
/// reports, and the entry moves from the redo history to the undo history.
pub open spec fn redo_reported(before: AuthoringSession, after: AuthoringSession, delta: AuthoringDelta) -> bool {
    &&& before.redo_reports().len() > 0
    &&& after.redo_reports() == before.redo_reports().drop_last()
    &&& after.undo_reports() == before.undo_reports().push(before.redo_reports().last())
    &&& fields_of(delta.changes@) == before.redo_reports().last().forward
    &&& all_carry_elements(after, delta.changes@)
    &&& delta.page_changes@ == before.redo_reports().last().page_forward
}

/// Undoing a recorded change reports its elements again, in the same order
/// with insertions and removals swapped; redoing it then reports them as
/// the change first did.
pub proof fn law_undo_and_redo_report_the_change(
    a: AuthoringSession,
    b: AuthoringSession,
    d: AuthoringDelta,
    c: AuthoringSession,
    u: AuthoringDelta,
    e: AuthoringSession,
    r: AuthoringDelta,
)
    requires
        b.undo_reports() == recorded_reports(a.undo_reports(), change_report(d)),
        undo_reported(b, c, u),
        redo_reported(c, e, r),
    ensures
        fields_of(u.changes@) == reversed_fields(fields_of(d.changes@)),
        u.page_changes@.len() == 0,
        fields_of(r.changes@) == fields_of(d.changes@),
        r.page_changes@.len() == 0,
{
    let grown = a.undo_reports().push(change_report(d));
    assert(grown.last() == change_report(d));
    if grown.len() > AUTHORING_HISTORY_LIMIT {
        assert(grown.drop_first().last() == grown.last());
    }
}

/// Undoing a change that was just recorded (a command, a page operation or
/// a committed gesture) gives back the document, the IDs and the selection
/// the session held before it, and the history before it where it was not
/// full.
pub proof fn law_undo_restores_the_state_before_a_change(a: AuthoringSession, b: AuthoringSession, c: AuthoringSession)
    requires
        b.undo_states() == recorded(a.undo_states(), a.state()),
        undone(b, c),
    ensures
        c.state() == a.state(),
        a.undo_states().len() < AUTHORING_HISTORY_LIMIT ==> c.undo_states() == a.undo_states(),
        c.redo_states().last() == b.state(),
{
    let grown = a.undo_states().push(a.state());
    assert(grown.last() == a.state());
    if grown.len() > AUTHORING_HISTORY_LIMIT {
        assert(grown.drop_first().last() == grown.last());
    } else {
        assert(grown.drop_last() =~= a.undo_states());
    }
}

/// Redoing what was just undone gives back the document, the IDs and the
/// selection exactly, and both histories as they were.
pub proof fn law_redo_restores_what_undo_replaced(a: AuthoringSession, b: AuthoringSession, c: AuthoringSession)
    requires
        undone(a, b),
        redone(b, c),
    ensures
        c.state() == a.state(),
        c.undo_states() == a.undo_states(),
        c.redo_states() == a.redo_states(),
{
    assert(c.undo_states() =~= a.undo_states());
    assert(c.redo_states() =~= a.redo_states());
}

/// Undoing what was just redone gives back the state before the redo.
pub proof fn law_undo_restores_what_redo_replaced(a: AuthoringSession, b: AuthoringSession, c: AuthoringSession)
    requires
        redone(a, b),
        undone(b, c),
    ensures
        c.state() == a.state(),
        c.undo_states() == a.undo_states(),
        c.redo_states() == a.redo_states(),
{
    assert(c.undo_states() =~= a.undo_states());
    assert(c.redo_states() =~= a.redo_states());
}

impl AuthoringSession {
    /// Selects element `id`, or clears the selection. Refused during a
    /// gesture, and for an ID the session does not know.
    pub fn select(&mut self, id: Option<AuthoringElementId>) -> (r: Result<AuthoringDelta, AuthoringError>)
        ensures
            old(self).gesture_spec() is Some ==> r == Err::<AuthoringDelta, AuthoringError>(
                AuthoringError::GestureInProgress,
            ),
            old(self).gesture_spec() is None && id is Some && (forall|p: int, k: int, i: int|
                !located(old(self).state().ids, id.unwrap(), p, k, i)) ==> r == Err::<AuthoringDelta, AuthoringError>(
                AuthoringError::ElementNotFound(id.unwrap()),
            ),
            old(self).gesture_spec() is None && (id is None || exists|p: int, k: int, i: int|
                located(old(self).state().ids, id.unwrap(), p, k, i)) ==> r is Ok,
            r is Err ==> *final(self) == *old(self),
            r is Ok ==> {
                &&& final(self).state() == SessionState { selected_id: id, ..old(self).state() }
                &&& final(self).revision_spec() == old(self).revision_spec()
                &&& final(self).undo_states() == old(self).undo_states()
                &&& final(self).redo_states() == old(self).redo_states()
                &&& final(self).gesture_spec() == old(self).gesture_spec()
                &&& final(self).pages_spec() == old(self).pages_spec()
                &&& r.unwrap().selected_id == id
                &&& r.unwrap().changes@.len() == 0
            },
    {
        if self.gesture.is_some() {
            return Err(AuthoringError::GestureInProgress);
        }
        match id {
            Some(x) => match self.locate(x) {
                Some(_) => {},
                None => {
                    return Err(AuthoringError::ElementNotFound(x));
                },
            },
            None => {},
        }
        self.selected_id = id;
        Ok(self.delta(Vec::new()))
    }

    /// Does `command` to a copy of the document holding the same JSON.
    fn edit_copy(&self, command: AuthoringCommand, p: usize, k: usize, i: usize) -> (r: Result<JsonValue, AuthoringError>)
        requires
            k < 15,
            !(command is Delete),
            !(command is Create),
            p < self.state().ids.len(),
        ensures
            match r {
                Ok(e) => (command matches AuthoringCommand::ChangeLayer { layer, .. } ==> layer < flat_page(
                    self.state().ids[p as int],
                ).len()) && exists|copy: JsonValue|
                    same(copy, self.state().document) && #[trigger] command_effect(command, copy, p as int, k as int, i as int, e),
                Err(x) => command_refusal(
                    command,
                    self.state().document,
                    p as int,
                    k as int,
                    i as int,
                    flat_page(self.state().ids[p as int]).len() as int,
                    x,
                ),
            },
    {
        let cats = AuthoringCategory::all();
        let category = cats[k];
        let ghost original = command;
        match command {
            AuthoringCommand::SetParameters { id, values } => {
                let mut j: usize = 0;
                while j < values.len()
                    invariant
                        command is SetParameters,
                        original == command,
                        command == (AuthoringCommand::SetParameters { id, values }),
                        j <= values@.len(),
                        forall|t: int| 0 <= t < j ==> (#[trigger] values@[t]).0@ != "objectData"@,
                    decreases values.len() - j,
                {
                    if crate::text::str_eq(values[j].0.as_str(), "objectData") {
                        proof {
                            assert(values@[j as int].0@ == "objectData"@);
                            assert(sets_object_data(values@));
                        }
                        return Err(AuthoringError::ObjectDataParameterForbidden);
                    }
                    j = j + 1;
                }
                proof {
                    assert(!sets_object_data(values@));
                }
                let copy = self.document.export_value().duplicate();
                let ghost copy_value = copy;
                let mut path: Vec<PathStep> = Vec::new();
                path.push(PathStep::Key(String::from_str("userCustomProfileCards")));
                path.push(PathStep::Index(p));
                path.push(PathStep::Key(String::from_str("customProfileCard")));
                path.push(PathStep::Key(String::from_str(category.key())));
                path.push(PathStep::Index(i));
                proof {
                    reveal_strlit("userCustomProfileCards");
                    reveal_strlit("customProfileCard");
                    assert(path@.skip(0) =~= path@);
                    assert(category == all_categories()[k as int]);
                    assert(element_path(path@, p as int, k as int, i as int));
                }
                if !reaches_object(&copy, &path, 0) {
                    proof {
                        lemma_reaches_element(copy_value, path@, p as int, k as int, i as int);
                        lemma_same_element_at(copy_value, self.state().document, p as int, k as int, i as int);
                    }
                    return Err(AuthoringError::ElementMustBeObject);
                }
                let ghost all = values@;
                let total = values.len();
                let mut rest = values;
                let mut current = copy;
                let ghost mut mids: Seq<JsonValue> = seq![copy_value];
                let mut n: usize = 0;
                let mut failed = false;
                while rest.len() > 0 && !failed
                    invariant
                        all.len() == total,
                        n <= all.len(),
                        rest@ == all.skip(n as int),
                        !failed,
                        reaches(current, path@),
                        !failed ==> {
                            &&& mids.len() == n + 1
                            &&& mids[0] == copy_value
                            &&& mids.last() == current
                            &&& forall|t: int| 0 <= t < n ==> #[trigger] edits(mids[t], path@, all[t].0@, all[t].1, mids[t + 1])
                        },
                    decreases rest@.len(),
                {
                    let (key, value) = rest.remove(0);
                    proof {
                        assert(all[n as int] == (key, value));
                    }
                    let ghost prev = current;
                    let mut taken = JsonValue::Null;
                    std::mem::swap(&mut current, &mut taken);
                    match edit_member(taken, &path, 0, key, value) {
                        Some(e) => {
                            current = e;
                            proof {
                                assert(path@.skip(0) =~= path@);
                                lemma_edits_keep_reach(prev, path@, all[n as int].0@, all[n as int].1, current, path@);
                                assert(edits(prev, path@, all[n as int].0@, all[n as int].1, current));
                                mids = mids.push(current);
                                assert forall|t: int| 0 <= t < n + 1 implies #[trigger] edits(mids[t], path@, all[t].0@, all[t].1, mids[t + 1]) by {
                                    if t < n {
                                        assert(mids[t] == mids.drop_last()[t]);
                                        assert(mids[t + 1] == mids.drop_last()[t + 1]);
                                    }
                                }
                            }
                        },
                        None => {
                            proof {
                                assert(path@.skip(0) =~= path@);
                            }
                            failed = true;
                        },
                    }
                    proof {
                        assert(rest@ =~= all.skip(n + 1));
                    }
                    n = n + 1;
                }
                if failed {
                    return Err(AuthoringError::ElementMustBeObject);
                }
                proof {
                    assert(n == all.len());
                    assert(edits_in_turn(copy_value, path@, all, mids));
                    assert(command_effect(original, copy_value, p as int, k as int, i as int, current));
                }
                Ok(current)
            },
            AuthoringCommand::SetLock { id, lock } => {
                let r = self.edit_flag(p, category, k, i, "lock", lock);
                proof {
                    reveal_strlit("lock");
                    if r is Ok {
                        let e = r.unwrap();
                        let (c, pth) = choose|c: JsonValue, pth: Seq<PathStep>|
                            {
                                &&& same(c, self.state().document)
                                &&& object_data_path(pth, p as int, k as int, i as int)
                                &&& #[trigger] edits(c, pth, "lock"@, JsonValue::Bool(lock), e)
                            };
                        assert(command_effect(original, c, p as int, k as int, i as int, e));
                    }
                }
                r
            },
            AuthoringCommand::Delete { id } => Err(AuthoringError::ElementNotFound(id)),
            AuthoringCommand::Create { .. } => Err(AuthoringError::ElementMustBeObject),
            AuthoringCommand::ChangeLayer { id, layer } => {
                let r = self.edit_layers(p, k, i, layer);
                proof {
                    if r is Ok {
                        let e = r.unwrap();
                        let (c, m) = choose|c: JsonValue, m: Seq<JsonValue>|
                            {
                                &&& same(c, self.state().document)
                                &&& p < exported_pages(c).len()
                                &&& #[trigger] layer_chain(c, p as int, change_layer_plan(exported_pages(c)[p as int], k as int, i as int, layer as int), m)
                                &&& m.last() == e
                            };
                        assert(command_effect(original, c, p as int, k as int, i as int, e));
                    }
                }
                r
            },
            AuthoringCommand::SetVisible { id, visible } => {
                let r = self.edit_flag(p, category, k, i, "visible", visible);
                proof {
                    reveal_strlit("visible");
                    if r is Ok {
                        let e = r.unwrap();
                        let (c, pth) = choose|c: JsonValue, pth: Seq<PathStep>|
                            {
                                &&& same(c, self.state().document)
                                &&& object_data_path(pth, p as int, k as int, i as int)
                                &&& #[trigger] edits(c, pth, "visible"@, JsonValue::Bool(visible), e)
                            };
                        assert(command_effect(original, c, p as int, k as int, i as int, e));
                    }
                }
                r
            },
        }
    }

    fn edit_flag(&self, p: usize, category: AuthoringCategory, k: usize, i: usize, flag: &str, value: bool) -> (r: Result<
        JsonValue,
        AuthoringError,
    >)
        requires
            k < 15,
            category == all_categories()[k as int],
        ensures
            r matches Ok(e) ==> exists|copy: JsonValue, path: Seq<PathStep>|
                {
                    &&& same(copy, self.state().document)
                    &&& object_data_path(path, p as int, k as int, i as int)
                    &&& #[trigger] edits(copy, path, flag@, JsonValue::Bool(value), e)
                },
            r matches Err(x) ==> x == AuthoringError::InvalidObjectData && !object_data_is_object(
                self.state().document,
                p as int,
                k as int,
                i as int,
            ),
    {
        let copy = self.document.export_value().duplicate();
        let ghost copy_value = copy;
        let mut path: Vec<PathStep> = Vec::new();
        path.push(PathStep::Key(String::from_str("userCustomProfileCards")));
        path.push(PathStep::Index(p));
        path.push(PathStep::Key(String::from_str("customProfileCard")));
        path.push(PathStep::Key(String::from_str(category.key())));
        path.push(PathStep::Index(i));
        path.push(PathStep::Key(String::from_str("objectData")));
        proof {
            reveal_strlit("userCustomProfileCards");
            reveal_strlit("customProfileCard");
            reveal_strlit("objectData");
            assert(path@.skip(0) =~= path@);
            assert(element_path(path@.take(5), p as int, k as int, i as int));
            assert(object_data_path(path@, p as int, k as int, i as int));
        }
        match edit_member(copy, &path, 0, String::from_str(flag), JsonValue::Bool(value)) {
            Some(e) => Ok(e),
            None => {
                proof {
                    lemma_reaches_object_data(copy_value, path@, p as int, k as int, i as int);
                    lemma_same_element_at(copy_value, self.state().document, p as int, k as int, i as int);
                }
                Err(AuthoringError::InvalidObjectData)
            },
        }
    }

    /// Applies `command`: creates an element (see [`create_refusal`] and
    /// [`created`]), or acts on the element it names: sets its `objectData`
    /// flag, sets its parameters (never `objectData`), moves its layer or
    /// deletes it. The document is
    /// edited as a copy holding the same JSON and checked again; a command
    /// that changes nothing is reported without touching the history or the
    /// revision. A change is recorded for undo (the oldest entry dropped past
    /// [`AUTHORING_HISTORY_LIMIT`]) and clears redo.
    pub fn apply(&mut self, command: AuthoringCommand) -> (r: Result<AuthoringDelta, AuthoringError>)
        requires
            old(self).revision_spec() < u64::MAX,
        ensures
            r is Err ==> *final(self) == *old(self),
            old(self).gesture_spec() is Some ==> r == Err::<AuthoringDelta, AuthoringError>(
                AuthoringError::GestureInProgress,
            ),
            old(self).gesture_spec() is None && !(command is Create) && (forall|p: int, k: int, i: int|
                !located(old(self).state().ids, command_id(command), p, k, i)) ==> r == Err::<
                AuthoringDelta,
                AuthoringError,
            >(AuthoringError::ElementNotFound(command_id(command))),
            old(self).gesture_spec() is None && !(command is Create) && (exists|p: int, k: int, i: int|
                located(old(self).state().ids, command_id(command), p, k, i)) && r is Err ==> exists|p: int, k: int, i: int|
                located(old(self).state().ids, command_id(command), p, k, i) && #[trigger] command_refusal(
                    command,
                    old(self).state().document,
                    p,
                    k,
                    i,
                    flat_page(old(self).state().ids[p]).len() as int,
                    r->Err_0,
                ),
            command matches AuthoringCommand::Create { page, category, element } ==> (old(self).gesture_spec() is None
                ==> match create_refusal(*old(self), page, category, element) {
                Some(x) => r == Err::<AuthoringDelta, AuthoringError>(x),
                None => r is Ok,
            }),
            command matches AuthoringCommand::Create { page, category, element } ==> (r is Ok ==> exists|
                copy: JsonValue,
                stamped: JsonValue,
                pushed: JsonValue,
            | #[trigger] created(*old(self), *final(self), page, category, element, r.unwrap(), copy, stamped, pushed)),
            r is Ok && !(command is Delete) && !(command is Create) ==> old(self).gesture_spec() is None && exists|
                p: int,
                k: int,
                i: int,
                copy: JsonValue,
                edited: JsonValue,
            | #[trigger] applied(*old(self), *final(self), command, r.unwrap(), p, k, i, copy, edited),
            r is Ok && command is Delete ==> old(self).gesture_spec() is None && exists|
                p: int,
                k: int,
                i: int,
                copy: JsonValue,
                removed: JsonValue,
                edited: JsonValue,
            | #[trigger] deleted(*old(self), *final(self), command_id(command), r.unwrap(), p, k, i, copy, removed, edited),
    {
        if self.gesture.is_some() {
            return Err(AuthoringError::GestureInProgress);
        }
        let command = match command {
            AuthoringCommand::Create { page, category, element } => {
                return self.create(page, category, element);
            },
            other => other,
        };
        let ghost before_self = *self;
        let ghost original = command;
        let id = match &command {
            AuthoringCommand::SetLock { id, .. } => *id,
            AuthoringCommand::SetVisible { id, .. } => *id,
            AuthoringCommand::SetParameters { id, .. } => *id,
            AuthoringCommand::Delete { id } => *id,
            AuthoringCommand::ChangeLayer { id, .. } => *id,
            AuthoringCommand::Create { .. } => AuthoringElementId(0),
        };
        let (p, k, i) = match self.locate(id) {
            Some(l) => l,
            None => {
                return Err(AuthoringError::ElementNotFound(id));
            },
        };
        if k >= 15 {
            proof {
                assert(command_id(original) == id);
                assert(located(self.state().ids, id, p as int, k as int, i as int));
                assert(command_refusal(
                    original,
                    self.state().document,
                    p as int,
                    k as int,
                    i as int,
                    flat_page(self.state().ids[p as int]).len() as int,
                    AuthoringError::ElementNotFound(id),
                ));
                assert(*self == *old(self));
                let rr = Err::<AuthoringDelta, AuthoringError>(AuthoringError::ElementNotFound(id));
                assert(located(old(self).state().ids, command_id(original), p as int, k as int, i as int) && command_refusal(original, old(self).state().document, p as int, k as int, i as int, flat_page(old(self).state().ids[p as int]).len() as int, rr->Err_0));
            }
            return Err(AuthoringError::ElementNotFound(id));
        }
        if let AuthoringCommand::Delete { .. } = command {
            let r = self.delete(id, p, k, i);
            proof {
                assert(command_id(original) == id);
            }
            return r;
        }
        let cats = AuthoringCategory::all();
        let category = cats[k];
        let moves_layer = match &command {
            AuthoringCommand::ChangeLayer { .. } => true,
            _ => false,
        };
        let edited = match self.edit_copy(command, p, k, i) {
            Ok(e) => e,
            Err(x) => {
                proof {
                    assert(command_id(original) == id);
                    assert(located(self.state().ids, id, p as int, k as int, i as int));
                    assert(command_refusal(
                        original,
                        self.state().document,
                        p as int,
                        k as int,
                        i as int,
                        flat_page(self.state().ids[p as int]).len() as int,
                        x,
                    ));
                    assert(*self == *old(self));
                    let rr = Err::<AuthoringDelta, AuthoringError>(x);
                    assert(located(old(self).state().ids, command_id(original), p as int, k as int, i as int) && command_refusal(original, old(self).state().document, p as int, k as int, i as int, flat_page(old(self).state().ids[p as int]).len() as int, rr->Err_0));
                }
                return Err(x);
            },
        };
        let ghost edited_value = edited;
        let ghost copy_value = choose|copy: JsonValue|
            same(copy, self.state().document) && #[trigger] command_effect(original, copy, p as int, k as int, i as int, edited_value);
        proof {
            assert(located(self.state().ids, id, p as int, k as int, i as int));
            assert(category == all_categories()[k as int]);
        }
        let unchanged = edited.same_as(self.document.export_value());
        if unchanged {
            let d = self.delta(Vec::new());
            proof {
                assert(*self == before_self);
                assert(before_self == *old(self));
                assert(applied(*old(self), *self, original, d, p as int, k as int, i as int, copy_value, edited_value));
                assert(old(self).gesture_spec() is None);
                assert(Ok::<AuthoringDelta, AuthoringError>(d).unwrap() == d);
            }
            return Ok(d);
        }
        proof {
            lemma_same_export_valid(copy_value, self.document);
            lemma_effect_keeps_valid(original, copy_value, p as int, k as int, i as int, edited_value);
        }
        let document = match GameProfileDocument::from_export_value(edited) {
            Ok(d) => d,
            Err(e) => {
                proof {
                    assert(*self == *old(self));
                    let rr = Err::<AuthoringDelta, AuthoringError>(AuthoringError::Document(e));
                    assert(located(old(self).state().ids, command_id(original), p as int, k as int, i as int)
                        && command_refusal(original, old(self).state().document, p as int, k as int, i as int, flat_page(old(self).state().ids[p as int]).len() as int, rr->Err_0));
                }
                return Err(AuthoringError::Document(e));
            },
        };
        proof {
            assert(member(edited_value, cards_key()) is Some);
            assert(document.pages_spec() == exported_pages(edited_value));
        }
        let ghost old_state = self.state();
        let ghost old_undo = self.undo_states();
        let mut old_document = document;
        std::mem::swap(&mut self.document, &mut old_document);
        let records = if moves_layer {
            self.page_records(p)
        } else {
            vec![change_record(id, p, category, AuthoringChangeKind::Updated)]
        };
        let changes = self.filled(&records);
        let ghost at_fill = *self;
        let forward = self.filled(&records);
        let reverse = self.filled(&records);
        let ghost old_reports = self.undo_reports();
        let ghost report = HistoryReport {
            forward: fields_of(changes@),
            reverse: reversed_fields(fields_of(changes@)),
            page_forward: Seq::empty(),
            page_reverse: Seq::empty(),
        };
        let entry = HistoryEntry {
            document: old_document,
            ids: copy_ids(&self.ids),
            selected_id: self.selected_id,
            forward,
            reverse,
            page_forward: Vec::new(),
            page_reverse: Vec::new(),
        };
        proof {
            assert(fields_of(entry.forward@) =~= fields_of(changes@));
            assert forall|j: int| 0 <= j < records@.len() implies (#[trigger] records@[j]).kind == AuthoringChangeKind::Updated by {}
            assert(fields_of(entry.reverse@) =~= reversed_fields(fields_of(changes@)));
            assert(entry_report(entry) == report);
        }
        assert(entry_state(entry) == old_state);
        self.undo.push(entry);
        proof {
            assert(self.undo_states() =~= old_undo.push(old_state));
            assert(self.undo_reports() =~= old_reports.push(report));
        }
        if self.undo.len() > AUTHORING_HISTORY_LIMIT {
            let ghost grown = self.undo_states();
            let ghost grown_reports = self.undo_reports();
            self.undo.remove(0);
            proof {
                assert(self.undo_states() =~= grown.drop_first());
                assert(self.undo_reports() =~= grown_reports.drop_first());
            }
        }
        self.redo = Vec::new();
        self.revision = self.revision + 1;
        proof {
            assert(self.redo_states() =~= Seq::<SessionState>::empty());
            assert(self.redo_reports() =~= Seq::<HistoryReport>::empty());
        }
        let d = self.delta(changes);
        proof {
            if !moves_layer {
                assert(change_fields(d.changes@[0]) == change_fields(records@[0]));
            } else {
                assert forall|j: int| 0 <= j < d.changes@.len() implies {
                    &&& (#[trigger] d.changes@[j]).id == flat_page(before_self.state().ids[p as int])[j]
                    &&& d.changes@[j].page == p as usize
                    &&& d.changes@[j].kind == AuthoringChangeKind::Updated
                } by {
                    assert(change_fields(d.changes@[j]) == change_fields(records@[j]));
                }
            }
            assert(command_id(original) == id);
            assert(self.undo_states() == recorded(before_self.undo_states(), before_self.state()));
            assert(before_self == *old(self));
            lemma_carry_transfer(at_fill, *self, d.changes@);
            assert(applied(*old(self), *self, original, d, p as int, k as int, i as int, copy_value, edited_value));
            assert(old(self).gesture_spec() is None);
            assert(Ok::<AuthoringDelta, AuthoringError>(d).unwrap() == d);
        }
        Ok(d)
    }

    /// Undoes the last recorded change: brings back the state before it and
    /// keeps the state it replaces for redo. `None` when there is nothing to
    /// undo; refused during a gesture.
    pub fn undo(&mut self) -> (r: Result<Option<AuthoringDelta>, AuthoringError>)
        requires
            old(self).revision_spec() < u64::MAX,
        ensures
            old(self).gesture_spec() is Some ==> r == Err::<Option<AuthoringDelta>, AuthoringError>(
                AuthoringError::GestureInProgress,
            ),
            r is Err ==> *final(self) == *old(self),
            old(self).gesture_spec() is None && old(self).undo_states().len() == 0 ==> r == Ok::<
                Option<AuthoringDelta>,
                AuthoringError,
            >(None) && *final(self) == *old(self),
            old(self).gesture_spec() is None && old(self).undo_states().len() > 0 ==> {
                &&& r matches Ok(Some(d))
                &&& undone(*old(self), *final(self))
                &&& undo_reported(*old(self), *final(self), d)
                &&& final(self).state() == old(self).undo_states().last()
                &&& final(self).undo_states() == old(self).undo_states().drop_last()
                &&& final(self).redo_states() == old(self).redo_states().push(old(self).state())
                &&& final(self).revision_spec() == old(self).revision_spec() + 1
                &&& final(self).gesture_spec() is None
                &&& final(self).next_id_spec() == old(self).next_id_spec()
                &&& d.revision == final(self).revision_spec()
                &&& d.selected_id == final(self).state().selected_id
            },
    {
        if self.gesture.is_some() {
            return Err(AuthoringError::GestureInProgress);
        }
        if self.undo.len() == 0 {
            return Ok(None);
        }
        let ghost old_state = self.state();
        let ghost old_undo = self.undo_states();
        let ghost old_redo = self.redo_states();
        let ghost old_undo_reports = self.undo_reports();
        let ghost old_redo_reports = self.redo_reports();
        let mut entry = self.undo.pop().unwrap();
        proof {
            assert(self.undo_states() =~= old_undo.drop_last());
            assert(entry_state(entry) == old_undo.last());
            assert(self.undo_reports() =~= old_undo_reports.drop_last());
            assert(entry_report(entry) == old_undo_reports.last());
        }
        std::mem::swap(&mut self.document, &mut entry.document);
        std::mem::swap(&mut self.ids, &mut entry.ids);
        std::mem::swap(&mut self.selected_id, &mut entry.selected_id);
        let changes = self.filled(&entry.reverse);
        let ghost at_fill = *self;
        let page_changes = entry.page_reverse.clone();
        let ghost report = entry_report(entry);
        assert(entry_state(entry) == old_state);
        self.redo.push(entry);
        proof {
            assert(self.redo_states() =~= old_redo.push(old_state));
            assert(self.redo_reports() =~= old_redo_reports.push(report));
            assert(fields_of(changes@) =~= report.reverse);
            assert(page_changes@ =~= report.page_reverse);
        }
        self.revision = self.revision + 1;
        let mut d = self.delta(changes);
        d.page_changes = page_changes;
        proof {
            lemma_carry_transfer(at_fill, *self, d.changes@);
        }
        Ok(Some(d))
    }

    /// Redoes the last undone change: brings back the state undo replaced
    /// and keeps the state it replaces for undo.
    pub fn redo(&mut self) -> (r: Result<Option<AuthoringDelta>, AuthoringError>)
        requires
            old(self).revision_spec() < u64::MAX,
        ensures
            old(self).gesture_spec() is Some ==> r == Err::<Option<AuthoringDelta>, AuthoringError>(
                AuthoringError::GestureInProgress,
            ),
            r is Err ==> *final(self) == *old(self),
            old(self).gesture_spec() is None && old(self).redo_states().len() == 0 ==> r == Ok::<
                Option<AuthoringDelta>,
                AuthoringError,
            >(None) && *final(self) == *old(self),
            old(self).gesture_spec() is None && old(self).redo_states().len() > 0 ==> {
                &&& r matches Ok(Some(d))
                &&& redone(*old(self), *final(self))
                &&& redo_reported(*old(self), *final(self), d)
                &&& final(self).state() == old(self).redo_states().last()
                &&& final(self).redo_states() == old(self).redo_states().drop_last()
                &&& final(self).undo_states() == old(self).undo_states().push(old(self).state())
                &&& final(self).revision_spec() == old(self).revision_spec() + 1
                &&& final(self).gesture_spec() is None
                &&& final(self).next_id_spec() == old(self).next_id_spec()
                &&& d.revision == final(self).revision_spec()
                &&& d.selected_id == final(self).state().selected_id
            },
    {
        if self.gesture.is_some() {
            return Err(AuthoringError::GestureInProgress);
        }
        if self.redo.len() == 0 {
            return Ok(None);
        }
        let ghost old_state = self.state();
        let ghost old_undo = self.undo_states();
        let ghost old_redo = self.redo_states();
        let ghost old_undo_reports = self.undo_reports();
        let ghost old_redo_reports = self.redo_reports();
        let mut entry = self.redo.pop().unwrap();
        proof {
            assert(self.redo_states() =~= old_redo.drop_last());
            assert(entry_state(entry) == old_redo.last());
            assert(self.redo_reports() =~= old_redo_reports.drop_last());
            assert(entry_report(entry) == old_redo_reports.last());
        }
        std::mem::swap(&mut self.document, &mut entry.document);
        std::mem::swap(&mut self.ids, &mut entry.ids);
        std::mem::swap(&mut self.selected_id, &mut entry.selected_id);
        let changes = self.filled(&entry.forward);
        let ghost at_fill = *self;
        let page_changes = entry.page_forward.clone();
        let ghost report = entry_report(entry);
        assert(entry_state(entry) == old_state);
        self.undo.push(entry);
        proof {
            assert(self.undo_states() =~= old_undo.push(old_state));
            assert(self.undo_reports() =~= old_undo_reports.push(report));
            assert(fields_of(changes@) =~= report.forward);
            assert(page_changes@ =~= report.page_forward);
        }
        self.revision = self.revision + 1;
        let mut d = self.delta(changes);
        d.page_changes = page_changes;
        proof {
            lemma_carry_transfer(at_fill, *self, d.changes@);
        }
        Ok(Some(d))
    }
}


impl AuthoringSession {
    /// Begins a gesture on element `id` and selects it.
    pub fn begin_gesture(&mut self, id: AuthoringElementId) -> (r: Result<AuthoringDelta, AuthoringError>)
        ensures
            old(self).gesture_spec() is Some ==> r == Err::<AuthoringDelta, AuthoringError>(
                AuthoringError::GestureAlreadyActive,
            ),
            old(self).gesture_spec() is None && (forall|p: int, k: int, i: int| !located(old(self).state().ids, id, p, k, i))
                ==> r == Err::<AuthoringDelta, AuthoringError>(AuthoringError::ElementNotFound(id)),
            old(self).gesture_spec() is None && (exists|p: int, k: int, i: int| located(old(self).state().ids, id, p, k, i))
                ==> r is Ok,
            r is Err ==> *final(self) == *old(self),
            r is Ok ==> {
                &&& old(self).gesture_spec() is None
                &&& final(self).gesture_spec() == Some(id)
                &&& final(self).gesture_selection() == old(self).state().selected_id
                &&& final(self).gesture_document() is None
                &&& final(self).state() == SessionState { selected_id: Some(id), ..old(self).state() }
                &&& final(self).revision_spec() == old(self).revision_spec()
                &&& final(self).undo_states() == old(self).undo_states()
                &&& final(self).redo_states() == old(self).redo_states()
                &&& final(self).pages_spec() == old(self).pages_spec()
                &&& r.unwrap().changes@.len() == 0
            },
    {
        if self.gesture.is_some() {
            return Err(AuthoringError::GestureAlreadyActive);
        }
        match self.locate(id) {
            Some(_) => {},
            None => {
                return Err(AuthoringError::ElementNotFound(id));
            },
        }
        self.gesture = Some((id, self.selected_id));
        self.gesture_before = None;
        self.selected_id = Some(id);
        Ok(self.delta(Vec::new()))
    }

    /// Previews a parameter command on the gesture's element: the document
    /// changes, the history does not. Any other command is refused as a
    /// mismatch, as is a command on another element.
    pub fn preview_gesture(&mut self, command: AuthoringCommand) -> (r: Result<AuthoringDelta, AuthoringError>)
        ensures
            r is Err ==> *final(self) == *old(self),
            !(command is SetParameters) ==> r == Err::<AuthoringDelta, AuthoringError>(
                AuthoringError::GestureElementMismatch,
            ),
            command is SetParameters && old(self).gesture_spec() is None ==> r == Err::<AuthoringDelta, AuthoringError>(
                AuthoringError::GestureNotActive,
            ),
            command is SetParameters && old(self).gesture_spec() is Some && old(self).gesture_spec() != Some(
                command_id(command),
            ) ==> r == Err::<AuthoringDelta, AuthoringError>(AuthoringError::GestureElementMismatch),
            command is SetParameters && old(self).gesture_spec() == Some(command_id(command)) && r is Err ==> {
                ||| (forall|p: int, k: int, i: int| !located(old(self).state().ids, command_id(command), p, k, i))
                    && r == Err::<AuthoringDelta, AuthoringError>(AuthoringError::ElementNotFound(command_id(command)))
                ||| exists|p: int, k: int, i: int|
                    located(old(self).state().ids, command_id(command), p, k, i) && #[trigger] command_refusal(
                        command,
                        old(self).state().document,
                        p,
                        k,
                        i,
                        flat_page(old(self).state().ids[p]).len() as int,
                        r->Err_0,
                    )
            },
            r is Ok ==> exists|p: int, k: int, i: int, copy: JsonValue, edited: JsonValue|
                {
                    &&& located(old(self).state().ids, command_id(command), p, k, i)
                    &&& same(copy, old(self).state().document)
                    &&& #[trigger] command_effect(command, copy, p, k, i, edited)
                    &&& final(self).pages_spec() == exported_pages(edited)
                    &&& final(self).state().ids == old(self).state().ids
                    &&& final(self).state().selected_id == old(self).state().selected_id
                    &&& final(self).gesture_spec() == old(self).gesture_spec()
                    &&& final(self).gesture_selection() == old(self).gesture_selection()
                    &&& final(self).gesture_document() == if old(self).gesture_document() is None {
                        Some(old(self).state().document)
                    } else {
                        old(self).gesture_document()
                    }
                    &&& final(self).revision_spec() == old(self).revision_spec()
                    &&& final(self).undo_states() == old(self).undo_states()
                    &&& final(self).redo_states() == old(self).redo_states()
                },
    {
        let id = match &command {
            AuthoringCommand::SetParameters { id, .. } => *id,
            _ => {
                return Err(AuthoringError::GestureElementMismatch);
            },
        };
        match self.gesture {
            None => {
                return Err(AuthoringError::GestureNotActive);
            },
            Some((g, _)) => if g != id {
                return Err(AuthoringError::GestureElementMismatch);
            },
        }
        let ghost original = command;
        let (p, k, i) = match self.locate(id) {
            Some(l) => l,
            None => {
                proof {
                    assert(command_id(original) == id);
                }
                return Err(AuthoringError::ElementNotFound(id));
            },
        };
        if k >= 15 {
            proof {
                assert(command_id(original) == id);
                let rr = Err::<AuthoringDelta, AuthoringError>(AuthoringError::ElementNotFound(id));
                assert(located(old(self).state().ids, command_id(original), p as int, k as int, i as int)
                    && command_refusal(original, old(self).state().document, p as int, k as int, i as int, flat_page(old(self).state().ids[p as int]).len() as int, rr->Err_0));
            }
            return Err(AuthoringError::ElementNotFound(id));
        }
        let cats = AuthoringCategory::all();
        let category = cats[k];
        let edited = match self.edit_copy(command, p, k, i) {
            Ok(e) => e,
            Err(x) => {
                proof {
                    assert(command_id(original) == id);
                    let rr = Err::<AuthoringDelta, AuthoringError>(x);
                    assert(located(old(self).state().ids, command_id(original), p as int, k as int, i as int)
                        && command_refusal(original, old(self).state().document, p as int, k as int, i as int, flat_page(old(self).state().ids[p as int]).len() as int, rr->Err_0));
                }
                return Err(x);
            },
        };
        let ghost edited_value = edited;
        let ghost copy_value = choose|copy: JsonValue|
            same(copy, self.state().document) && #[trigger] command_effect(original, copy, p as int, k as int, i as int, edited_value);
        let current = self.document.export_value();
        proof {
            assert(*current == self.state().document);
            lemma_same_export_valid(copy_value, self.document);
            lemma_effect_keeps_valid(original, copy_value, p as int, k as int, i as int, edited_value);
        }
        let document = match GameProfileDocument::from_export_value(edited) {
            Ok(d) => d,
            Err(e) => {
                proof {
                    assert(command_id(original) == id);
                    let rr = Err::<AuthoringDelta, AuthoringError>(AuthoringError::Document(e));
                    assert(located(old(self).state().ids, command_id(original), p as int, k as int, i as int)
                        && command_refusal(original, old(self).state().document, p as int, k as int, i as int, flat_page(old(self).state().ids[p as int]).len() as int, rr->Err_0));
                }
                return Err(AuthoringError::Document(e));
            },
        };
        proof {
            assert(member(edited_value, cards_key()) is Some);
            assert(document.pages_spec() == exported_pages(edited_value));
            assert(located(self.state().ids, id, p as int, k as int, i as int));
        }
        let ghost old_state = self.state();
        let mut old_document = document;
        std::mem::swap(&mut self.document, &mut old_document);
        if self.gesture_before.is_none() {
            self.gesture_before = Some(old_document);
        }
        let records = vec![change_record(id, p, category, AuthoringChangeKind::Updated)];
        let changes = self.filled(&records);
        let d = self.delta(changes);
        proof {
            assert(command_id(original) == id);
        }
        Ok(d)
    }

    /// Ends the active gesture. When its previews changed the document, the
    /// change since the gesture began is recorded as one undo entry and
    /// redo is cleared; the element stays selected.
    pub fn commit_gesture(&mut self) -> (r: Result<AuthoringDelta, AuthoringError>)
        requires
            old(self).revision_spec() < u64::MAX,
        ensures
            old(self).gesture_spec() is None ==> r == Err::<AuthoringDelta, AuthoringError>(
                AuthoringError::GestureNotActive,
            ) && *final(self) == *old(self),
            old(self).gesture_spec() is Some ==> {
                &&& r is Ok
                &&& final(self).gesture_spec() is None
                &&& final(self).gesture_document() is None
                &&& final(self).state() == old(self).state()
                &&& match old(self).gesture_document() {
                    Some(before) => if same(before, old(self).state().document) {
                        &&& final(self).revision_spec() == old(self).revision_spec()
                        &&& final(self).undo_states() == old(self).undo_states()
                        &&& final(self).redo_states() == old(self).redo_states()
                        &&& r.unwrap().changes@.len() == 0
                    } else {
                        &&& final(self).revision_spec() == old(self).revision_spec() + 1
                        &&& final(self).undo_states() == recorded(
                            old(self).undo_states(),
                            SessionState {
                                document: before,
                                ids: old(self).state().ids,
                                selected_id: old(self).gesture_selection(),
                            },
                        )
                        &&& final(self).redo_states().len() == 0
                    },
                    None => {
                        &&& final(self).revision_spec() == old(self).revision_spec()
                        &&& final(self).undo_states() == old(self).undo_states()
                        &&& final(self).redo_states() == old(self).redo_states()
                        &&& r.unwrap().changes@.len() == 0
                    },
                }
            },
    {
        let (id, selection_before) = match self.gesture {
            Some(g) => g,
            None => {
                return Err(AuthoringError::GestureNotActive);
            },
        };
        let ghost old_state = self.state();
        let ghost old_undo = self.undo_states();
        self.gesture = None;
        let mut before: Option<GameProfileDocument> = None;
        std::mem::swap(&mut self.gesture_before, &mut before);
        match before {
            None => Ok(self.delta(Vec::new())),
            Some(doc) => {
                if doc.export_value().same_as(self.document.export_value()) {
                    return Ok(self.delta(Vec::new()));
                }
                let cats = AuthoringCategory::all();
                let records = match self.locate(id) {
                    Some((p, k, _)) => if k < 15 {
                        vec![change_record(id, p, cats[k], AuthoringChangeKind::Updated)]
                    } else {
                        Vec::new()
                    },
                    None => Vec::new(),
                };
                let ghost before_value = doc.value();
                let entry = HistoryEntry {
                    document: doc,
                    ids: copy_ids(&self.ids),
                    selected_id: selection_before,
                    forward: self.filled(&records),
                    reverse: self.filled(&records),
                    page_forward: Vec::new(),
                    page_reverse: Vec::new(),
                };
                assert(entry_state(entry) == SessionState {
                    document: before_value,
                    ids: old_state.ids,
                    selected_id: selection_before,
                });
                self.undo.push(entry);
                proof {
                    assert(self.undo_states() =~= old_undo.push(entry_state(entry)));
                }
                if self.undo.len() > AUTHORING_HISTORY_LIMIT {
                    let ghost grown = self.undo_states();
                    self.undo.remove(0);
                    proof {
                        assert(self.undo_states() =~= grown.drop_first());
                    }
                }
                self.redo = Vec::new();
                self.revision = self.revision + 1;
                proof {
                    assert(self.redo_states() =~= Seq::<SessionState>::empty());
                }
                let changes = self.filled(&records);
                Ok(self.delta(changes))
            },
        }
    }

    /// Cancels the active gesture: the document it found and the selection
    /// it found come back.
    pub fn cancel_gesture(&mut self) -> (r: Result<AuthoringDelta, AuthoringError>)
        ensures
            old(self).gesture_spec() is None ==> r == Err::<AuthoringDelta, AuthoringError>(
                AuthoringError::GestureNotActive,
            ) && *final(self) == *old(self),
            old(self).gesture_spec() is Some ==> {
                &&& r is Ok
                &&& final(self).gesture_spec() is None
                &&& final(self).gesture_document() is None
                &&& final(self).state() == SessionState {
                    document: match old(self).gesture_document() {
                        Some(before) => before,
                        None => old(self).state().document,
                    },
                    ids: old(self).state().ids,
                    selected_id: old(self).gesture_selection(),
                }
                &&& final(self).revision_spec() == old(self).revision_spec()
                &&& final(self).undo_states() == old(self).undo_states()
                &&& final(self).redo_states() == old(self).redo_states()
            },
    {
        let (id, selected) = match self.gesture {
            Some(g) => g,
            None => {
                return Err(AuthoringError::GestureNotActive);
            },
        };
        self.gesture = None;
        self.selected_id = selected;
        let mut before: Option<GameProfileDocument> = None;
        std::mem::swap(&mut self.gesture_before, &mut before);
        match before {
            Some(mut doc) => {
                std::mem::swap(&mut self.document, &mut doc);
            },
            None => {},
        }
        let cats = AuthoringCategory::all();
        let records = match self.locate(id) {
            Some((p, k, _)) => if k < 15 {
                vec![change_record(id, p, cats[k], AuthoringChangeKind::Updated)]
            } else {
                Vec::new()
            },
            None => Vec::new(),
        };
        let changes = self.filled(&records);
        Ok(self.delta(changes))
    }
}


/// `path` leads to the array of category `k` on page `p` of an exported
/// profile.
pub open spec fn category_path(path: Seq<PathStep>, p: int, k: int) -> bool {
    &&& path.len() == 4
    &&& path[0] matches PathStep::Key(a) && a@ == cards_key()
    &&& path[1] == PathStep::Index(p as usize)
    &&& path[2] matches PathStep::Key(b) && b@ == "customProfileCard"@
    &&& path[3] matches PathStep::Key(c) && c@ == category_key(all_categories()[k])
}

/// The layer an element stands at: its `objectData.layer` when that is a
/// non-negative integer, else 0.
pub open spec fn layer_of(e: JsonValue) -> int {
    match member(e, "objectData"@) {
        Some(od) => match member(od, "layer"@) {
            Some(JsonValue::Number(JsonNumber::PosInt(n))) => n as int,
            _ => 0,
        },
        None => 0,
    }
}

/// Whether an element's `objectData.layer` is the integer `layer`.
pub open spec fn has_layer(e: JsonValue, layer: int) -> bool {
    match member(e, "objectData"@) {
        Some(od) => member(od, "layer"@) == Some(JsonValue::Number(JsonNumber::PosInt(layer as u64))),
        None => false,
    }
}

/// The elements of a page's first `k` categories, as (category index,
/// position), category by category.
pub open spec fn page_slots(page: JsonValue, k: int) -> Seq<(int, int)>
    decreases k,
{
    if k <= 0 {
        Seq::empty()
    } else {
        page_slots(page, k - 1) + Seq::new(
            page_elements(page, all_categories()[k - 1]).len(),
            |t: int| (k - 1, t),
        )
    }
}

/// The element at a slot of a page.
pub open spec fn slot_element(page: JsonValue, slot: (int, int)) -> JsonValue {
    page_elements(page, all_categories()[slot.0])[slot.1]
}

/// The layers of a page's elements, slot by slot.
pub open spec fn slot_layers(page: JsonValue) -> Seq<int> {
    page_slots(page, 15).map_values(|s: (int, int)| layer_of(slot_element(page, s)))
}

/// How many of the first `m` slots come before slot `j` when the elements
/// are ordered by layer, slot order breaking ties.
pub open spec fn rank_below(layers: Seq<int>, j: int, m: int) -> int
    decreases m,
{
    if m <= 0 {
        0
    } else {
        rank_below(layers, j, m - 1) + if layers[m - 1] < layers[j] || (layers[m - 1] == layers[j] && m - 1 < j) {
            1int
        } else {
            0int
        }
    }
}

/// The layers the first `j` slots of a page are given, with their slots,
/// where they differ from what they hold: renumbering to `0..count` in
/// layer order.
pub open spec fn renumbering_from(page: JsonValue, j: int) -> Seq<(int, int, int)>
    decreases j,
{
    if j <= 0 {
        Seq::empty()
    } else {
        let slot = page_slots(page, 15)[j - 1];
        let rank = rank_below(slot_layers(page), j - 1, slot_layers(page).len() as int);
        renumbering_from(page, j - 1) + if has_layer(slot_element(page, slot), rank) {
            Seq::empty()
        } else {
            seq![(slot.0, slot.1, rank)]
        }
    }
}

/// The layers a page's elements are given where they change.
pub open spec fn renumbering(page: JsonValue) -> Seq<(int, int, int)> {
    renumbering_from(page, page_slots(page, 15).len() as int)
}

/// `b` is `a` with the layer of element `(entry.0, entry.1)` of page `p`
/// set to `entry.2`.
pub open spec fn layer_step(a: JsonValue, b: JsonValue, p: int, entry: (int, int, int)) -> bool {
    exists|path: Seq<PathStep>|
        object_data_path(path, p, entry.0, entry.1) && #[trigger] edits(
            a,
            path,
            "layer"@,
            JsonValue::Number(JsonNumber::PosInt(entry.2 as u64)),
            b,
        )
}

/// `mids` walks from `v`, setting in turn the layer of each listed element
/// of page `p` to its listed layer.
pub open spec fn layer_chain(v: JsonValue, p: int, list: Seq<(int, int, int)>, mids: Seq<JsonValue>) -> bool {
    &&& mids.len() == list.len() + 1
    &&& mids[0] == v
    &&& forall|t: int| 0 <= t < list.len() ==> #[trigger] layer_step(mids[t], mids[t + 1], p, list[t])
}

/// `removed` is `copy` with element `i` of category `k` on page `p`
/// removed, and `edited` is `removed` with the page's layers renumbered.
pub open spec fn delete_effect(copy: JsonValue, p: int, k: int, i: int, removed: JsonValue, edited: JsonValue) -> bool {
    exists|path: Seq<PathStep>, mids: Seq<JsonValue>|
        {
            &&& category_path(path, p, k)
            &&& #[trigger] removes(copy, path, i, removed)
            &&& p < exported_pages(removed).len()
            &&& #[trigger] layer_chain(removed, p, renumbering(exported_pages(removed)[p]), mids)
            &&& mids.last() == edited
        }
}

/// The elements a renumbering `plan` of page `p`, whose IDs are `row`,
/// reports as updated, in the order of the plan.
pub open spec fn renumbered_fields(row: Seq<Seq<AuthoringElementId>>, plan: Seq<(int, int, int)>, p: int) -> Seq<
    (AuthoringElementId, usize, AuthoringCategory, AuthoringChangeKind),
>
    decreases plan.len(),
{
    if plan.len() == 0 {
        Seq::empty()
    } else {
        let e = plan.last();
        renumbered_fields(row, plan.drop_last(), p) + if 0 <= e.0 < 15 && e.0 < row.len() && 0 <= e.1 < row[e.0].len() {
            seq![(row[e.0][e.1], p as usize, all_categories()[e.0], AuthoringChangeKind::Updated)]
        } else {
            Seq::empty()
        }
    }
}

/// The ID table with the ID at `(p, k, i)` taken out.
pub open spec fn without_id(table: Seq<Seq<Seq<AuthoringElementId>>>, p: int, k: int, i: int) -> Seq<Seq<Seq<AuthoringElementId>>> {
    table.update(p, table[p].update(k, table[p][k].remove(i)))
}

/// `after` and `delta` are what deleting element `id`, found at `(p, k, i)`,
/// from `before` gives.
pub open spec fn deleted(
    before: AuthoringSession,
    after: AuthoringSession,
    id: AuthoringElementId,
    delta: AuthoringDelta,
    p: int,
    k: int,
    i: int,
    copy: JsonValue,
    removed: JsonValue,
    edited: JsonValue,
) -> bool {
    &&& located(before.state().ids, id, p, k, i)
    &&& same(copy, before.state().document)
    &&& delete_effect(copy, p, k, i, removed, edited)
    &&& fields_of(delta.changes@) == seq![(id, p as usize, all_categories()[k], AuthoringChangeKind::Removed)]
        + renumbered_fields(after.state().ids[p], renumbering(exported_pages(removed)[p]), p)
    &&& after.pages_spec() == exported_pages(edited)
    &&& after.state().ids == without_id(before.state().ids, p, k, i)
    &&& after.state().selected_id == if before.state().selected_id == Some(id) {
        None
    } else {
        before.state().selected_id
    }
    &&& after.revision_spec() == before.revision_spec() + 1
    &&& after.undo_states() == recorded(before.undo_states(), before.state())
    &&& after.redo_states().len() == 0
    &&& after.undo_reports() == recorded_reports(before.undo_reports(), change_report(delta))
    &&& after.redo_reports().len() == 0
    &&& after.gesture_spec() is None
    &&& after.next_id_spec() == before.next_id_spec()
    &&& delta.page_changes@.len() == 0
    &&& all_carry_elements(after, delta.changes@)
    &&& delta.changes@.len() >= 1
    &&& change_fields(delta.changes@[0]) == (id, p as usize, all_categories()[k], AuthoringChangeKind::Removed)
    &&& delta.revision == after.revision_spec()
    &&& delta.can_undo == (after.undo_states().len() > 0)
    &&& delta.can_redo == (after.redo_states().len() > 0)
    &&& delta.selected_id == after.state().selected_id
}

fn element_layer(e: &JsonValue) -> (r: u64)
    ensures
        r as int == layer_of(*e),
{
    match e.get("objectData") {
        Some(od) => match od.get("layer") {
            Some(JsonValue::Number(JsonNumber::PosInt(n))) => *n,
            _ => 0,
        },
        None => 0,
    }
}

fn at_layer(e: &JsonValue, layer: u64) -> (r: bool)
    ensures
        r == has_layer(*e, layer as int),
{
    match e.get("objectData") {
        Some(od) => match od.get("layer") {
            Some(JsonValue::Number(JsonNumber::PosInt(n))) => *n == layer,
            _ => false,
        },
        None => false,
    }
}

proof fn lemma_page_slots_bounds(page: JsonValue, k: int)
    requires
        0 <= k <= 15,
    ensures
        forall|t: int|
            0 <= t < page_slots(page, k).len() ==> {
                let s = #[trigger] page_slots(page, k)[t];
                &&& 0 <= s.0 < k
                &&& 0 <= s.1 < page_elements(page, all_categories()[s.0]).len()
            },
    decreases k,
{
    if k > 0 {
        lemma_page_slots_bounds(page, k - 1);
        let prev = page_slots(page, k - 1);
        let added = Seq::new(page_elements(page, all_categories()[k - 1]).len(), |t: int| (k - 1, t));
        assert forall|t: int| 0 <= t < page_slots(page, k).len() implies {
            let s = #[trigger] page_slots(page, k)[t];
            &&& 0 <= s.0 < k
            &&& 0 <= s.1 < page_elements(page, all_categories()[s.0]).len()
        } by {
            if t < prev.len() {
                assert(page_slots(page, k)[t] == prev[t]);
            } else {
                assert(page_slots(page, k)[t] == added[t - prev.len()]);
            }
        }
    }
}

/// The slots of a page and the layer of the element in each.
fn slots_and_layers(page: &JsonValue) -> (r: (Vec<(usize, usize)>, Vec<u64>))
    ensures
        r.0@.map_values(|s: (usize, usize)| (s.0 as int, s.1 as int)) == page_slots(*page, 15),
        r.1@.len() == r.0@.len(),
        forall|t: int| 0 <= t < r.1@.len() ==> (#[trigger] r.1@[t]) as int == layer_of(slot_element(*page, page_slots(*page, 15)[t])),
{
    let cats = AuthoringCategory::all();
    let mut slots: Vec<(usize, usize)> = Vec::new();
    let mut layers: Vec<u64> = Vec::new();
    let mut k: usize = 0;
    while k < 15
        invariant
            cats@ == all_categories(),
            k <= 15,
            slots@.map_values(|s: (usize, usize)| (s.0 as int, s.1 as int)) == page_slots(*page, k as int),
            layers@.len() == slots@.len(),
            forall|t: int|
                0 <= t < layers@.len() ==> (#[trigger] layers@[t]) as int == layer_of(
                    slot_element(*page, page_slots(*page, k as int)[t]),
                ),
        decreases 15 - k,
    {
        let ghost before_slots = page_slots(*page, k as int);
        let ghost before_layers = layers@;
        match category_elements(page, cats[k]) {
            Some(items) => {
                let mut t: usize = 0;
                let ghost base = slots@.len();
                while t < items.len()
                    invariant
                        cats@ == all_categories(),
                        k < 15,
                        items@ == page_elements(*page, all_categories()[k as int]),
                        t <= items@.len(),
                        slots@.len() == base + t,
                        layers@.len() == slots@.len(),
                        slots@.map_values(|s: (usize, usize)| (s.0 as int, s.1 as int)) == before_slots + Seq::new(
                            t as nat,
                            |u: int| (k as int, u),
                        ),
                        before_slots == page_slots(*page, k as int),
                        base == before_slots.len(),
                        forall|u: int|
                            0 <= u < layers@.len() ==> (#[trigger] layers@[u]) as int == layer_of(
                                slot_element(*page, (before_slots + Seq::new(t as nat, |w: int| (k as int, w)))[u]),
                            ),
                    decreases items@.len() - t,
                {
                    let ghost old_slots = slots@;
                    let ghost old_layers = layers@;
                    slots.push((k, t));
                    layers.push(element_layer(&items[t]));
                    t = t + 1;
                    proof {
                        let grown = before_slots + Seq::new(t as nat, |w: int| (k as int, w));
                        assert(slots@ == old_slots.push((k, (t - 1) as usize)));
                        assert(slots@.map_values(|s: (usize, usize)| (s.0 as int, s.1 as int)) =~= old_slots.map_values(
                            |s: (usize, usize)| (s.0 as int, s.1 as int),
                        ).push((k as int, (t - 1) as int)));
                        assert(grown =~= (before_slots + Seq::new((t - 1) as nat, |w: int| (k as int, w))).push(
                            (k as int, (t - 1) as int),
                        ));
                        assert(slots@.map_values(|s: (usize, usize)| (s.0 as int, s.1 as int)) =~= grown);
                        assert forall|u: int| 0 <= u < layers@.len() implies (#[trigger] layers@[u]) as int == layer_of(
                            slot_element(*page, grown[u]),
                        ) by {
                            if u < old_layers.len() {
                                assert(grown[u] == (before_slots + Seq::new((t - 1) as nat, |w: int| (k as int, w)))[u]);
                            } else {
                                assert(grown[u] == (k as int, (t - 1) as int));
                            }
                        }
                    }
                }
                proof {
                    assert(page_slots(*page, k + 1) =~= before_slots + Seq::new(
                        items@.len(),
                        |u: int| (k as int, u),
                    ));
                }
            },
            None => {
                proof {
                    assert(page_slots(*page, k + 1) =~= before_slots);
                }
            },
        }
        k = k + 1;
    }
    (slots, layers)
}

/// The renumbering of a page, computed.
fn renumber_list(page: &JsonValue) -> (r: Vec<(usize, usize, u64)>)
    ensures
        r@.map_values(|e: (usize, usize, u64)| (e.0 as int, e.1 as int, e.2 as int)) == renumbering(*page),
{
    let cats = AuthoringCategory::all();
    let (slots, layers) = slots_and_layers(page);
    let ghost all_slots = page_slots(*page, 15);
    let ghost all_layers = slot_layers(*page);
    proof {
        assert(layers@.len() == all_slots.len());
        assert forall|t: int| 0 <= t < layers@.len() implies (#[trigger] layers@[t]) as int == all_layers[t] by {}
        lemma_page_slots_bounds(*page, 15);
    }
    let n = layers.len();
    let mut out: Vec<(usize, usize, u64)> = Vec::new();
    let mut j: usize = 0;
    while j < n
        invariant
            cats@ == all_categories(),
            n == layers@.len(),
            all_slots == page_slots(*page, 15),
            all_layers == slot_layers(*page),
            all_layers.len() == n,
            slots@.map_values(|s: (usize, usize)| (s.0 as int, s.1 as int)) == all_slots,
            forall|t: int| 0 <= t < n ==> (#[trigger] layers@[t]) as int == all_layers[t],
            forall|t: int|
                0 <= t < all_slots.len() ==> {
                    let s = #[trigger] all_slots[t];
                    &&& 0 <= s.0 < 15
                    &&& 0 <= s.1 < page_elements(*page, all_categories()[s.0]).len()
                },
            j <= n,
            out@.map_values(|e: (usize, usize, u64)| (e.0 as int, e.1 as int, e.2 as int)) == renumbering_from(*page, j as int),
        decreases n - j,
    {
        let mut rank: u64 = 0;
        let mut m: usize = 0;
        while m < n
            invariant
                n == layers@.len(),
                all_layers.len() == n,
                forall|t: int| 0 <= t < n ==> (#[trigger] layers@[t]) as int == all_layers[t],
                j < n,
                m <= n,
                rank as int == rank_below(all_layers, j as int, m as int),
                rank <= m,
            decreases n - m,
        {
            if layers[m] < layers[j] || (layers[m] == layers[j] && m < j) {
                rank = rank + 1;
            }
            m = m + 1;
        }
        let (sk, si) = slots[j];
        proof {
            assert(all_slots[j as int] == (sk as int, si as int));
        }
        let items = category_elements(page, cats[sk]).unwrap();
        let ghost before = out@;
        if !at_layer(&items[si], rank) {
            out.push((sk, si, rank));
        }
        j = j + 1;
        proof {
            assert(out@.map_values(|e: (usize, usize, u64)| (e.0 as int, e.1 as int, e.2 as int)) =~= renumbering_from(*page, j as int));
        }
    }
    out
}

fn remove_id(ids: &mut Vec<Vec<Vec<AuthoringElementId>>>, p: usize, k: usize, i: usize)
    requires
        p < old(ids)@.len(),
        k < old(ids)@[p as int]@.len(),
        i < old(ids)@[p as int]@[k as int]@.len(),
    ensures
        id_table(*final(ids)) == without_id(id_table(*old(ids)), p as int, k as int, i as int),
{
    let ghost before = id_table(*ids);
    let mut row: Vec<Vec<AuthoringElementId>> = Vec::new();
    std::mem::swap(&mut row, &mut ids[p]);
    let mut cell: Vec<AuthoringElementId> = Vec::new();
    std::mem::swap(&mut cell, &mut row[k]);
    cell.remove(i);
    row.set(k, cell);
    ids.set(p, row);
    proof {
        assert(id_table(*ids)[p as int] =~= before[p as int].update(k as int, before[p as int][k as int].remove(i as int)));
        assert(id_table(*ids) =~= without_id(before, p as int, k as int, i as int));
    }
}

fn object_data_steps(p: usize, category: AuthoringCategory, i: usize) -> (path: Vec<PathStep>)
    ensures
        forall|k: int| 0 <= k < 15 && category == all_categories()[k] ==> object_data_path(path@, p as int, k, i as int),
{
    let mut path: Vec<PathStep> = Vec::new();
    path.push(PathStep::Key(String::from_str("userCustomProfileCards")));
    path.push(PathStep::Index(p));
    path.push(PathStep::Key(String::from_str("customProfileCard")));
    path.push(PathStep::Key(String::from_str(category.key())));
    path.push(PathStep::Index(i));
    path.push(PathStep::Key(String::from_str("objectData")));
    proof {
        reveal_strlit("userCustomProfileCards");
        reveal_strlit("customProfileCard");
        reveal_strlit("objectData");
        assert forall|k: int| 0 <= k < 15 && category == all_categories()[k] implies object_data_path(
            path@,
            p as int,
            k,
            i as int,
        ) by {
            assert(element_path(path@.take(5), p as int, k, i as int));
        }
    }
    path
}

impl AuthoringSession {
    /// Deletes element `id`, found at `(p, k, i)`, and renumbers its page's
    /// layers to `0..count` in layer order.
    fn delete(&mut self, id: AuthoringElementId, p: usize, k: usize, i: usize) -> (r: Result<AuthoringDelta, AuthoringError>)
        requires
            k < 15,
            located(old(self).state().ids, id, p as int, k as int, i as int),
            old(self).gesture_spec() is None,
            old(self).revision_spec() < u64::MAX,
        ensures
            r is Err ==> *final(self) == *old(self),
            r matches Err(x) ==> command_refusal(
                AuthoringCommand::Delete { id },
                old(self).state().document,
                p as int,
                k as int,
                i as int,
                flat_page(old(self).state().ids[p as int]).len() as int,
                x,
            ),
            r is Ok ==> exists|copy: JsonValue, removed: JsonValue, edited: JsonValue|
                #[trigger] deleted(*old(self), *final(self), id, r.unwrap(), p as int, k as int, i as int, copy, removed, edited),
    {
        let ghost before_self = *self;
        let cats = AuthoringCategory::all();
        let category = cats[k];
        let copy = self.document.export_value().duplicate();
        let ghost copy_value = copy;
        let mut path: Vec<PathStep> = Vec::new();
        path.push(PathStep::Key(String::from_str("userCustomProfileCards")));
        path.push(PathStep::Index(p));
        path.push(PathStep::Key(String::from_str("customProfileCard")));
        path.push(PathStep::Key(String::from_str(category.key())));
        proof {
            reveal_strlit("userCustomProfileCards");
            reveal_strlit("customProfileCard");
            assert(path@.skip(0) =~= path@);
            assert(category == all_categories()[k as int]);
            assert(category_path(path@, p as int, k as int));
        }
        let removed = match remove_item(copy, &path, 0, i) {
            Some(v) => v,
            None => {
                proof {
                    lemma_holds_element(copy_value, path@, p as int, k as int, i as int);
                    lemma_same_element_at(copy_value, self.state().document, p as int, k as int, i as int);
                }
                return Err(AuthoringError::ElementMustBeObject);
            },
        };
        let ghost removed_value = removed;
        proof {
            lemma_removes_keep_page(copy_value, path@, p as int, k as int, i as int, removed_value);
        }
        let list = match removed.get("userCustomProfileCards") {
            Some(cards) => match cards.as_array() {
                Some(pages) => if p < pages.len() {
                    proof {
                        assert(exported_pages(removed_value) == pages@);
                    }
                    renumber_list(&pages[p])
                } else {
                    return Err(AuthoringError::ElementMustBeObject);
                },
                None => {
                    return Err(AuthoringError::ElementMustBeObject);
                },
            },
            None => {
                return Err(AuthoringError::ElementMustBeObject);
            },
        };
        let ghost plan = renumbering(exported_pages(removed_value)[p as int]);
        let current = match apply_layers(removed, p, &list) {
            Some(e) => e,
            None => {
                proof {
                    let page = exported_pages(removed_value)[p as int];
                    let views = plan_views(list@);
                    assert(views =~= plan);
                    lemma_renumbering_bounds(page, page_slots(page, 15).len() as int);
                    let (t, q) = choose|t: int, q: Seq<PathStep>| #[trigger] layer_fails_at(removed_value, p as int, views, t, q);
                    let a = views[t].0;
                    let b = views[t].1;
                    assert(0 <= a < 15 && 0 <= b < page_elements(page, all_categories()[a]).len());
                    lemma_reaches_object_data(removed_value, q, p as int, a, b);
                    assert(element_at(removed_value, p as int, a, b) is Some);
                    assert(page_lacks_object_data(removed_value, p as int));
                    assert(removes(copy_value, path@, i as int, removed_value));
                    assert(deletion_lacks_object_data(self.state().document, p as int, k as int, i as int));
                }
                return Err(AuthoringError::InvalidObjectData);
            },
        };
        let ghost edited_value = current;
        proof {
            let mids = choose|mids: Seq<JsonValue>|
                #[trigger] layer_chain(removed_value, p as int, plan_views(list@), mids) && mids.last() == edited_value;
            assert(plan_views(list@) =~= plan);
            assert(layer_chain(removed_value, p as int, plan, mids));
            assert(removes(copy_value, path@, i as int, removed_value));
            assert(delete_effect(copy_value, p as int, k as int, i as int, removed_value, edited_value));
            lemma_same_export_valid(copy_value, self.document);
            lemma_removal_keeps_valid(copy_value, path@, i as int, removed_value, p as int, k as int);
            lemma_layers_keep_valid(removed_value, p as int, plan, mids, mids.len() - 1);
        }
        let document = match GameProfileDocument::from_export_value(current) {
            Ok(d) => d,
            Err(e) => {
                return Err(AuthoringError::Document(e));
            },
        };
        proof {
            assert(member(edited_value, cards_key()) is Some);
            assert(document.pages_spec() == exported_pages(edited_value));
        }
        let ghost old_state = self.state();
        let ghost old_undo = self.undo_states();
        let mut old_document = document;
        std::mem::swap(&mut self.document, &mut old_document);
        let mut forward: Vec<AuthoringElementChange> = Vec::new();
        forward.push(change_record(id, p, category, AuthoringChangeKind::Removed));
        let entry_ids = copy_ids(&self.ids);
        remove_id(&mut self.ids, p, k, i);
        proof {
            assert(id_table(self.ids) == without_id(before_self.state().ids, p as int, k as int, i as int));
            assert(id_table(self.ids).len() == before_self.state().ids.len());
            assert(id_table(self.ids).len() == self.ids@.len());
        }
        let ghost row = id_table(self.ids)[p as int];
        let ghost views = plan_views(list@);
        let mut u: usize = 0;
        while u < list.len()
            invariant
                cats@ == all_categories(),
                p < self.ids@.len(),
                row == id_table(self.ids)[p as int],
                views == plan_views(list@),
                u <= list@.len(),
                forward@.len() >= 1,
                change_fields(forward@[0]) == (id, p, category, AuthoringChangeKind::Removed),
                fields_of(forward@) == seq![(id, p, category, AuthoringChangeKind::Removed)] + renumbered_fields(
                    row,
                    views.take(u as int),
                    p as int,
                ),
            decreases list@.len() - u,
        {
            let (sk, si, _) = list[u];
            proof {
                assert(views.take(u + 1).drop_last() =~= views.take(u as int));
                assert(views.take(u + 1).last() == views[u as int]);
                assert(views[u as int].0 == sk as int && views[u as int].1 == si as int);
            }
            let ghost before_fields = fields_of(forward@);
            if sk < 15 && p < self.ids.len() && sk < self.ids[p].len() && si < self.ids[p][sk].len() {
                forward.push(change_record(self.ids[p][sk][si], p, cats[sk], AuthoringChangeKind::Updated));
                proof {
                    assert(fields_of(forward@) =~= before_fields.push(change_fields(forward@.last())));
                    assert(row[sk as int][si as int] == self.ids@[p as int]@[sk as int]@[si as int]);
                }
            }
            proof {
                assert(fields_of(forward@) =~= seq![(id, p, category, AuthoringChangeKind::Removed)] + renumbered_fields(
                    row,
                    views.take(u + 1),
                    p as int,
                ));
            }
            u = u + 1;
        }
        proof {
            assert(views.take(list@.len() as int) =~= views);
        }
        let mut reverse: Vec<AuthoringElementChange> = Vec::new();
        let mut v: usize = 0;
        while v < forward.len()
            invariant
                v <= forward@.len(),
                reverse@.len() == v,
                forall|t: int|
                    0 <= t < v ==> change_fields(#[trigger] reverse@[t]) == (
                        forward@[t].id,
                        forward@[t].page,
                        forward@[t].category,
                        reversed_kind(forward@[t].kind),
                    ),
            decreases forward@.len() - v,
        {
            reverse.push(change_record(forward[v].id, forward[v].page, forward[v].category, reverse_change_kind(forward[v].kind)));
            v = v + 1;
        }
        let entry = HistoryEntry {
            document: old_document,
            ids: entry_ids,
            selected_id: self.selected_id,
            forward: Vec::new(),
            reverse,
            page_forward: Vec::new(),
            page_reverse: Vec::new(),
        };
        assert(entry_state(entry) == old_state);
        if self.selected_id == Some(id) {
            self.selected_id = None;
        }
        let changes = self.filled(&forward);
        let ghost at_fill = *self;
        let ghost old_reports = self.undo_reports();
        let ghost report = HistoryReport {
            forward: fields_of(changes@),
            reverse: reversed_fields(fields_of(changes@)),
            page_forward: Seq::empty(),
            page_reverse: Seq::empty(),
        };
        let mut entry = entry;
        entry.forward = forward;
        proof {
            assert(fields_of(entry.forward@) =~= fields_of(changes@));
            assert(fields_of(entry.reverse@) =~= reversed_fields(fields_of(changes@)));
            assert(entry_report(entry) == report);
        }
        assert(entry_state(entry) == old_state);
        self.undo.push(entry);
        proof {
            assert(self.undo_states() =~= old_undo.push(old_state));
            assert(self.undo_reports() =~= old_reports.push(report));
        }
        if self.undo.len() > AUTHORING_HISTORY_LIMIT {
            let ghost grown = self.undo_states();
            let ghost grown_reports = self.undo_reports();
            self.undo.remove(0);
            proof {
                assert(self.undo_states() =~= grown.drop_first());
                assert(self.undo_reports() =~= grown_reports.drop_first());
            }
        }
        self.redo = Vec::new();
        self.revision = self.revision + 1;
        proof {
            assert(self.redo_states() =~= Seq::<SessionState>::empty());
            assert(self.redo_reports() =~= Seq::<HistoryReport>::empty());
        }
        let d = self.delta(changes);
        proof {
            assert(before_self == *old(self));
            lemma_carry_transfer(at_fill, *self, d.changes@);
            assert(deleted(*old(self), *self, id, d, p as int, k as int, i as int, copy_value, removed_value, edited_value));
            assert(Ok::<AuthoringDelta, AuthoringError>(d).unwrap() == d);
        }
        Ok(d)
    }
}


proof fn lemma_renumbering_bounds(page: JsonValue, j: int)
    requires
        0 <= j <= page_slots(page, 15).len(),
    ensures
        forall|t: int|
            0 <= t < renumbering_from(page, j).len() ==> {
                let e = #[trigger] renumbering_from(page, j)[t];
                &&& 0 <= e.0 < 15
                &&& 0 <= e.1 < page_elements(page, all_categories()[e.0]).len()
            },
    decreases j,
{
    lemma_page_slots_bounds(page, 15);
    if j > 0 {
        lemma_renumbering_bounds(page, j - 1);
        let prev = renumbering_from(page, j - 1);
        let slot = page_slots(page, 15)[j - 1];
        assert forall|t: int| 0 <= t < renumbering_from(page, j).len() implies {
            let e = #[trigger] renumbering_from(page, j)[t];
            &&& 0 <= e.0 < 15
            &&& 0 <= e.1 < page_elements(page, all_categories()[e.0]).len()
        } by {
            if t < prev.len() {
                assert(renumbering_from(page, j)[t] == prev[t]);
            } else {
                assert(renumbering_from(page, j)[t].0 == slot.0);
                assert(renumbering_from(page, j)[t].1 == slot.1);
            }
        }
    }
}

proof fn lemma_removes_keep_page(v: JsonValue, path: Seq<PathStep>, p: int, k: int, i: int, r: JsonValue)
    requires
        category_path(path, p, k),
        removes(v, path, i, r),
        0 <= p <= usize::MAX,
    ensures
        p < exported_pages(r).len(),
{
    match v {
        JsonValue::Object(entries) => {
            let key = path[0]->Key_0@;
            assert(key == cards_key());
            lemma_member_index(entries@, key);
            let j = member_index(entries@, key).unwrap();
            let after = r->Object_0@;
            assert(after == entries@.update(j, (entries@[j].0, after[j].1)));
            assert forall|t: int| 0 <= t < entries@.len() implies (#[trigger] entries@[t]).0@ == after[t].0@ by {
                assert(after[t] == entries@.update(j, (entries@[j].0, after[j].1))[t]);
            }
            lemma_same_keys_same_index(entries@, after, key);
            lemma_member_index(after, key);
            let rest = path.drop_first();
            assert(rest[0] == path[1]);
            assert(removes(entries@[j].1, rest, i, after[j].1));
            assert(member(r, cards_key()) == Some(after[j].1));
        },
        _ => {},
    }
}

/// The entries of a computed layer plan as integers.
pub open spec fn plan_views(list: Seq<(usize, usize, u64)>) -> Seq<(int, int, int)> {
    list.map_values(|x: (usize, usize, u64)| (x.0 as int, x.1 as int, x.2 as int))
}

fn change_layer_list(page: &JsonValue, k: usize, i: usize, old: u64, layer: u64) -> (r: Vec<(usize, usize, u64)>)
    requires
        old as int == layer_of(slot_element(*page, (k as int, i as int))),
    ensures
        plan_views(r@) == change_layer_plan(*page, k as int, i as int, layer as int),
{
    let (slots, layers) = slots_and_layers(page);
    let ghost want = change_layer_plan(*page, k as int, i as int, layer as int);
    let mut out: Vec<(usize, usize, u64)> = Vec::new();
    let mut t: usize = 0;
    while t < slots.len()
        invariant
            slots@.map_values(|s: (usize, usize)| (s.0 as int, s.1 as int)) == page_slots(*page, 15),
            layers@.len() == slots@.len(),
            forall|u: int| 0 <= u < layers@.len() ==> (#[trigger] layers@[u]) as int == layer_of(
                slot_element(*page, page_slots(*page, 15)[u]),
            ),
            old as int == layer_of(slot_element(*page, (k as int, i as int))),
            want == change_layer_plan(*page, k as int, i as int, layer as int),
            t <= slots@.len(),
            plan_views(out@) == want.take(t as int),
        decreases slots@.len() - t,
    {
        let current = layers[t];
        let moved = if old < layer && current > old && current <= layer {
            current - 1
        } else if layer < old && current >= layer && current < old {
            current + 1
        } else {
            current
        };
        let (sk, si) = slots[t];
        proof {
            assert(page_slots(*page, 15)[t as int] == (sk as int, si as int));
            assert(want[t as int] == (sk as int, si as int, moved as int));
        }
        let ghost before = out@;
        out.push((sk, si, moved));
        t = t + 1;
        proof {
            assert(out@ == before.push((sk, si, moved)));
            assert(plan_views(out@) =~= plan_views(before).push((sk as int, si as int, moved as int)));
            assert(want.take(t as int) =~= want.take(t - 1).push(want[t - 1]));
            assert(plan_views(out@) =~= want.take(t as int));
        }
    }
    let ghost before = out@;
    out.push((k, i, layer));
    proof {
        assert(want.len() == slots@.len() + 1);
        assert(plan_views(out@) =~= plan_views(before).push((k as int, i as int, layer as int)));
        assert(want =~= want.take(slots@.len() as int).push(want.last()));
        assert(plan_views(out@) =~= want);
    }
    out
}

/// Sets, in turn, the layer of each listed element of page `p`.
/// The layer step `t` of `views` on page `p` of `v` cannot be taken: its
/// category is past the fifteen, or `q`, its `objectData` path, does not
/// lead to an object.
pub open spec fn layer_fails_at(v: JsonValue, p: int, views: Seq<(int, int, int)>, t: int, q: Seq<PathStep>) -> bool {
    &&& 0 <= t < views.len()
    &&& q.len() == 6
    &&& (views[t].0 >= 15 || (object_data_path(q, p, views[t].0, views[t].1) && !reaches(v, q)))
}

/// Some layer step of `views` cannot be taken.
pub open spec fn layers_fail(v: JsonValue, p: int, views: Seq<(int, int, int)>) -> bool {
    exists|t: int, q: Seq<PathStep>| #[trigger] layer_fails_at(v, p, views, t, q)
}

proof fn lemma_plan_bounds(page: JsonValue, k: int, i: int, layer: int)
    requires
        0 <= k < 15,
        0 <= i < page_elements(page, all_categories()[k]).len(),
    ensures
        forall|t: int|
            0 <= t < change_layer_plan(page, k, i, layer).len() ==> {
                let e = #[trigger] change_layer_plan(page, k, i, layer)[t];
                &&& 0 <= e.0 < 15
                &&& 0 <= e.1 < page_elements(page, all_categories()[e.0]).len()
            },
{
    lemma_page_slots_bounds(page, 15);
    let slots = page_slots(page, 15);
    let plan = change_layer_plan(page, k, i, layer);
    assert forall|t: int| 0 <= t < plan.len() implies {
        let e = #[trigger] plan[t];
        &&& 0 <= e.0 < 15
        &&& 0 <= e.1 < page_elements(page, all_categories()[e.0]).len()
    } by {
        if t < slots.len() {
            let s = slots[t];
            assert(plan[t].0 == s.0 && plan[t].1 == s.1);
        }
    }
}

fn apply_layers(v: JsonValue, p: usize, list: &Vec<(usize, usize, u64)>) -> (r: Option<JsonValue>)
    ensures
        r matches Some(e) ==> exists|mids: Seq<JsonValue>|
            #[trigger] layer_chain(v, p as int, plan_views(list@), mids) && mids.last() == e,
        r is None ==> layers_fail(v, p as int, plan_views(list@)),
{
    let cats = AuthoringCategory::all();
    let ghost views = plan_views(list@);
    let ghost start = v;
    let mut current = v;
    let ghost mut mids: Seq<JsonValue> = seq![start];
    let mut t: usize = 0;
    while t < list.len()
        invariant
            cats@ == all_categories(),
            views == plan_views(list@),
            t <= list@.len(),
            mids.len() == t + 1,
            mids[0] == start,
            mids.last() == current,
            forall|u: int| 0 <= u < t ==> #[trigger] layer_step(mids[u], mids[u + 1], p as int, views[u]),
            forall|q: Seq<PathStep>| q.len() <= 6 ==> #[trigger] reaches(current, q) == reaches(start, q),
            start == v,
        decreases list@.len() - t,
    {
        let (sk, si, layer) = list[t];
        if sk >= 15 {
            proof {
                let q = Seq::<PathStep>::new(6, |n: int| PathStep::Index(0));
                assert(list@[t as int].0 >= 15);
                assert(q.len() == 6);
                assert(views[t as int].0 >= 15);
                assert(layer_fails_at(v, p as int, views, t as int, q));
            }
            return None;
        }
        let steps = object_data_steps(p, cats[sk], si);
        let ghost prev = current;
        let next = match edit_member(current, &steps, 0, String::from_str("layer"), JsonValue::Number(JsonNumber::PosInt(layer))) {
            Some(e) => e,
            None => {
                proof {
                    assert(steps@.skip(0) =~= steps@);
                    assert(cats@[sk as int] == all_categories()[sk as int]);
                    assert(object_data_path(steps@, p as int, sk as int, si as int));
                    assert(!reaches(start, steps@));
                    assert(list@[t as int] == (sk, si, layer));
                    assert(views[t as int] == (sk as int, si as int, layer as int));
                    assert(layer_fails_at(v, p as int, views, t as int, steps@));
                }
                return None;
            },
        };
        current = next;
        proof {
            reveal_strlit("layer");
            assert(steps@.skip(0) =~= steps@);
            assert forall|q: Seq<PathStep>| q.len() <= 6 implies #[trigger] reaches(current, q) == reaches(start, q) by {
                assert(cats@[sk as int] == all_categories()[sk as int]);
                assert(object_data_path(steps@, p as int, sk as int, si as int));
                lemma_edits_keep_reach(
                    prev,
                    steps@,
                    "layer"@,
                    JsonValue::Number(JsonNumber::PosInt(layer)),
                    current,
                    q,
                );
                assert(reaches(prev, q) == reaches(start, q));
            }
            assert(views[t as int] == (sk as int, si as int, layer as int));
            assert(object_data_path(steps@, p as int, sk as int, si as int));
            assert(layer_step(prev, current, p as int, views[t as int]));
            mids = mids.push(current);
            assert forall|u: int| 0 <= u < t + 1 implies #[trigger] layer_step(mids[u], mids[u + 1], p as int, views[u]) by {
                if u < t {
                    assert(mids[u] == mids.drop_last()[u]);
                    assert(mids[u + 1] == mids.drop_last()[u + 1]);
                }
            }
        }
        t = t + 1;
    }
    proof {
        assert(layer_chain(start, p as int, views, mids));
    }
    Some(current)
}

impl AuthoringSession {
    /// Moves element `(k, i)` of page `p` to `layer`, the elements between
    /// closing up, on a copy of the document holding the same JSON.
    fn edit_layers(&self, p: usize, k: usize, i: usize, layer: usize) -> (r: Result<JsonValue, AuthoringError>)
        requires
            k < 15,
            p < self.state().ids.len(),
        ensures
            match r {
                Ok(e) => layer < flat_page(self.state().ids[p as int]).len() && exists|copy: JsonValue, mids: Seq<JsonValue>|
                    {
                        &&& same(copy, self.state().document)
                        &&& p < exported_pages(copy).len()
                        &&& #[trigger] layer_chain(copy, p as int, change_layer_plan(exported_pages(copy)[p as int], k as int, i as int, layer as int), mids)
                        &&& mids.last() == e
                    },
                Err(x) => if layer >= flat_page(self.state().ids[p as int]).len() {
                    x == AuthoringError::InvalidLayer {
                        page: p,
                        layer,
                        count: flat_page(self.state().ids[p as int]).len() as usize,
                    }
                } else {
                    ||| x == AuthoringError::ElementMustBeObject && element_at(self.state().document, p as int, k as int, i as int) is None
                    ||| x == AuthoringError::InvalidObjectData && page_lacks_object_data(self.state().document, p as int)
                },
            },
    {
        let ghost row = self.state().ids[p as int];
        let mut acc: usize = 0;
        let mut c: usize = 0;
        let mut fits = false;
        while c < self.ids[p].len()
            invariant
                p < self.ids@.len(),
                row == self.state().ids[p as int],
                row.len() == self.ids@[p as int]@.len(),
                c <= row.len(),
                !fits ==> acc as int == flat_page(row.take(c as int)).len() && acc <= layer,
                fits ==> layer < flat_page(row).len(),
            decreases row.len() - c,
        {
            proof {
                assert(row.take(c + 1).drop_last() =~= row.take(c as int));
                lemma_flat_page_prefix(row, c as int + 1);
                lemma_flat_page_prefix(row, row.len() as int);
                assert(row.take(row.len() as int) =~= row);
                assert(flat_page(row.take(c + 1)).len() <= flat_page(row).len());
            }
            if !fits {
                let len = self.ids[p][c].len();
                if layer - acc < len {
                    fits = true;
                } else {
                    acc = acc + len;
                }
            }
            c = c + 1;
        }
        proof {
            assert(row.take(c as int) =~= row);
        }
        if !fits {
            return Err(AuthoringError::InvalidLayer { page: p, layer, count: acc });
        }
        let copy = self.document.export_value().duplicate();
        let ghost copy_value = copy;
        proof {
            lemma_same_element_at(copy_value, self.state().document, p as int, k as int, i as int);
            reveal_strlit("userCustomProfileCards");
        }
        let plan = match copy.get("userCustomProfileCards") {
            Some(cards) => match cards.as_array() {
                Some(pages) => if p < pages.len() {
                    proof {
                        assert(exported_pages(copy_value) == pages@);
                    }
                    let cats = AuthoringCategory::all();
                    match category_elements(&pages[p], cats[k]) {
                        Some(items) => if i < items.len() {
                            let old = element_layer(&items[i]);
                            let plan = change_layer_list(&pages[p], k, i, old, layer as u64);
                            proof {
                                lemma_plan_bounds(pages@[p as int], k as int, i as int, layer as int);
                            }
                            plan
                        } else {
                            return Err(AuthoringError::ElementMustBeObject);
                        },
                        None => {
                            return Err(AuthoringError::ElementMustBeObject);
                        },
                    }
                } else {
                    return Err(AuthoringError::ElementMustBeObject);
                },
                None => {
                    return Err(AuthoringError::ElementMustBeObject);
                },
            },
            None => {
                return Err(AuthoringError::ElementMustBeObject);
            },
        };
        let ghost page = exported_pages(copy_value)[p as int];
        let ghost views = plan_views(plan@);
        proof {
            assert(copy == copy_value);
        }
        let applied_layers = apply_layers(copy, p, &plan);
        match applied_layers {
            Some(e) => Ok(e),
            None => {
                proof {
                    assert(views == change_layer_plan(page, k as int, i as int, layer as int));
                    let (t, q) = choose|t: int, q: Seq<PathStep>| #[trigger] layer_fails_at(copy_value, p as int, views, t, q);
                    let a = views[t].0;
                    let b = views[t].1;
                    assert(0 <= a < 15 && 0 <= b < page_elements(page, all_categories()[a]).len());
                    lemma_reaches_object_data(copy_value, q, p as int, a, b);
                    assert(element_at(copy_value, p as int, a, b) is Some);
                    lemma_same_element_at(copy_value, self.state().document, p as int, a, b);
                    assert(element_at(self.state().document, p as int, a, b) is Some);
                    assert(page_lacks_object_data(self.state().document, p as int));
                }
                Err(AuthoringError::InvalidObjectData)
            },
        }
    }
}

proof fn lemma_flat_page_prefix(row: Seq<Seq<AuthoringElementId>>, n: int)
    requires
        0 < n <= row.len(),
    ensures
        flat_page(row.take(n)).len() == flat_page(row.take(n - 1)).len() + row[n - 1].len(),
        forall|m: int| 0 <= m <= n ==> #[trigger] flat_page(row.take(m)).len() <= flat_page(row.take(n)).len(),
    decreases n,
{
    assert(row.take(n).drop_last() =~= row.take(n - 1));
    if n > 1 {
        lemma_flat_page_prefix(row, n - 1);
    }
    assert(row.take(0) =~= Seq::<Seq<AuthoringElementId>>::empty());
}
proof fn lemma_page_total_bounds(page: JsonValue, k: int)
    requires
        0 <= k,
    ensures
        forall|t: int| 0 <= t <= k ==> 0 <= #[trigger] page_total(page, t) <= page_total(page, k),
    decreases k,
{
    if k > 0 {
        lemma_page_total_bounds(page, k - 1);
        assert(page_total(page, k) == page_total(page, k - 1) + page_elements(page, all_categories()[k - 1]).len());
        assert(0 <= page_total(page, k - 1));
    }
}

proof fn lemma_pages_total_monotone(pages: Seq<JsonValue>, p: int)
    requires
        0 <= p <= pages.len(),
    ensures
        forall|q: int| 0 <= q <= p ==> 0 <= #[trigger] pages_total(pages, q) <= pages_total(pages, p),
    decreases p,
{
    if p > 0 {
        lemma_pages_total_monotone(pages, p - 1);
        lemma_page_total_bounds(pages[p - 1], 15);
        assert(0 <= page_total(pages[p - 1], 0));
        assert(0 <= pages_total(pages, p - 1));
    }
}
/// Whether one page's ID row holds `id`.
pub open spec fn row_holds(row: Seq<Seq<AuthoringElementId>>, id: AuthoringElementId) -> bool {
    exists|k: int, i: int| 0 <= k < row.len() && 0 <= i < row[k].len() && #[trigger] row[k][i] == id
}

/// The selection left once the page with ID row `row` is gone.
pub open spec fn selection_without(row: Seq<Seq<AuthoringElementId>>, selected: Option<AuthoringElementId>) -> Option<
    AuthoringElementId,
> {
    match selected {
        Some(id) => if row_holds(row, id) {
            None
        } else {
            Some(id)
        },
        None => None,
    }
}

/// What every page operation does beside its pages and IDs: the change is
/// recorded for undo, redo is cleared, the revision counts it, and the
/// delta reports the page change `change` alone.
pub open spec fn page_recorded(
    before: AuthoringSession,
    after: AuthoringSession,
    delta: AuthoringDelta,
    change: AuthoringPageChange,
    reverse: AuthoringPageChange,
) -> bool {
    &&& after.undo_states() == recorded(before.undo_states(), before.state())
    &&& after.redo_states().len() == 0
    &&& after.undo_reports() == recorded_reports(
        before.undo_reports(),
        HistoryReport {
            forward: Seq::empty(),
            reverse: Seq::empty(),
            page_forward: seq![change],
            page_reverse: seq![reverse],
        },
    )
    &&& after.redo_reports().len() == 0
    &&& after.revision_spec() == before.revision_spec() + 1
    &&& after.gesture_spec() is None
    &&& delta.revision == after.revision_spec()
    &&& delta.selected_id == after.state().selected_id
    &&& delta.changes@.len() == 0
    &&& delta.page_changes@ == seq![change]
}

/// `after` and `delta` are what deleting page `page` of `before` gives:
/// `copy` holds the same JSON as the document; its pages without `page`,
/// numbered again from 1, are the document; the page's IDs are gone and a
/// selection on the page is cleared.
pub open spec fn page_deleted(
    before: AuthoringSession,
    after: AuthoringSession,
    page: int,
    delta: AuthoringDelta,
    copy: JsonValue,
) -> bool {
    &&& same(copy, before.state().document)
    &&& numbered_pages(exported_pages(copy).remove(page), after.pages_spec())
    &&& after.state().ids == before.state().ids.remove(page)
    &&& after.next_id_spec() == before.next_id_spec()
    &&& after.state().selected_id == selection_without(before.state().ids[page], before.state().selected_id)
    &&& page_recorded(
        before,
        after,
        delta,
        AuthoringPageChange { kind: AuthoringPageChangeKind::Removed, page: page as usize, from_page: None },
        AuthoringPageChange { kind: AuthoringPageChangeKind::Inserted, page: page as usize, from_page: None },
    )
}

/// `after` and `delta` are what appending a blank page to `before` gives:
/// `copy` holds the same JSON as the document; its pages keep their places,
/// numbered again from 1, a blank page follows them, and an empty ID page
/// is added for it.
pub open spec fn page_appended(before: AuthoringSession, after: AuthoringSession, delta: AuthoringDelta, copy: JsonValue) -> bool {
    let n = exported_pages(copy).len();
    &&& same(copy, before.state().document)
    &&& after.pages_spec().len() == n + 1
    &&& forall|i: int| 0 <= i < n ==> numbered_page(#[trigger] exported_pages(copy)[i], after.pages_spec()[i], i + 1)
    &&& is_blank_page(after.pages_spec()[n as int], (n + 1) as u64)
    &&& after.state().ids == before.state().ids.push(Seq::new(15, |k: int| Seq::<AuthoringElementId>::empty()))
    &&& after.next_id_spec() == before.next_id_spec()
    &&& after.state().selected_id == before.state().selected_id
    &&& page_recorded(
        before,
        after,
        delta,
        AuthoringPageChange { kind: AuthoringPageChangeKind::Inserted, page: n as usize, from_page: None },
        AuthoringPageChange { kind: AuthoringPageChangeKind::Removed, page: n as usize, from_page: None },
    )
}

/// The IDs a copy of a page whose IDs are `row` gets: the same shape,
/// numbered from `first`, category by category.
pub open spec fn fresh_row(row: Seq<Seq<AuthoringElementId>>, first: int) -> Seq<Seq<AuthoringElementId>> {
    Seq::new(
        row.len(),
        |k: int| Seq::new(row[k].len(), |i: int| AuthoringElementId((first + flat_page(row.take(k)).len() + i) as u32)),
    )
}

/// `after` and `delta` are what duplicating page `page` of `before` gives:
/// `copy` holds the same JSON as the document and `page_copy` the same JSON
/// as its page `page`; `cleared` is `page_copy` with both card IDs 0. It
/// stands after the page, the pages are numbered again from 1, its IDs are
/// fresh, and the selection is cleared.
pub open spec fn page_duplicated(
    before: AuthoringSession,
    after: AuthoringSession,
    page: int,
    delta: AuthoringDelta,
    copy: JsonValue,
    page_copy: JsonValue,
    cleared: JsonValue,
) -> bool {
    &&& same(copy, before.state().document)
    &&& same(page_copy, exported_pages(copy)[page])
    &&& identity_cleared(page_copy, cleared)
    &&& numbered_pages(exported_pages(copy).insert(page + 1, cleared), after.pages_spec())
    &&& after.state().ids == before.state().ids.insert(
        page + 1,
        fresh_row(before.state().ids[page], before.next_id_spec() as int),
    )
    &&& after.next_id_spec() == before.next_id_spec() + flat_page(before.state().ids[page]).len()
    &&& after.state().selected_id is None
    &&& page_recorded(
        before,
        after,
        delta,
        AuthoringPageChange { kind: AuthoringPageChangeKind::Inserted, page: (page + 1) as usize, from_page: Some(page as usize) },
        AuthoringPageChange { kind: AuthoringPageChangeKind::Removed, page: (page + 1) as usize, from_page: None },
    )
}

/// `after` and `delta` are what moving page `from` to position `to` of
/// `before` gives: `copy` holds the same JSON as the document; its pages so
/// moved, numbered again from 1, are the document, and the page's IDs move
/// with it.
pub open spec fn page_moved(
    before: AuthoringSession,
    after: AuthoringSession,
    from: int,
    to: int,
    delta: AuthoringDelta,
    copy: JsonValue,
) -> bool {
    &&& same(copy, before.state().document)
    &&& numbered_pages(
        exported_pages(copy).remove(from).insert(to, exported_pages(copy)[from]),
        after.pages_spec(),
    )
    &&& after.state().ids == before.state().ids.remove(from).insert(to, before.state().ids[from])
    &&& after.next_id_spec() == before.next_id_spec()
    &&& after.state().selected_id == before.state().selected_id
    &&& page_recorded(
        before,
        after,
        delta,
        AuthoringPageChange { kind: AuthoringPageChangeKind::Moved, page: to as usize, from_page: Some(from as usize) },
        AuthoringPageChange { kind: AuthoringPageChangeKind::Moved, page: from as usize, from_page: Some(to as usize) },
    )
}

fn row_holds_id(row: &Vec<Vec<AuthoringElementId>>, id: AuthoringElementId) -> (r: bool)
    ensures
        r == row_holds(row@.map_values(|cell: Vec<AuthoringElementId>| cell@), id),
{
    let ghost cells = row@.map_values(|cell: Vec<AuthoringElementId>| cell@);
    let mut k: usize = 0;
    while k < row.len()
        invariant
            k <= row@.len(),
            cells == row@.map_values(|cell: Vec<AuthoringElementId>| cell@),
            forall|a: int, b: int| 0 <= a < k && 0 <= b < cells[a].len() ==> #[trigger] cells[a][b] != id,
        decreases row.len() - k,
    {
        let mut i: usize = 0;
        while i < row[k].len()
            invariant
                k < row@.len(),
                i <= row@[k as int]@.len(),
                cells == row@.map_values(|cell: Vec<AuthoringElementId>| cell@),
                forall|b: int| 0 <= b < i ==> #[trigger] cells[k as int][b] != id,
            decreases row@[k as int]@.len() - i,
        {
            if row[k][i] == id {
                proof {
                    assert(cells[k as int][i as int] == id);
                }
                return true;
            }
            i = i + 1;
        }
        k = k + 1;
    }
    false
}

impl AuthoringSession {
    /// A document that holds the same JSON as this session's, or the error
    /// the copy is refused with.
    fn copied_document(&self) -> (r: GameProfileDocument)
        ensures
            exists|copy: JsonValue|
                #![trigger same(copy, self.state().document)]
                same(copy, self.state().document) && r.pages_spec() == exported_pages(copy)
                    && exported_pages(copy).len() == self.pages_spec().len(),
    {
        let document = self.document.duplicate();
        proof {
            law_exports_import_again(document);
            assert(exported_pages(document.value()) == document.pages_spec());
            assert(same(document.value(), self.state().document));
        }
        document
    }

    /// Records the state before a page operation, whose document is now
    /// `old_document`, for undo, and clears redo.
    fn record_page_change(
        &mut self,
        old_document: GameProfileDocument,
        old_ids: Vec<Vec<Vec<AuthoringElementId>>>,
        old_selection: Option<AuthoringElementId>,
        forward: AuthoringPageChange,
        reverse: AuthoringPageChange,
    ) -> (d: AuthoringDelta)
        requires
            old(self).revision_spec() < u64::MAX,
        ensures
            final(self).state() == old(self).state(),
            final(self).pages_spec() == old(self).pages_spec(),
            final(self).undo_states() == recorded(
                old(self).undo_states(),
                SessionState { document: old_document.value(), ids: id_table(old_ids), selected_id: old_selection },
            ),
            final(self).redo_states().len() == 0,
            final(self).undo_reports() == recorded_reports(
                old(self).undo_reports(),
                HistoryReport {
                    forward: Seq::empty(),
                    reverse: Seq::empty(),
                    page_forward: seq![forward],
                    page_reverse: seq![reverse],
                },
            ),
            final(self).redo_reports().len() == 0,
            final(self).revision_spec() == old(self).revision_spec() + 1,
            final(self).next_id_spec() == old(self).next_id_spec(),
            final(self).gesture_spec() == old(self).gesture_spec(),
            d.revision == final(self).revision_spec(),
            d.selected_id == final(self).state().selected_id,
            d.changes@.len() == 0,
            d.page_changes@ == seq![forward],
    {
        let ghost old_undo = self.undo_states();
        let entry = HistoryEntry {
            document: old_document,
            ids: old_ids,
            selected_id: old_selection,
            forward: Vec::new(),
            reverse: Vec::new(),
            page_forward: vec![forward],
            page_reverse: vec![reverse],
        };
        let ghost entry_view = entry_state(entry);
        let ghost old_reports = self.undo_reports();
        let ghost report = entry_report(entry);
        proof {
            assert(fields_of(entry.forward@) =~= Seq::empty());
            assert(fields_of(entry.reverse@) =~= Seq::empty());
            assert(entry.page_forward@ =~= seq![forward]);
            assert(entry.page_reverse@ =~= seq![reverse]);
            assert(report == HistoryReport {
                forward: Seq::empty(),
                reverse: Seq::empty(),
                page_forward: seq![forward],
                page_reverse: seq![reverse],
            });
        }
        self.undo.push(entry);
        proof {
            assert(self.undo_states() =~= old_undo.push(entry_view));
            assert(self.undo_reports() =~= old_reports.push(report));
        }
        if self.undo.len() > AUTHORING_HISTORY_LIMIT {
            let ghost grown = self.undo_states();
            let ghost grown_reports = self.undo_reports();
            self.undo.remove(0);
            proof {
                assert(self.undo_states() =~= grown.drop_first());
                assert(self.undo_reports() =~= grown_reports.drop_first());
            }
        }
        self.redo = Vec::new();
        self.revision = self.revision + 1;
        proof {
            assert(self.redo_states() =~= Seq::<SessionState>::empty());
            assert(self.redo_reports() =~= Seq::<HistoryReport>::empty());
        }
        let mut d = self.delta(Vec::new());
        d.page_changes = vec![forward];
        d
    }

    /// Appends a blank page with an empty ID page and numbers the pages
    /// again from 1. Refused during a gesture, and when the profile holds
    /// [`MAX_PAGES`] pages.
    pub fn append_blank_page(&mut self) -> (r: Result<AuthoringDelta, AuthoringError>)
        requires
            old(self).revision_spec() < u64::MAX,
        ensures
            r is Err ==> *final(self) == *old(self),
            old(self).gesture_spec() is Some ==> r == Err::<AuthoringDelta, AuthoringError>(AuthoringError::GestureInProgress),
            old(self).gesture_spec() is None && old(self).pages_spec().len() >= MAX_PAGES ==> r == Err::<
                AuthoringDelta,
                AuthoringError,
            >(AuthoringError::PageLimitReached { max: MAX_PAGES }),
            old(self).gesture_spec() is None && old(self).pages_spec().len() < MAX_PAGES ==> r is Ok,
            r is Ok ==> exists|copy: JsonValue| #[trigger] page_appended(*old(self), *final(self), r.unwrap(), copy),
    {
        if self.gesture.is_some() {
            return Err(AuthoringError::GestureInProgress);
        }
        if self.document.page_count() >= MAX_PAGES {
            return Err(AuthoringError::PageLimitReached { max: MAX_PAGES });
        }
        let ghost before = *self;
        let mut document = self.copied_document();
        let ghost copy = choose|copy: JsonValue|
            #![trigger same(copy, self.state().document)]
            same(copy, self.state().document) && document.pages_spec() == exported_pages(copy)
                && exported_pages(copy).len() == self.pages_spec().len();
        let n = document.page_count();
        document.append_blank_page();
        let old_ids = copy_ids(&self.ids);
        let old_selection = self.selected_id;
        std::mem::swap(&mut self.document, &mut document);
        let mut row: Vec<Vec<AuthoringElementId>> = Vec::new();
        let mut k: usize = 0;
        while k < 15
            invariant
                k <= 15,
                row@.len() == k,
                forall|t: int| 0 <= t < k ==> (#[trigger] row@[t])@ == Seq::<AuthoringElementId>::empty(),
            decreases 15 - k,
        {
            row.push(Vec::new());
            k = k + 1;
        }
        let ghost row_view = row@.map_values(|cell: Vec<AuthoringElementId>| cell@);
        self.ids.push(row);
        proof {
            assert(row_view =~= Seq::new(15, |k: int| Seq::<AuthoringElementId>::empty()));
            assert(id_table(self.ids) =~= before.state().ids.push(row_view));
        }
        let d = self.record_page_change(
            document,
            old_ids,
            old_selection,
            AuthoringPageChange { kind: AuthoringPageChangeKind::Inserted, page: n, from_page: None },
            AuthoringPageChange { kind: AuthoringPageChangeKind::Removed, page: n, from_page: None },
        );
        proof {
            assert(page_appended(before, *self, d, copy));
            assert(before == *old(self));
            assert(page_appended(*old(self), *self, d, copy));
            assert(Ok::<AuthoringDelta, AuthoringError>(d).unwrap() == d);
        }
        Ok(d)
    }

    /// Inserts a copy of page `page` after it, with both card IDs 0 and
    /// fresh element IDs of the same shape, numbers the pages again from 1
    /// and clears the selection. Refused during a gesture, for a page that
    /// is not there, when the profile holds [`MAX_PAGES`] pages, and when the
    /// IDs it needs do not fit.
    pub fn duplicate_page(&mut self, page: usize) -> (r: Result<AuthoringDelta, AuthoringError>)
        requires
            old(self).revision_spec() < u64::MAX,
        ensures
            r is Err ==> *final(self) == *old(self),
            old(self).gesture_spec() is Some ==> r == Err::<AuthoringDelta, AuthoringError>(
                AuthoringError::GestureInProgress,
            ),
            old(self).gesture_spec() is None && (page >= old(self).pages_spec().len() || page >= old(
                self,
            ).state().ids.len()) ==> r == Err::<AuthoringDelta, AuthoringError>(AuthoringError::PageNotFound(page)),
            old(self).gesture_spec() is None && page < old(self).pages_spec().len() && page < old(self).state().ids.len()
                && old(self).pages_spec().len() >= MAX_PAGES ==> r == Err::<AuthoringDelta, AuthoringError>(
                AuthoringError::PageLimitReached { max: MAX_PAGES },
            ),
            old(self).gesture_spec() is None && page < old(self).pages_spec().len() && page < old(self).state().ids.len()
                && old(self).pages_spec().len() < MAX_PAGES ==> if old(self).next_id_spec() + flat_page(
                old(self).state().ids[page as int],
            ).len() > u32::MAX {
                r == Err::<AuthoringDelta, AuthoringError>(AuthoringError::ElementIdsExhausted)
            } else {
                r is Ok
            },
            r is Ok ==> exists|copy: JsonValue, page_copy: JsonValue, cleared: JsonValue|
                #[trigger] page_duplicated(*old(self), *final(self), page as int, r.unwrap(), copy, page_copy, cleared),
    {
        if self.gesture.is_some() {
            return Err(AuthoringError::GestureInProgress);
        }
        let count = self.document.page_count();
        if page >= count || page >= self.ids.len() {
            return Err(AuthoringError::PageNotFound(page));
        }
        if count >= MAX_PAGES {
            return Err(AuthoringError::PageLimitReached { max: MAX_PAGES });
        }
        let ghost before = *self;
        let ghost row = id_table(self.ids)[page as int];
        let room = (u32::MAX - self.next_id) as usize;
        let mut total: usize = 0;
        let mut c: usize = 0;
        let mut too_many = false;
        while c < self.ids[page].len() && !too_many
            invariant
                page < self.ids@.len(),
                row == id_table(self.ids)[page as int],
                row.len() == self.ids@[page as int]@.len(),
                room == u32::MAX - before.next_id_spec(),
                c <= row.len(),
                !too_many ==> total == flat_page(row.take(c as int)).len() && total <= room,
                too_many ==> flat_page(row).len() > room,
            decreases row.len() - c, if too_many { 0int } else { 1int },
        {
            proof {
                assert(row.take(c + 1).drop_last() =~= row.take(c as int));
                lemma_flat_page_prefix(row, c as int + 1);
                lemma_flat_page_prefix(row, row.len() as int);
                assert(row.take(row.len() as int) =~= row);
            }
            let n = self.ids[page][c].len();
            if n > room - total {
                too_many = true;
            } else {
                total = total + n;
                c = c + 1;
            }
        }
        if too_many {
            return Err(AuthoringError::ElementIdsExhausted);
        }
        proof {
            assert(row.take(c as int) =~= row);
        }
        let (fresh, next) = match allocate_ids(self.next_id, total) {
            Some(a) => a,
            None => {
                return Err(AuthoringError::ElementIdsExhausted);
            },
        };
        let flen = fresh.len();
        let mut new_row: Vec<Vec<AuthoringElementId>> = Vec::new();
        let mut off: usize = 0;
        let mut k: usize = 0;
        while k < self.ids[page].len()
            invariant
                page < self.ids@.len(),
                row == id_table(self.ids)[page as int],
                row.len() == self.ids@[page as int]@.len(),
                k <= row.len(),
                off == flat_page(row.take(k as int)).len(),
                fresh@.len() == flat_page(row).len(),
                flen == fresh@.len(),
                forall|t: int| 0 <= t < fresh@.len() ==> #[trigger] fresh@[t] == AuthoringElementId((before.next_id_spec() + t) as u32),
                new_row@.len() == k,
                forall|t: int| 0 <= t < k ==> (#[trigger] new_row@[t])@ == fresh_row(row, before.next_id_spec() as int)[t],
            decreases row.len() - k,
        {
            proof {
                assert(row.take(k + 1).drop_last() =~= row.take(k as int));
                lemma_flat_page_prefix(row, k as int + 1);
                lemma_flat_page_prefix(row, row.len() as int);
                assert(row.take(row.len() as int) =~= row);
            }
            let n = self.ids[page][k].len();
            assert(off + n <= flen);
            let mut cell: Vec<AuthoringElementId> = Vec::new();
            let mut i: usize = 0;
            while i < n
                invariant
                    n == row[k as int].len(),
                    off + n <= fresh@.len(),
                    flen == fresh@.len(),
                    i <= n,
                    cell@.len() == i,
                    forall|t: int| 0 <= t < fresh@.len() ==> #[trigger] fresh@[t] == AuthoringElementId((before.next_id_spec() + t) as u32),
                    forall|t: int| 0 <= t < i ==> #[trigger] cell@[t] == AuthoringElementId((before.next_id_spec() + off + t) as u32),
                decreases n - i,
            {
                cell.push(fresh[off + i]);
                i = i + 1;
            }
            proof {
                assert(cell@ =~= fresh_row(row, before.next_id_spec() as int)[k as int]);
            }
            new_row.push(cell);
            off = off + n;
            k = k + 1;
        }
        let ghost fresh_view = new_row@.map_values(|cell: Vec<AuthoringElementId>| cell@);
        proof {
            assert(fresh_view =~= fresh_row(row, before.next_id_spec() as int));
        }
        let mut document = self.copied_document();
        let ghost copy = choose|copy: JsonValue|
            #![trigger same(copy, self.state().document)]
            same(copy, self.state().document) && document.pages_spec() == exported_pages(copy)
                && exported_pages(copy).len() == self.pages_spec().len();
        document.insert_page_copy(page);
        let old_ids = copy_ids(&self.ids);
        let old_selection = self.selected_id;
        std::mem::swap(&mut self.document, &mut document);
        self.ids.insert(page + 1, new_row);
        self.next_id = next;
        self.selected_id = None;
        proof {
            assert(id_table(self.ids) =~= before.state().ids.insert(page + 1, fresh_view));
        }
        let d = self.record_page_change(
            document,
            old_ids,
            old_selection,
            AuthoringPageChange { kind: AuthoringPageChangeKind::Inserted, page: page + 1, from_page: Some(page) },
            AuthoringPageChange { kind: AuthoringPageChangeKind::Removed, page: page + 1, from_page: None },
        );
        proof {
            let (pc, cl) = choose|pc: JsonValue, cl: JsonValue|
                {
                    &&& same(pc, exported_pages(copy)[page as int])
                    &&& #[trigger] identity_cleared(pc, cl)
                    &&& numbered_pages(exported_pages(copy).insert(page + 1, cl), self.pages_spec())
                };
            assert(page_duplicated(before, *self, page as int, d, copy, pc, cl));
            assert(before == *old(self));
            assert(page_duplicated(*old(self), *self, page as int, d, copy, pc, cl));
            assert(Ok::<AuthoringDelta, AuthoringError>(d).unwrap() == d);
        }
        Ok(d)
    }

    /// Deletes page `page` with its element IDs; the pages after it move up
    /// and all pages are numbered again from 1, and a selection on the page
    /// is cleared. Refused during a gesture, when the document has one page
    /// left, and for a page that is not there.
    pub fn delete_page(&mut self, page: usize) -> (r: Result<AuthoringDelta, AuthoringError>)
        requires
            old(self).revision_spec() < u64::MAX,
            old(self).pages_spec().len() <= i64::MAX,
        ensures
            r is Err ==> *final(self) == *old(self),
            old(self).gesture_spec() is Some ==> r == Err::<AuthoringDelta, AuthoringError>(
                AuthoringError::GestureInProgress,
            ),
            old(self).gesture_spec() is None && old(self).pages_spec().len() == 1 ==> r == Err::<
                AuthoringDelta,
                AuthoringError,
            >(AuthoringError::FinalPageCannotBeDeleted),
            old(self).gesture_spec() is None && old(self).pages_spec().len() != 1 && (page >= old(
                self,
            ).pages_spec().len() || page >= old(self).state().ids.len()) ==> r == Err::<
                AuthoringDelta,
                AuthoringError,
            >(AuthoringError::PageNotFound(page)),
            old(self).gesture_spec() is None && old(self).pages_spec().len() != 1 && page < old(self).pages_spec().len()
                && page < old(self).state().ids.len() ==> r is Ok,
            r is Ok ==> exists|copy: JsonValue| #[trigger] page_deleted(*old(self), *final(self), page as int, r.unwrap(), copy),
    {
        if self.gesture.is_some() {
            return Err(AuthoringError::GestureInProgress);
        }
        let count = self.document.page_count();
        if count == 1 {
            return Err(AuthoringError::FinalPageCannotBeDeleted);
        }
        if page >= count || page >= self.ids.len() {
            return Err(AuthoringError::PageNotFound(page));
        }
        let ghost before = *self;
        let mut document = self.copied_document();
        let ghost copy = choose|copy: JsonValue|
            #![trigger same(copy, self.state().document)]
            same(copy, self.state().document) && document.pages_spec() == exported_pages(copy)
                && exported_pages(copy).len() == self.pages_spec().len();
        document.remove_page(page);
        let old_ids = copy_ids(&self.ids);
        let old_selection = self.selected_id;
        std::mem::swap(&mut self.document, &mut document);
        let removed = self.ids.remove(page);
        let ghost removed_row = removed@.map_values(|cell: Vec<AuthoringElementId>| cell@);
        proof {
            assert(removed_row == before.state().ids[page as int]);
            assert(id_table(self.ids) =~= before.state().ids.remove(page as int));
        }
        let clear = match self.selected_id {
            Some(id) => row_holds_id(&removed, id),
            None => false,
        };
        if clear {
            self.selected_id = None;
        }
        let d = self.record_page_change(
            document,
            old_ids,
            old_selection,
            AuthoringPageChange { kind: AuthoringPageChangeKind::Removed, page, from_page: None },
            AuthoringPageChange { kind: AuthoringPageChangeKind::Inserted, page, from_page: None },
        );
        proof {
            assert(self.state().selected_id == selection_without(before.state().ids[page as int], before.state().selected_id));
            assert(page_deleted(before, *self, page as int, d, copy));
            assert(before == *old(self));
            assert(page_deleted(*old(self), *self, page as int, d, copy));
            assert(Ok::<AuthoringDelta, AuthoringError>(d).unwrap() == d);
        }
        Ok(d)
    }

    /// Moves page `from` to position `to`, with its element IDs, and numbers
    /// the pages again from 1. Refused during a gesture and for a page or a
    /// destination that is not there; a page moved onto itself changes
    /// nothing.
    pub fn move_page(&mut self, from: usize, to: usize) -> (r: Result<AuthoringDelta, AuthoringError>)
        requires
            old(self).revision_spec() < u64::MAX,
            old(self).pages_spec().len() <= i64::MAX,
        ensures
            r is Err ==> *final(self) == *old(self),
            old(self).gesture_spec() is Some ==> r == Err::<AuthoringDelta, AuthoringError>(
                AuthoringError::GestureInProgress,
            ),
            old(self).gesture_spec() is None && (from >= old(self).pages_spec().len() || from >= old(
                self,
            ).state().ids.len()) ==> r == Err::<AuthoringDelta, AuthoringError>(AuthoringError::PageNotFound(from)),
            old(self).gesture_spec() is None && from < old(self).pages_spec().len() && from < old(
                self,
            ).state().ids.len() && (to >= old(self).pages_spec().len() || to >= old(self).state().ids.len())
                ==> r == Err::<AuthoringDelta, AuthoringError>(AuthoringError::PageDestinationNotFound(to)),
            old(self).gesture_spec() is None && from < old(self).pages_spec().len() && from < old(self).state().ids.len()
                && to < old(self).pages_spec().len() && to < old(self).state().ids.len() ==> r is Ok,
            r is Ok && from == to ==> *final(self) == *old(self) && r.unwrap().changes@.len() == 0
                && r.unwrap().page_changes@.len() == 0 && r.unwrap().revision == old(self).revision_spec(),
            r is Ok && from != to ==> exists|copy: JsonValue|
                #[trigger] page_moved(*old(self), *final(self), from as int, to as int, r.unwrap(), copy),
    {
        if self.gesture.is_some() {
            return Err(AuthoringError::GestureInProgress);
        }
        let count = self.document.page_count();
        if from >= count || from >= self.ids.len() {
            return Err(AuthoringError::PageNotFound(from));
        }
        if to >= count || to >= self.ids.len() {
            return Err(AuthoringError::PageDestinationNotFound(to));
        }
        if from == to {
            return Ok(self.delta(Vec::new()));
        }
        let ghost before = *self;
        let mut document = self.copied_document();
        let ghost copy = choose|copy: JsonValue|
            #![trigger same(copy, self.state().document)]
            same(copy, self.state().document) && document.pages_spec() == exported_pages(copy)
                && exported_pages(copy).len() == self.pages_spec().len();
        document.move_page(from, to);
        let old_ids = copy_ids(&self.ids);
        let old_selection = self.selected_id;
        std::mem::swap(&mut self.document, &mut document);
        let row = self.ids.remove(from);
        self.ids.insert(to, row);
        proof {
            assert(id_table(self.ids) =~= before.state().ids.remove(from as int).insert(
                to as int,
                before.state().ids[from as int],
            ));
        }
        let d = self.record_page_change(
            document,
            old_ids,
            old_selection,
            AuthoringPageChange { kind: AuthoringPageChangeKind::Moved, page: to, from_page: Some(from) },
            AuthoringPageChange { kind: AuthoringPageChangeKind::Moved, page: from, from_page: Some(to) },
        );
        proof {
            assert(page_moved(before, *self, from as int, to as int, d, copy));
            assert(before == *old(self));
            assert(page_moved(*old(self), *self, from as int, to as int, d, copy));
            assert(Ok::<AuthoringDelta, AuthoringError>(d).unwrap() == d);
        }
        Ok(d)
    }
}

/// Whether a category's array may be left out of a page's card; it is
/// added with the first element created in it.
pub open spec fn category_optional(c: AuthoringCategory) -> bool {
    c is CharacterIcons || c is Materials || c is UserInterfaceIcons
}

/// The position of a category in [`AuthoringCategory::all`].
pub open spec fn category_index(c: AuthoringCategory) -> int {
    match c {
        AuthoringCategory::BondsHonors => 0,
        AuthoringCategory::CardMembers => 1,
        AuthoringCategory::CharacterIcons => 2,
        AuthoringCategory::Collections => 3,
        AuthoringCategory::GeneralBackgrounds => 4,
        AuthoringCategory::Generals => 5,
        AuthoringCategory::Honors => 6,
        AuthoringCategory::Materials => 7,
        AuthoringCategory::Others => 8,
        AuthoringCategory::Shapes => 9,
        AuthoringCategory::Stamps => 10,
        AuthoringCategory::StandMembers => 11,
        AuthoringCategory::StoryBackgrounds => 12,
        AuthoringCategory::Texts => 13,
        AuthoringCategory::UserInterfaceIcons => 14,
    }
}

impl AuthoringCategory {
    /// Whether this category's array may be left out of a card.
    pub fn optional(self) -> (r: bool)
        ensures
            r == category_optional(self),
    {
        match self {
            AuthoringCategory::CharacterIcons | AuthoringCategory::Materials | AuthoringCategory::UserInterfaceIcons => true,
            _ => false,
        }
    }

    /// The position of this category in [`AuthoringCategory::all`].
    pub fn index(self) -> (r: usize)
        ensures
            r == category_index(self),
            r < 15,
            all_categories()[r as int] == self,
    {
        match self {
            AuthoringCategory::BondsHonors => 0,
            AuthoringCategory::CardMembers => 1,
            AuthoringCategory::CharacterIcons => 2,
            AuthoringCategory::Collections => 3,
            AuthoringCategory::GeneralBackgrounds => 4,
            AuthoringCategory::Generals => 5,
            AuthoringCategory::Honors => 6,
            AuthoringCategory::Materials => 7,
            AuthoringCategory::Others => 8,
            AuthoringCategory::Shapes => 9,
            AuthoringCategory::Stamps => 10,
            AuthoringCategory::StandMembers => 11,
            AuthoringCategory::StoryBackgrounds => 12,
            AuthoringCategory::Texts => 13,
            AuthoringCategory::UserInterfaceIcons => 14,
        }
    }
}

/// The arrays a card may leave out are none of those every card holds.
proof fn lemma_optional_not_card_array(c: AuthoringCategory)
    requires
        category_optional(c),
    ensures
        !is_card_array(category_key(c)),
{
    reveal_strlit("bondsHonors");
    reveal_strlit("cardMembers");
    reveal_strlit("collections");
    reveal_strlit("generalBackgrounds");
    reveal_strlit("generals");
    reveal_strlit("honors");
    reveal_strlit("others");
    reveal_strlit("shapes");
    reveal_strlit("stamps");
    reveal_strlit("standMembers");
    reveal_strlit("storyBackgrounds");
    reveal_strlit("texts");
    reveal_strlit("characterIcons");
    reveal_strlit("materials");
    reveal_strlit("userInterfaceIcons");
    assert forall|m: int| 0 <= m < 12 implies card_array(m)@ != category_key(c) by {
        let a = card_array(m)@;
        let b = category_key(c);
        if a == b {
            assert(a[0] == b[0]);
            assert(a[1] == b[1]);
        }
    }
}

/// `stamped` is `element` with `objectData.layer` set to `layer`, and
/// nothing else changed.
pub open spec fn layer_stamped(element: JsonValue, layer: int, stamped: JsonValue) -> bool {
    &&& element is Object
    &&& stamped is Object
    &&& member(element, "objectData"@) matches Some(od)
    &&& od is Object
    &&& member(stamped, "objectData"@) matches Some(od2)
    &&& od2 is Object
    &&& sets_member(element->Object_0@, stamped->Object_0@, "objectData"@, od2)
    &&& sets_member(od->Object_0@, od2->Object_0@, "layer"@, JsonValue::Number(JsonNumber::PosInt(layer as u64)))
}

/// Why creating `element` in `category` on page `page` of `s` is refused,
/// checked in this order: a page the session does not have; a page whose
/// IDs already reach the element limit; an element that is not an object,
/// or whose `objectData` is not one; no element ID left; a card that is
/// not an object, or whose array for the category is not an array (or is
/// missing, where every card holds it); and a card whose counted arrays
/// already hold the limit, so that the document would be refused.
pub open spec fn create_refusal(
    s: AuthoringSession,
    page: usize,
    category: AuthoringCategory,
    element: JsonValue,
) -> Option<AuthoringError> {
    let ids = s.state().ids;
    if page >= s.pages_spec().len() || page >= ids.len() || category_index(category) >= ids[page as int].len() {
        Some(AuthoringError::PageNotFound(page))
    } else if flat_page(ids[page as int]).len() >= MAX_ELEMENTS_PER_PAGE {
        Some(AuthoringError::ElementLimitReached { page, max: MAX_ELEMENTS_PER_PAGE })
    } else if !(element is Object) {
        Some(AuthoringError::ElementMustBeObject)
    } else if !(member(element, "objectData"@) matches Some(od) && od is Object) {
        Some(AuthoringError::InvalidObjectData)
    } else if s.next_id_spec() == u32::MAX {
        Some(AuthoringError::ElementIdsExhausted)
    } else if !card_takes_item(s.pages_spec()[page as int], category_key(category), category_optional(category)) {
        Some(AuthoringError::ElementMustBeObject)
    } else if !category_optional(category) && elements_from(
        member(s.pages_spec()[page as int], "customProfileCard"@).unwrap(),
        0,
    ) >= MAX_ELEMENTS_PER_PAGE {
        Some(
            AuthoringError::Document(
                GameProfileDocumentError::ElementLimitExceeded {
                    page,
                    count: reported_count(
                        elements_from(member(s.pages_spec()[page as int], "customProfileCard"@).unwrap(), 0) + 1,
                    ),
                    max: MAX_ELEMENTS_PER_PAGE,
                },
            ),
        )
    } else {
        None
    }
}

/// `after` and `delta` are what creating `element` in `category` on page
/// `page` of `before` gives: `stamped` is the element with its layer set to
/// the number of elements the page holds, `copy` holds the same JSON as the
/// document, and the document is the pages of `copy` with `stamped`
/// appended to the category's array of the page's card (`pushed`). The new
/// element takes the next ID, last in its category, and is selected; the
/// change is recorded for undo and clears redo.
pub open spec fn created(
    before: AuthoringSession,
    after: AuthoringSession,
    page: usize,
    category: AuthoringCategory,
    element: JsonValue,
    delta: AuthoringDelta,
    copy: JsonValue,
    stamped: JsonValue,
    pushed: JsonValue,
) -> bool {
    let k = category_index(category);
    let ids = before.state().ids;
    let new_id = AuthoringElementId(before.next_id_spec());
    &&& create_refusal(before, page, category, element) is None
    &&& layer_stamped(element, flat_page(ids[page as int]).len() as int, stamped)
    &&& same(copy, before.state().document)
    &&& card_item_pushed(exported_pages(copy)[page as int], category_key(category), stamped, pushed)
    &&& after.pages_spec() == exported_pages(copy).update(page as int, pushed)
    &&& after.state().ids == ids.update(page as int, ids[page as int].update(k, ids[page as int][k].push(new_id)))
    &&& after.next_id_spec() == before.next_id_spec() + 1
    &&& after.state().selected_id == Some(new_id)
    &&& after.revision_spec() == before.revision_spec() + 1
    &&& after.undo_states() == recorded(before.undo_states(), before.state())
    &&& after.redo_states().len() == 0
    &&& after.undo_reports() == recorded_reports(before.undo_reports(), change_report(delta))
    &&& after.redo_reports().len() == 0
    &&& after.gesture_spec() is None
    &&& fields_of(delta.changes@) == seq![(new_id, page, category, AuthoringChangeKind::Inserted)]
    &&& all_carry_elements(after, delta.changes@)
    &&& delta.page_changes@.len() == 0
    &&& delta.revision == after.revision_spec()
    &&& delta.can_undo == (after.undo_states().len() > 0)
    &&& delta.can_redo == (after.redo_states().len() > 0)
    &&& delta.selected_id == after.state().selected_id
}

/// Pages of values holding the same JSON as an accepted document's export
/// hold the same JSON as its pages.
proof fn lemma_same_pages(copy: JsonValue, doc: GameProfileDocument)
    requires
        doc.wf(),
        same(copy, doc.value()),
    ensures
        exported_pages(copy).len() == doc.pages_spec().len(),
        forall|j: int| 0 <= j < doc.pages_spec().len() ==> same(#[trigger] exported_pages(copy)[j], doc.pages_spec()[j]),
{
    law_exports_import_again(doc);
    lemma_same_member(copy, doc.value(), cards_key());
    let c = member(copy, cards_key()).unwrap();
    let d = member(doc.value(), cards_key()).unwrap();
    lemma_same_items_of(c, d);
    assert forall|j: int| 0 <= j < doc.pages_spec().len() implies same(#[trigger] exported_pages(copy)[j], doc.pages_spec()[j]) by {
        assert(same(items_of(c).unwrap()[j], items_of(d).unwrap()[j]));
    }
}

fn push_id(ids: &mut Vec<Vec<Vec<AuthoringElementId>>>, p: usize, k: usize, id: AuthoringElementId)
    requires
        p < old(ids)@.len(),
        k < old(ids)@[p as int]@.len(),
    ensures
        id_table(*final(ids)) == id_table(*old(ids)).update(
            p as int,
            id_table(*old(ids))[p as int].update(k as int, id_table(*old(ids))[p as int][k as int].push(id)),
        ),
{
    let ghost before = id_table(*ids);
    let mut row: Vec<Vec<AuthoringElementId>> = Vec::new();
    std::mem::swap(&mut row, &mut ids[p]);
    let mut cell: Vec<AuthoringElementId> = Vec::new();
    std::mem::swap(&mut cell, &mut row[k]);
    cell.push(id);
    row.set(k, cell);
    ids.set(p, row);
    proof {
        assert(id_table(*ids)[p as int] =~= before[p as int].update(k as int, before[p as int][k as int].push(id)));
        assert(id_table(*ids) =~= before.update(p as int, before[p as int].update(k as int, before[p as int][k as int].push(id))));
    }
}

impl AuthoringSession {
    /// The number of IDs page `p` holds, where it is under the element limit.
    fn page_id_count(&self, p: usize) -> (r: Option<usize>)
        requires
            p < self.state().ids.len(),
        ensures
            match r {
                Some(n) => n == flat_page(self.state().ids[p as int]).len() && n < MAX_ELEMENTS_PER_PAGE,
                None => flat_page(self.state().ids[p as int]).len() >= MAX_ELEMENTS_PER_PAGE,
            },
    {
        let ghost row = self.state().ids[p as int];
        let mut total: usize = 0;
        let mut c: usize = 0;
        while c < self.ids[p].len()
            invariant
                p < self.ids@.len(),
                row == self.state().ids[p as int],
                row.len() == self.ids@[p as int]@.len(),
                c <= row.len(),
                total == flat_page(row.take(c as int)).len(),
                total < MAX_ELEMENTS_PER_PAGE,
            decreases row.len() - c,
        {
            proof {
                lemma_flat_page_prefix(row, c as int + 1);
                lemma_flat_page_prefix(row, row.len() as int);
                assert(row.take(row.len() as int) =~= row);
            }
            let n = self.ids[p][c].len();
            if n >= MAX_ELEMENTS_PER_PAGE - total {
                return None;
            }
            total = total + n;
            c = c + 1;
        }
        proof {
            assert(row.take(c as int) =~= row);
        }
        Some(total)
    }

    /// Creates `element` in `category` on page `page`: its layer is set to
    /// the number of elements the page holds, it is appended to the
    /// category's array (added where an optional category has none), takes
    /// the next ID and is selected. Refused, with the session unchanged, as
    /// [`create_refusal`] says.
    fn create(&mut self, page: usize, category: AuthoringCategory, element: JsonValue) -> (r: Result<AuthoringDelta, AuthoringError>)
        requires
            old(self).gesture_spec() is None,
            old(self).revision_spec() < u64::MAX,
        ensures
            r is Err ==> *final(self) == *old(self),
            match create_refusal(*old(self), page, category, element) {
                Some(x) => r == Err::<AuthoringDelta, AuthoringError>(x),
                None => r is Ok,
            },
            r is Ok ==> exists|copy: JsonValue, stamped: JsonValue, pushed: JsonValue|
                #[trigger] created(*old(self), *final(self), page, category, element, r.unwrap(), copy, stamped, pushed),
    {
        let ghost before = *self;
        let ghost element_value = element;
        let k = category.index();
        if page >= self.document.page_count() || page >= self.ids.len() || k >= self.ids[page].len() {
            return Err(AuthoringError::PageNotFound(page));
        }
        let count = match self.page_id_count(page) {
            Some(n) => n,
            None => {
                return Err(AuthoringError::ElementLimitReached { page, max: MAX_ELEMENTS_PER_PAGE });
            },
        };
        proof {
            reveal_strlit("objectData");
            reveal_strlit("layer");
            reveal_strlit("customProfileCard");
        }
        let stamped = match element {
            JsonValue::Object(mut entries) => {
                let ghost e0 = entries@;
                match find_member(&entries, "objectData") {
                    Some(j) => {
                        let (name, od) = entries.remove(j);
                        match od {
                            JsonValue::Object(mut oe) => {
                                let ghost o0 = oe@;
                                set_member(&mut oe, String::from_str("layer"), JsonValue::Number(JsonNumber::PosInt(count as u64)));
                                let ghost od2 = JsonValue::Object(oe);
                                entries.insert(j, (name, JsonValue::Object(oe)));
                                proof {
                                    assert(entries@ =~= e0.update(j as int, (e0[j as int].0, od2)));
                                    assert(sets_member(e0, entries@, "objectData"@, od2));
                                    lemma_set_member_value(e0, entries@, "objectData"@, od2, "objectData"@);
                                    assert(layer_stamped(element_value, count as int, JsonValue::Object(entries)));
                                }
                                JsonValue::Object(entries)
                            },
                            _ => {
                                return Err(AuthoringError::InvalidObjectData);
                            },
                        }
                    },
                    None => {
                        return Err(AuthoringError::InvalidObjectData);
                    },
                }
            },
            _ => {
                return Err(AuthoringError::ElementMustBeObject);
            },
        };
        let ghost stamped_value = stamped;
        if self.next_id == u32::MAX {
            return Err(AuthoringError::ElementIdsExhausted);
        }
        let key = category.key();
        let optional = category.optional();
        let takes = {
            let pages = self.document.pages();
            match pages[page].get("customProfileCard") {
                Some(card) => match card {
                    JsonValue::Object(_) => match card.get(key) {
                        Some(a) => match a {
                            JsonValue::Array(_) => true,
                            _ => false,
                        },
                        None => optional,
                    },
                    _ => false,
                },
                None => false,
            }
        };
        if !takes {
            return Err(AuthoringError::ElementMustBeObject);
        }
        if !optional {
            let pages = self.document.pages();
            let held = match pages[page].get("customProfileCard") {
                Some(card) => card_element_count(card),
                None => 0,
            };
            proof {
                let c = member(self.pages_spec()[page as int], "customProfileCard"@).unwrap();
                lemma_elements_from_nonnegative(c, 0);
                assert(held == reported_count(elements_from(c, 0)));
                assert((held >= MAX_ELEMENTS_PER_PAGE) == (elements_from(c, 0) >= MAX_ELEMENTS_PER_PAGE));
                assert(held.saturating_add(1) == reported_count(elements_from(c, 0) + 1));
            }
            if held >= MAX_ELEMENTS_PER_PAGE {
                return Err(
                    AuthoringError::Document(
                        GameProfileDocumentError::ElementLimitExceeded {
                            page,
                            count: held.saturating_add(1),
                            max: MAX_ELEMENTS_PER_PAGE,
                        },
                    ),
                );
            }
        }
        let mut document = self.copied_document();
        let ghost copy = choose|copy: JsonValue|
            #![trigger same(copy, self.state().document)]
            same(copy, self.state().document) && document.pages_spec() == exported_pages(copy)
                && exported_pages(copy).len() == self.pages_spec().len();
        self.document.export_value();
        proof {
            lemma_same_pages(copy, self.document);
            lemma_same_card_takes(exported_pages(copy)[page as int], self.pages_spec()[page as int], category_key(category), optional);
            if optional {
                lemma_optional_not_card_array(category);
            }
        }
        let pushed_ok = document.push_card_item(page, key, optional, stamped);
        if !pushed_ok {
            return Err(AuthoringError::ElementMustBeObject);
        }
        let ghost pushed = choose|after: JsonValue|
            #[trigger] card_item_pushed(exported_pages(copy)[page as int], category_key(category), stamped_value, after)
                && document.pages_spec() == exported_pages(copy).update(page as int, after);
        let id = AuthoringElementId(self.next_id);
        let old_ids = copy_ids(&self.ids);
        let old_selection = self.selected_id;
        let ghost old_state = self.state();
        let ghost old_undo = self.undo_states();
        std::mem::swap(&mut self.document, &mut document);
        push_id(&mut self.ids, page, k, id);
        self.next_id = self.next_id + 1;
        self.selected_id = Some(id);
        let forward_records = vec![change_record(id, page, category, AuthoringChangeKind::Inserted)];
        let reverse_records = vec![change_record(id, page, category, AuthoringChangeKind::Removed)];
        let changes = self.filled(&forward_records);
        let ghost at_fill = *self;
        let forward = self.filled(&forward_records);
        let reverse = self.filled(&reverse_records);
        let ghost old_reports = self.undo_reports();
        let ghost report = HistoryReport {
            forward: fields_of(changes@),
            reverse: reversed_fields(fields_of(changes@)),
            page_forward: Seq::empty(),
            page_reverse: Seq::empty(),
        };
        let entry = HistoryEntry {
            document,
            ids: old_ids,
            selected_id: old_selection,
            forward,
            reverse,
            page_forward: Vec::new(),
            page_reverse: Vec::new(),
        };
        proof {
            assert(fields_of(entry.forward@) =~= fields_of(changes@));
            assert(fields_of(changes@) =~= seq![(id, page, category, AuthoringChangeKind::Inserted)]);
            assert(fields_of(entry.reverse@) =~= reversed_fields(fields_of(changes@)));
            assert(entry_report(entry) == report);
        }
        assert(entry_state(entry) == old_state);
        self.undo.push(entry);
        proof {
            assert(self.undo_states() =~= old_undo.push(old_state));
            assert(self.undo_reports() =~= old_reports.push(report));
        }
        if self.undo.len() > AUTHORING_HISTORY_LIMIT {
            let ghost grown = self.undo_states();
            let ghost grown_reports = self.undo_reports();
            self.undo.remove(0);
            proof {
                assert(self.undo_states() =~= grown.drop_first());
                assert(self.undo_reports() =~= grown_reports.drop_first());
            }
        }
        self.redo = Vec::new();
        self.revision = self.revision + 1;
        proof {
            assert(self.redo_states() =~= Seq::<SessionState>::empty());
            assert(self.redo_reports() =~= Seq::<HistoryReport>::empty());
        }
        let d = self.delta(changes);
        proof {
            lemma_carry_transfer(at_fill, *self, d.changes@);
            assert(before == *old(self));
            assert(created(*old(self), *self, page, category, element_value, d, copy, stamped_value, pushed));
            assert(Ok::<AuthoringDelta, AuthoringError>(d).unwrap() == d);
        }
        Ok(d)
    }
}


/// Largest revision a checkpoint holds: the largest integer a JavaScript
/// number holds exactly.
pub const MAX_CHECKPOINT_REVISION: u64 = 9007199254740991;

/// One history entry as a checkpoint holds it: the state it brings back and
/// the changes it reports each way.
pub struct CheckpointEntry {
    pub document: JsonValue,
    pub ids: Vec<Vec<Vec<AuthoringElementId>>>,
    pub selected_id: Option<AuthoringElementId>,
    pub forward: Vec<AuthoringElementChange>,
    pub reverse: Vec<AuthoringElementChange>,
    pub page_forward: Vec<AuthoringPageChange>,
    pub page_reverse: Vec<AuthoringPageChange>,
}

/// Everything a session needs to carry on where it stopped.
pub struct AuthoringCheckpoint {
    pub schema: String,
    pub document: JsonValue,
    pub ids: Vec<Vec<Vec<AuthoringElementId>>>,
    pub next_id: u32,
    pub revision: u64,
    pub undo: Vec<CheckpointEntry>,
    pub redo: Vec<CheckpointEntry>,
    pub selected_id: Option<AuthoringElementId>,
}

/// Why an exported profile is refused as a document, if it is.
pub open spec fn export_refusal(export: JsonValue) -> Option<GameProfileDocumentError> {
    if !(export is Object) {
        Some(GameProfileDocumentError::ProfileMustBeObject)
    } else {
        match member(export, cards_key()) {
            Some(cards) => cards_error(cards),
            None => Some(GameProfileDocumentError::MissingCustomProfileCards),
        }
    }
}

/// IDs that are positive, below `next_id` and each given once.
pub open spec fn ids_sound(ids: Seq<AuthoringElementId>, next_id: u32) -> bool {
    &&& ids.no_duplicates()
    &&& forall|j: int| 0 <= j < ids.len() ==> 0 < (#[trigger] ids[j]).0 < next_id
}

/// Changes that name IDs that are positive and below `next_id`.
pub open spec fn changes_sound(changes: Seq<AuthoringElementChange>, next_id: u32) -> bool {
    forall|j: int| 0 <= j < changes.len() ==> 0 < (#[trigger] changes[j]).id.0 < next_id
}

/// A selection of an ID that is positive and below `next_id`, or none.
pub open spec fn selection_sound(selected: Option<AuthoringElementId>, next_id: u32) -> bool {
    selected matches Some(id) ==> 0 < id.0 < next_id
}

/// A document and IDs a checkpoint may hold: the document is accepted, the
/// IDs fit its pages and are sound.
pub open spec fn state_sound(document: JsonValue, ids: Seq<Seq<Seq<AuthoringElementId>>>, next_id: u32) -> bool {
    &&& export_refusal(document) is None
    &&& table_fits(ids, exported_pages(document))
    &&& ids_sound(flat_ids(ids), next_id)
}

/// A history entry a checkpoint may hold.
pub open spec fn entry_sound(e: CheckpointEntry, next_id: u32) -> bool {
    &&& state_sound(e.document, id_table(e.ids), next_id)
    &&& selection_sound(e.selected_id, next_id)
    &&& changes_sound(e.forward@, next_id)
    &&& changes_sound(e.reverse@, next_id)
}

/// Whether a session may be restored from `c`: the schema tag, a revision a
/// JavaScript number holds, at most [`AUTHORING_HISTORY_LIMIT`] history
/// entries, an accepted document whose IDs fit and are sound, a selection
/// that names one of them, `nextId` above every ID, and history entries
/// that are sound alike.
pub open spec fn checkpoint_accepted(c: AuthoringCheckpoint) -> bool {
    &&& c.schema@ == AUTHORING_CHECKPOINT_SCHEMA@
    &&& c.revision <= MAX_CHECKPOINT_REVISION
    &&& c.undo@.len() + c.redo@.len() <= AUTHORING_HISTORY_LIMIT
    &&& c.next_id > 0
    &&& state_sound(c.document, id_table(c.ids), c.next_id)
    &&& (c.selected_id matches Some(id) ==> exists|p: int, k: int, i: int| located(id_table(c.ids), id, p, k, i))
    &&& forall|j: int| 0 <= j < c.undo@.len() ==> entry_sound(#[trigger] c.undo@[j], c.next_id)
    &&& forall|j: int| 0 <= j < c.redo@.len() ==> entry_sound(#[trigger] c.redo@[j], c.next_id)
}

/// A restored history entry brings back what the checkpoint's entry holds.
pub open spec fn entry_restored(e: CheckpointEntry, state: SessionState, report: HistoryReport) -> bool {
    &&& exported_pages(state.document) == exported_pages(e.document)
    &&& state.ids == id_table(e.ids)
    &&& state.selected_id == e.selected_id
    &&& report.forward == fields_of(e.forward@)
    &&& report.reverse == fields_of(e.reverse@)
    &&& report.page_forward == e.page_forward@
    &&& report.page_reverse == e.page_reverse@
}

/// `s` is the session `c` holds: its pages, IDs, next ID, revision,
/// selection and both histories, with no gesture active.
pub open spec fn restored(c: AuthoringCheckpoint, s: AuthoringSession) -> bool {
    &&& exported_pages(s.state().document) == exported_pages(c.document)
    &&& s.state().ids == id_table(c.ids)
    &&& s.state().selected_id == c.selected_id
    &&& s.next_id_spec() == c.next_id
    &&& s.revision_spec() == c.revision
    &&& s.gesture_spec() is None
    &&& s.undo_states().len() == c.undo@.len()
    &&& s.undo_reports().len() == c.undo@.len()
    &&& forall|j: int| 0 <= j < c.undo@.len() ==> entry_restored(#[trigger] c.undo@[j], s.undo_states()[j], s.undo_reports()[j])
    &&& s.redo_states().len() == c.redo@.len()
    &&& s.redo_reports().len() == c.redo@.len()
    &&& forall|j: int| 0 <= j < c.redo@.len() ==> entry_restored(#[trigger] c.redo@[j], s.redo_states()[j], s.redo_reports()[j])
}

/// A checkpoint entry holds what a session's history entry holds, its
/// document as the same JSON.
pub open spec fn entry_saved(e: CheckpointEntry, state: SessionState, report: HistoryReport) -> bool {
    &&& same(e.document, state.document)
    &&& id_table(e.ids) == state.ids
    &&& e.selected_id == state.selected_id
    &&& fields_of(e.forward@) == report.forward
    &&& fields_of(e.reverse@) == report.reverse
    &&& e.page_forward@ == report.page_forward
    &&& e.page_reverse@ == report.page_reverse
}

/// `c` is the checkpoint of `s`: the schema tag, the document as the same
/// JSON, and the IDs, next ID, revision, selection and both histories.
pub open spec fn saved(s: AuthoringSession, c: AuthoringCheckpoint) -> bool {
    &&& c.schema@ == AUTHORING_CHECKPOINT_SCHEMA@
    &&& same(c.document, s.state().document)
    &&& id_table(c.ids) == s.state().ids
    &&& c.selected_id == s.state().selected_id
    &&& c.next_id == s.next_id_spec()
    &&& c.revision == s.revision_spec()
    &&& c.undo@.len() == s.undo_states().len()
    &&& c.undo@.len() == s.undo_reports().len()
    &&& forall|j: int| 0 <= j < c.undo@.len() ==> entry_saved(#[trigger] c.undo@[j], s.undo_states()[j], s.undo_reports()[j])
    &&& c.redo@.len() == s.redo_states().len()
    &&& c.redo@.len() == s.redo_reports().len()
    &&& forall|j: int| 0 <= j < c.redo@.len() ==> entry_saved(#[trigger] c.redo@[j], s.redo_states()[j], s.redo_reports()[j])
}

/// Values holding the same JSON have pages holding the same JSON.
pub proof fn lemma_same_exported_pages(a: JsonValue, b: JsonValue)
    requires
        same(a, b),
    ensures
        exported_pages(a).len() == exported_pages(b).len(),
        forall|j: int| 0 <= j < exported_pages(a).len() ==> same(#[trigger] exported_pages(a)[j], exported_pages(b)[j]),
{
    lemma_same_member(a, b, cards_key());
    if let Some(ca) = member(a, cards_key()) {
        let cb = member(b, cards_key()).unwrap();
        lemma_same_items_of(ca, cb);
        if let Some(xs) = items_of(ca) {
            assert forall|j: int| 0 <= j < exported_pages(a).len() implies same(#[trigger] exported_pages(a)[j], exported_pages(b)[j]) by {
                assert(same(items_of(ca).unwrap()[j], items_of(cb).unwrap()[j]));
            }
        }
    }
}

/// Restoring a checkpoint and taking the checkpoint of the session gives
/// back what the first held: the same pages, the same IDs, next ID,
/// revision and selection, and both histories entry by entry.
pub proof fn law_checkpoint_round_trip(c: AuthoringCheckpoint, s: AuthoringSession, c2: AuthoringCheckpoint)
    requires
        checkpoint_accepted(c),
        restored(c, s),
        saved(s, c2),
    ensures
        c2.schema@ == c.schema@,
        exported_pages(c2.document).len() == exported_pages(c.document).len(),
        forall|j: int| 0 <= j < exported_pages(c.document).len() ==> same(#[trigger] exported_pages(c2.document)[j], exported_pages(c.document)[j]),
        id_table(c2.ids) == id_table(c.ids),
        c2.next_id == c.next_id,
        c2.revision == c.revision,
        c2.selected_id == c.selected_id,
        c2.undo@.len() == c.undo@.len(),
        c2.redo@.len() == c.redo@.len(),
        forall|j: int| 0 <= j < c.undo@.len() ==> {
            &&& id_table((#[trigger] c2.undo@[j]).ids) == id_table(c.undo@[j].ids)
            &&& c2.undo@[j].selected_id == c.undo@[j].selected_id
            &&& fields_of(c2.undo@[j].forward@) == fields_of(c.undo@[j].forward@)
            &&& fields_of(c2.undo@[j].reverse@) == fields_of(c.undo@[j].reverse@)
            &&& c2.undo@[j].page_forward@ == c.undo@[j].page_forward@
            &&& c2.undo@[j].page_reverse@ == c.undo@[j].page_reverse@
        },
        forall|j: int| 0 <= j < c.redo@.len() ==> {
            &&& id_table((#[trigger] c2.redo@[j]).ids) == id_table(c.redo@[j].ids)
            &&& c2.redo@[j].selected_id == c.redo@[j].selected_id
            &&& fields_of(c2.redo@[j].forward@) == fields_of(c.redo@[j].forward@)
            &&& fields_of(c2.redo@[j].reverse@) == fields_of(c.redo@[j].reverse@)
            &&& c2.redo@[j].page_forward@ == c.redo@[j].page_forward@
            &&& c2.redo@[j].page_reverse@ == c.redo@[j].page_reverse@
        },
{
    lemma_same_exported_pages(c2.document, s.state().document);
    assert forall|j: int| 0 <= j < c.undo@.len() implies {
        &&& id_table((#[trigger] c2.undo@[j]).ids) == id_table(c.undo@[j].ids)
        &&& c2.undo@[j].selected_id == c.undo@[j].selected_id
        &&& fields_of(c2.undo@[j].forward@) == fields_of(c.undo@[j].forward@)
        &&& fields_of(c2.undo@[j].reverse@) == fields_of(c.undo@[j].reverse@)
        &&& c2.undo@[j].page_forward@ == c.undo@[j].page_forward@
        &&& c2.undo@[j].page_reverse@ == c.undo@[j].page_reverse@
    } by {
        assert(entry_restored(c.undo@[j], s.undo_states()[j], s.undo_reports()[j]));
        assert(entry_saved(c2.undo@[j], s.undo_states()[j], s.undo_reports()[j]));
    }
    assert forall|j: int| 0 <= j < c.redo@.len() implies {
        &&& id_table((#[trigger] c2.redo@[j]).ids) == id_table(c.redo@[j].ids)
        &&& c2.redo@[j].selected_id == c.redo@[j].selected_id
        &&& fields_of(c2.redo@[j].forward@) == fields_of(c.redo@[j].forward@)
        &&& fields_of(c2.redo@[j].reverse@) == fields_of(c.redo@[j].reverse@)
        &&& c2.redo@[j].page_forward@ == c.redo@[j].page_forward@
        &&& c2.redo@[j].page_reverse@ == c.redo@[j].page_reverse@
    } by {
        assert(entry_restored(c.redo@[j], s.redo_states()[j], s.redo_reports()[j]));
        assert(entry_saved(c2.redo@[j], s.redo_states()[j], s.redo_reports()[j]));
    }
}


/// Whether `ids` give the elements of `pages` one ID each, as
/// [`table_fits`] says.
fn ids_fit_pages(ids: &Vec<Vec<Vec<AuthoringElementId>>>, pages: &Vec<JsonValue>) -> (r: bool)
    ensures
        r == table_fits(id_table(*ids), pages@),
{
    let ghost table = id_table(*ids);
    if ids.len() != pages.len() {
        return false;
    }
    let cats = AuthoringCategory::all();
    let mut p: usize = 0;
    while p < ids.len()
        invariant
            table == id_table(*ids),
            cats@ == all_categories(),
            ids@.len() == pages@.len(),
            p <= ids@.len(),
            forall|q: int|
                0 <= q < p ==> {
                    &&& (#[trigger] table[q]).len() == 15
                    &&& forall|k: int| 0 <= k < 15 ==> (#[trigger] table[q][k]).len() == page_elements(pages@[q], all_categories()[k]).len()
                },
        decreases ids.len() - p,
    {
        if ids[p].len() != 15 {
            proof {
                assert(table[p as int].len() != 15);
            }
            return false;
        }
        let mut k: usize = 0;
        while k < 15
            invariant
                table == id_table(*ids),
                cats@ == all_categories(),
                ids@.len() == pages@.len(),
                p < ids@.len(),
                ids@[p as int]@.len() == 15,
                k <= 15,
                forall|t: int| 0 <= t < k ==> (#[trigger] table[p as int][t]).len() == page_elements(pages@[p as int], all_categories()[t]).len(),
            decreases 15 - k,
        {
            let held = match category_elements(&pages[p], cats[k]) {
                Some(items) => items.len(),
                None => 0,
            };
            proof {
                assert(held == page_elements(pages@[p as int], all_categories()[k as int]).len());
                assert(table[p as int][k as int].len() == ids@[p as int]@[k as int]@.len());
            }
            if ids[p][k].len() != held {
                proof {
                    assert(table[p as int].len() == 15);
                }
                return false;
            }
            k = k + 1;
        }
        p = p + 1;
    }
    true
}

/// The IDs of a table, page by page and category by category.
fn flatten_ids(ids: &Vec<Vec<Vec<AuthoringElementId>>>) -> (r: Vec<AuthoringElementId>)
    ensures
        r@ == flat_ids(id_table(*ids)),
{
    let ghost table = id_table(*ids);
    let mut out: Vec<AuthoringElementId> = Vec::new();
    let mut p: usize = 0;
    while p < ids.len()
        invariant
            table == id_table(*ids),
            p <= ids@.len(),
            out@ == flat_ids(table.take(p as int)),
        decreases ids.len() - p,
    {
        let ghost row = table[p as int];
        let mut k: usize = 0;
        while k < ids[p].len()
            invariant
                table == id_table(*ids),
                p < ids@.len(),
                row == table[p as int],
                row.len() == ids@[p as int]@.len(),
                k <= row.len(),
                out@ == flat_ids(table.take(p as int)) + flat_page(row.take(k as int)),
            decreases row.len() - k,
        {
            let ghost base = out@;
            let mut i: usize = 0;
            while i < ids[p][k].len()
                invariant
                    table == id_table(*ids),
                    p < ids@.len(),
                    row == table[p as int],
                    row.len() == ids@[p as int]@.len(),
                    k < row.len(),
                    row[k as int].len() == ids@[p as int]@[k as int]@.len(),
                    i <= row[k as int].len(),
                    out@ == base + row[k as int].take(i as int),
                decreases row[k as int].len() - i,
            {
                out.push(ids[p][k][i]);
                proof {
                    assert(row[k as int].take(i + 1) =~= row[k as int].take(i as int).push(row[k as int][i as int]));
                    assert(out@ =~= base + row[k as int].take(i + 1));
                }
                i = i + 1;
            }
            proof {
                assert(row[k as int].take(i as int) =~= row[k as int]);
                assert(row.take(k + 1).drop_last() =~= row.take(k as int));
                assert(flat_page(row.take(k + 1)) == flat_page(row.take(k as int)) + row[k as int]);
                assert(out@ =~= flat_ids(table.take(p as int)) + flat_page(row.take(k + 1)));
            }
            k = k + 1;
        }
        proof {
            assert(row.take(k as int) =~= row);
            assert(table.take(p + 1).drop_last() =~= table.take(p as int));
            assert(flat_ids(table.take(p + 1)) == flat_ids(table.take(p as int)) + flat_page(row));
        }
        p = p + 1;
    }
    proof {
        assert(table.take(p as int) =~= table);
    }
    out
}

/// Whether IDs are positive, below `next_id` and each given once.
fn sound_ids(ids: &Vec<AuthoringElementId>, next_id: u32) -> (r: bool)
    ensures
        r == ids_sound(ids@, next_id),
{
    let mut i: usize = 0;
    while i < ids.len()
        invariant
            i <= ids@.len(),
            forall|a: int, b: int| 0 <= a < b < i ==> ids@[a] != ids@[b],
            forall|j: int| 0 <= j < i ==> 0 < (#[trigger] ids@[j]).0 < next_id,
        decreases ids.len() - i,
    {
        let x = ids[i];
        if x.0 == 0 || x.0 >= next_id {
            return false;
        }
        let mut j: usize = 0;
        while j < i
            invariant
                j <= i,
                i < ids@.len(),
                x == ids@[i as int],
                forall|b: int| 0 <= b < j ==> ids@[b] != x,
            decreases i - j,
        {
            if ids[j].0 == x.0 {
                proof {
                    assert(ids@[j as int] == x);
                }
                return false;
            }
            j = j + 1;
        }
        i = i + 1;
    }
    proof {
        assert forall|a: int, b: int| 0 <= a < ids@.len() && 0 <= b < ids@.len() && a != b implies ids@[a] != ids@[b] by {
            if a > b {
                assert(ids@[b] != ids@[a]);
            }
        }
    }
    true
}

/// Whether every change names an ID that is positive and below `next_id`.
fn sound_changes(changes: &Vec<AuthoringElementChange>, next_id: u32) -> (r: bool)
    ensures
        r == changes_sound(changes@, next_id),
{
    let mut j: usize = 0;
    while j < changes.len()
        invariant
            j <= changes@.len(),
            forall|t: int| 0 <= t < j ==> 0 < (#[trigger] changes@[t]).id.0 < next_id,
        decreases changes.len() - j,
    {
        if changes[j].id.0 == 0 || changes[j].id.0 >= next_id {
            return false;
        }
        j = j + 1;
    }
    true
}

fn invalid_checkpoint(message: &str) -> (r: AuthoringError)
    ensures
        r is InvalidCheckpoint,
{
    AuthoringError::InvalidCheckpoint(String::from_str(message))
}

/// The history entry a checkpoint entry holds, where it is sound.
fn restore_entry(e: CheckpointEntry, next_id: u32) -> (r: Result<HistoryEntry, AuthoringError>)
    ensures
        r is Ok <==> entry_sound(e, next_id),
        r matches Ok(h) ==> entry_restored(e, entry_state(h), entry_report(h)),
        r matches Err(x) ==> x is InvalidCheckpoint || x is Document,
{
    let ghost original = e;
    let CheckpointEntry { document, ids, selected_id, forward, reverse, page_forward, page_reverse } = e;
    let ghost doc_value = document;
    let d = match GameProfileDocument::from_export_value(document) {
        Ok(d) => d,
        Err(x) => {
            return Err(AuthoringError::Document(x));
        },
    };
    proof {
        law_exports_import_again(d);
        assert(exported_pages(d.value()) == exported_pages(doc_value));
        assert(d.pages_spec() == exported_pages(doc_value));
    }
    if !ids_fit_pages(&ids, d.pages()) {
        return Err(invalid_checkpoint("history element IDs do not fit their document"));
    }
    let flat = flatten_ids(&ids);
    if !sound_ids(&flat, next_id) {
        return Err(invalid_checkpoint("history element IDs must be positive, distinct and below nextId"));
    }
    match selected_id {
        Some(id) => if id.0 == 0 || id.0 >= next_id {
            return Err(invalid_checkpoint("history selections must be positive and below nextId"));
        },
        None => {},
    }
    if !sound_changes(&forward, next_id) || !sound_changes(&reverse, next_id) {
        return Err(invalid_checkpoint("history changes must name positive IDs below nextId"));
    }
    Ok(HistoryEntry { document: d, ids, selected_id, forward, reverse, page_forward, page_reverse })
}

/// The history entries checkpoint entries hold, where all are sound.
fn restore_entries(entries: Vec<CheckpointEntry>, next_id: u32) -> (r: Result<Vec<HistoryEntry>, AuthoringError>)
    ensures
        r is Ok <==> forall|j: int| 0 <= j < entries@.len() ==> entry_sound(#[trigger] entries@[j], next_id),
        r matches Ok(h) ==> h@.len() == entries@.len() && forall|j: int|
            0 <= j < entries@.len() ==> entry_restored(#[trigger] entries@[j], entry_state(h@[j]), entry_report(h@[j])),
        r matches Err(x) ==> x is InvalidCheckpoint || x is Document,
{
    let ghost all = entries@;
    let total = entries.len();
    let mut rest = entries;
    let mut out: Vec<HistoryEntry> = Vec::new();
    let mut n: usize = 0;
    let mut bad: Option<AuthoringError> = None;
    while rest.len() > 0 && bad.is_none()
        invariant
            all.len() == total,
            n <= all.len(),
            bad is None ==> rest@ == all.skip(n as int),
            out@.len() == n,
            forall|j: int| 0 <= j < n ==> entry_sound(#[trigger] all[j], next_id),
            forall|j: int| 0 <= j < n ==> entry_restored(#[trigger] all[j], entry_state(out@[j]), entry_report(out@[j])),
            bad matches Some(x) ==> (x is InvalidCheckpoint || x is Document) && n < all.len() && !entry_sound(all[n as int], next_id),
        decreases rest@.len(),
    {
        let e = rest.remove(0);
        proof {
            assert(e == all[n as int]);
        }
        match restore_entry(e, next_id) {
            Ok(h) => {
                out.push(h);
                proof {
                    assert(rest@ =~= all.skip(n + 1));
                }
                n = n + 1;
            },
            Err(x) => {
                bad = Some(x);
            },
        }
    }
    match bad {
        Some(x) => {
            return Err(x);
        },
        None => {},
    }
    Ok(out)
}

/// The changes, copied.
fn copy_changes(changes: &Vec<AuthoringElementChange>) -> (r: Vec<AuthoringElementChange>)
    ensures
        fields_of(r@) == fields_of(changes@),
{
    let mut out: Vec<AuthoringElementChange> = Vec::new();
    let mut j: usize = 0;
    while j < changes.len()
        invariant
            j <= changes@.len(),
            out@.len() == j,
            forall|t: int| 0 <= t < j ==> change_fields(#[trigger] out@[t]) == change_fields(changes@[t]),
        decreases changes.len() - j,
    {
        let c = &changes[j];
        let element = match &c.element {
            Some(e) => Some(e.duplicate()),
            None => None,
        };
        out.push(AuthoringElementChange { id: c.id, page: c.page, category: c.category, kind: c.kind, element });
        j = j + 1;
    }
    proof {
        assert(fields_of(out@) =~= fields_of(changes@));
    }
    out
}

/// The page changes, copied.
fn copy_page_changes(changes: &Vec<AuthoringPageChange>) -> (r: Vec<AuthoringPageChange>)
    ensures
        r@ == changes@,
{
    let mut out: Vec<AuthoringPageChange> = Vec::new();
    let mut j: usize = 0;
    while j < changes.len()
        invariant
            j <= changes@.len(),
            out@ == changes@.take(j as int),
        decreases changes.len() - j,
    {
        out.push(changes[j]);
        proof {
            assert(changes@.take(j + 1) =~= changes@.take(j as int).push(changes@[j as int]));
        }
        j = j + 1;
    }
    proof {
        assert(changes@.take(j as int) =~= changes@);
    }
    out
}

/// Checkpoint entries holding what history entries hold.
fn save_entries(entries: &Vec<HistoryEntry>) -> (r: Vec<CheckpointEntry>)
    ensures
        r@.len() == entries@.len(),
        forall|j: int| 0 <= j < entries@.len() ==> entry_saved(#[trigger] r@[j], entry_state(entries@[j]), entry_report(entries@[j])),
{
    let mut out: Vec<CheckpointEntry> = Vec::new();
    let mut j: usize = 0;
    while j < entries.len()
        invariant
            j <= entries@.len(),
            out@.len() == j,
            forall|t: int| 0 <= t < j ==> entry_saved(#[trigger] out@[t], entry_state(entries@[t]), entry_report(entries@[t])),
        decreases entries.len() - j,
    {
        let e = &entries[j];
        let saved_entry = CheckpointEntry {
            document: e.document.export_value().duplicate(),
            ids: copy_ids(&e.ids),
            selected_id: e.selected_id,
            forward: copy_changes(&e.forward),
            reverse: copy_changes(&e.reverse),
            page_forward: copy_page_changes(&e.page_forward),
            page_reverse: copy_page_changes(&e.page_reverse),
        };
        out.push(saved_entry);
        j = j + 1;
    }
    out
}

impl AuthoringSession {
    /// Restores the session a checkpoint holds, where
    /// [`checkpoint_accepted`] says it may be: a wrong schema tag, a
    /// revision past [`MAX_CHECKPOINT_REVISION`], too long a history, IDs
    /// that do not fit or are not sound, or a selection the IDs do not hold
    /// is an invalid checkpoint; a document that is refused is refused as
    /// such.
    pub fn from_checkpoint(c: AuthoringCheckpoint) -> (r: Result<AuthoringSession, AuthoringError>)
        ensures
            r is Ok <==> checkpoint_accepted(c),
            c.schema@ != AUTHORING_CHECKPOINT_SCHEMA@ ==> r matches Err(AuthoringError::InvalidCheckpoint(_)),
            c.schema@ == AUTHORING_CHECKPOINT_SCHEMA@ && c.revision > MAX_CHECKPOINT_REVISION ==> r matches Err(
                AuthoringError::InvalidCheckpoint(_),
            ),
            c.schema@ == AUTHORING_CHECKPOINT_SCHEMA@ && c.revision <= MAX_CHECKPOINT_REVISION && c.undo@.len() + c.redo@.len()
                > AUTHORING_HISTORY_LIMIT ==> r matches Err(AuthoringError::InvalidCheckpoint(_)),
            c.schema@ == AUTHORING_CHECKPOINT_SCHEMA@ && c.revision <= MAX_CHECKPOINT_REVISION && c.undo@.len() + c.redo@.len()
                <= AUTHORING_HISTORY_LIMIT && export_refusal(c.document) is Some ==> r == Err::<AuthoringSession, AuthoringError>(
                AuthoringError::Document(export_refusal(c.document).unwrap()),
            ),
            r matches Err(x) ==> x is InvalidCheckpoint || x is Document,
            r matches Ok(s) ==> restored(c, s),
    {
        let ghost cv = c;
        if !crate::text::str_eq(c.schema.as_str(), AUTHORING_CHECKPOINT_SCHEMA) {
            return Err(invalid_checkpoint("unsupported checkpoint schema"));
        }
        if c.revision > MAX_CHECKPOINT_REVISION {
            return Err(invalid_checkpoint("revision exceeds 9007199254740991"));
        }
        if c.undo.len() > AUTHORING_HISTORY_LIMIT || c.redo.len() > AUTHORING_HISTORY_LIMIT - c.undo.len() {
            return Err(invalid_checkpoint("history holds more than 150 entries"));
        }
        let AuthoringCheckpoint { schema, document, ids, next_id, revision, undo, redo, selected_id } = c;
        let ghost doc_value = document;
        let document = match GameProfileDocument::from_export_value(document) {
            Ok(d) => d,
            Err(x) => {
                return Err(AuthoringError::Document(x));
            },
        };
        proof {
            law_exports_import_again(document);
            assert(exported_pages(document.value()) == exported_pages(doc_value));
            assert(document.pages_spec() == exported_pages(doc_value));
        }
        if !ids_fit_pages(&ids, document.pages()) {
            return Err(invalid_checkpoint("element IDs do not fit the document"));
        }
        let flat = flatten_ids(&ids);
        if next_id == 0 || !sound_ids(&flat, next_id) {
            return Err(invalid_checkpoint("element IDs must be positive, distinct and below nextId"));
        }
        let mut session = AuthoringSession {
            document,
            ids,
            next_id,
            revision,
            undo: Vec::new(),
            redo: Vec::new(),
            selected_id,
            gesture: None,
            gesture_before: None,
        };
        proof {
            assert(session.state().ids == id_table(cv.ids));
        }
        match selected_id {
            Some(id) => if session.locate(id).is_none() {
                return Err(invalid_checkpoint("selectedId does not exist in the restored document"));
            },
            None => {},
        }
        let undo_entries = restore_entries(undo, next_id)?;
        let redo_entries = restore_entries(redo, next_id)?;
        session.undo = undo_entries;
        session.redo = redo_entries;
        proof {
            assert(restored(cv, session)) by {
                assert forall|j: int| 0 <= j < cv.undo@.len() implies entry_restored(#[trigger] cv.undo@[j], session.undo_states()[j], session.undo_reports()[j]) by {
                    assert(session.undo_states()[j] == entry_state(session.undo@[j]));
                    assert(session.undo_reports()[j] == entry_report(session.undo@[j]));
                }
                assert forall|j: int| 0 <= j < cv.redo@.len() implies entry_restored(#[trigger] cv.redo@[j], session.redo_states()[j], session.redo_reports()[j]) by {
                    assert(session.redo_states()[j] == entry_state(session.redo@[j]));
                    assert(session.redo_reports()[j] == entry_report(session.redo@[j]));
                }
            }
        }
        Ok(session)
    }

    /// The checkpoint of this session; refused while a gesture is active.
    pub fn checkpoint(&self) -> (r: Result<AuthoringCheckpoint, AuthoringError>)
        ensures
            r is Err <==> self.gesture_spec() is Some,
            r matches Err(x) ==> x == AuthoringError::CheckpointGestureInProgress,
            r matches Ok(c) ==> saved(*self, c),
    {
        if self.gesture.is_some() {
            return Err(AuthoringError::CheckpointGestureInProgress);
        }
        let undo = save_entries(&self.undo);
        let redo = save_entries(&self.redo);
        let c = AuthoringCheckpoint {
            schema: String::from_str(AUTHORING_CHECKPOINT_SCHEMA),
            document: self.document.export_value().duplicate(),
            ids: copy_ids(&self.ids),
            next_id: self.next_id,
            revision: self.revision,
            undo,
            redo,
            selected_id: self.selected_id,
        };
        proof {
            assert forall|j: int| 0 <= j < c.undo@.len() implies entry_saved(#[trigger] c.undo@[j], self.undo_states()[j], self.undo_reports()[j]) by {
                assert(self.undo_states()[j] == entry_state(self.undo@[j]));
                assert(self.undo_reports()[j] == entry_report(self.undo@[j]));
            }
            assert forall|j: int| 0 <= j < c.redo@.len() implies entry_saved(#[trigger] c.redo@[j], self.redo_states()[j], self.redo_reports()[j]) by {
                assert(self.redo_states()[j] == entry_state(self.redo@[j]));
                assert(self.redo_reports()[j] == entry_report(self.redo@[j]));
            }
        }
        Ok(c)
    }
}

} // verus!
