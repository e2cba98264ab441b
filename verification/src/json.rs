//! JSON values as the profile, document and master-data logic reads them.
//!
//! A value keeps what the logic looks at: its shape, strings, integers and
//! the keys of objects. A number that is not an integer is kept by the bits
//! of its `f64`, so that a value read in and written back out is unchanged.

use vstd::prelude::*;

verus! {

broadcast use vstd::string::group_string_axioms;

/// A JSON number: a non-negative integer, a negative integer, or any other
/// number by the bits of its `f64`.
#[derive(Clone, Copy, Debug, PartialEq, Eq, Structural)]
pub enum JsonNumber {
    PosInt(u64),
    NegInt(i64),
    Float(u64),
}

/// A JSON value. An object lists its members in order, each key once.
#[derive(Debug, PartialEq)]
pub enum JsonValue {
    Null,
    Bool(bool),
    Number(JsonNumber),
    String(String),
    Array(Vec<JsonValue>),
    Object(Vec<(String, JsonValue)>),
}

/// The position of the first member of `entries` named `key`.
pub open spec fn member_index(entries: Seq<(String, JsonValue)>, key: Seq<char>) -> Option<int>
    decreases entries.len(),
{
    if entries.len() == 0 {
        None
    } else if entries[0].0@ == key {
        Some(0)
    } else {
        match member_index(entries.drop_first(), key) {
            Some(i) => Some(i + 1),
            None => None,
        }
    }
}

pub proof fn lemma_member_index(entries: Seq<(String, JsonValue)>, key: Seq<char>)
    ensures
        match member_index(entries, key) {
            Some(i) => 0 <= i < entries.len() && entries[i].0@ == key && forall|j: int|
                0 <= j < i ==> (#[trigger] entries[j]).0@ != key,
            None => forall|j: int| 0 <= j < entries.len() ==> (#[trigger] entries[j]).0@ != key,
        },
    decreases entries.len(),
{
    if entries.len() > 0 && entries[0].0@ != key {
        lemma_member_index(entries.drop_first(), key);
        assert forall|j: int| 1 <= j < entries.len() implies entries[j] == entries.drop_first()[j - 1] by {}
    }
}

/// The member of an object named `key`; nothing for a value that is not an
/// object or has no such member.
pub open spec fn member(value: JsonValue, key: Seq<char>) -> Option<JsonValue> {
    match value {
        JsonValue::Object(entries) => entry_value(entries@, key),
        _ => None,
    }
}

/// The integer a value holds, if it is one that fits in an `i64`.
pub open spec fn int_of(value: JsonValue) -> Option<i64> {
    match value {
        JsonValue::Number(JsonNumber::PosInt(n)) => if n <= i64::MAX as u64 {
            Some(n as i64)
        } else {
            None
        },
        JsonValue::Number(JsonNumber::NegInt(n)) => Some(n),
        _ => None,
    }
}

/// The integer a member holds, if it is one that fits in an `i64`.
pub open spec fn member_int(value: JsonValue, key: Seq<char>) -> Option<i64> {
    match member(value, key) {
        Some(v) => int_of(v),
        None => None,
    }
}

/// The text a value holds, if it is a string.
pub open spec fn str_of(value: JsonValue) -> Option<Seq<char>> {
    match value {
        JsonValue::String(s) => Some(s@),
        _ => None,
    }
}

/// The text a member holds, if it is a string.
pub open spec fn member_str(value: JsonValue, key: Seq<char>) -> Option<Seq<char>> {
    match member(value, key) {
        Some(v) => str_of(v),
        None => None,
    }
}

/// The items of a value, if it is an array.
pub open spec fn items_of(value: JsonValue) -> Option<Seq<JsonValue>> {
    match value {
        JsonValue::Array(items) => Some(items@),
        _ => None,
    }
}

/// The items of a member, if it is an array.
pub open spec fn member_items(value: JsonValue, key: Seq<char>) -> Option<Seq<JsonValue>> {
    match member(value, key) {
        Some(v) => items_of(v),
        None => None,
    }
}

/// `after` is `before` with member `key` set to `value`: the first member
/// of that name given the value, or the member added at the end.
pub open spec fn sets_member(
    before: Seq<(String, JsonValue)>,
    after: Seq<(String, JsonValue)>,
    key: Seq<char>,
    value: JsonValue,
) -> bool {
    match member_index(before, key) {
        Some(i) => after == before.update(i, (before[i].0, value)),
        None => {
            &&& after.len() == before.len() + 1
            &&& after.take(before.len() as int) == before
            &&& after.last().0@ == key
            &&& after.last().1 == value
        },
    }
}

/// Members are found by their keys alone.
pub proof fn lemma_same_keys_same_index(a: Seq<(String, JsonValue)>, b: Seq<(String, JsonValue)>, key: Seq<char>)
    requires
        a.len() == b.len(),
        forall|j: int| 0 <= j < a.len() ==> (#[trigger] a[j]).0@ == b[j].0@,
    ensures
        member_index(a, key) == member_index(b, key),
    decreases a.len(),
{
    if a.len() > 0 {
        assert(a[0].0@ == b[0].0@);
        assert forall|j: int| 0 <= j < a.drop_first().len() implies (#[trigger] a.drop_first()[j]).0@
            == b.drop_first()[j].0@ by {
            assert(a[j + 1].0@ == b[j + 1].0@);
        }
        lemma_same_keys_same_index(a.drop_first(), b.drop_first(), key);
    }
}

/// What the member named `key` among `entries` holds.
pub open spec fn entry_value(entries: Seq<(String, JsonValue)>, key: Seq<char>) -> Option<JsonValue> {
    match member_index(entries, key) {
        Some(i) => Some(entries[i].1),
        None => None,
    }
}

/// Setting a member that is there changes only what that member holds.
pub proof fn lemma_replaced_member(
    before: Seq<(String, JsonValue)>,
    after: Seq<(String, JsonValue)>,
    key: Seq<char>,
    value: JsonValue,
    other: Seq<char>,
)
    requires
        member_index(before, key) is Some,
        sets_member(before, after, key, value),
    ensures
        after.len() == before.len(),
        entry_value(after, other) == if other == key {
            Some(value)
        } else {
            entry_value(before, other)
        },
{
    let i = member_index(before, key).unwrap();
    lemma_member_index(before, key);
    assert forall|j: int| 0 <= j < after.len() implies (#[trigger] after[j]).0@ == before[j].0@ by {}
    lemma_same_keys_same_index(after, before, other);
    lemma_member_index(before, other);
}

impl JsonValue {
    /// The member named `key`, for an object that has one.
    pub fn get(&self, key: &str) -> (r: Option<&JsonValue>)
        ensures
            match r {
                Some(v) => member(*self, key@) == Some(*v),
                None => member(*self, key@) is None,
            },
    {
        match self {
            JsonValue::Object(entries) => {
                proof {
                    lemma_member_index(entries@, key@);
                }
                let mut i: usize = 0;
                while i < entries.len()
                    invariant
                        i <= entries@.len(),
                        *self is Object && self->Object_0@ == entries@,
                        forall|j: int| 0 <= j < i ==> (#[trigger] entries@[j]).0@ != key@,
                        match member_index(entries@, key@) {
                            Some(k) => 0 <= k < entries@.len() && entries@[k].0@ == key@ && forall|j: int|
                                0 <= j < k ==> (#[trigger] entries@[j]).0@ != key@,
                            None => forall|j: int| 0 <= j < entries@.len() ==> (#[trigger] entries@[j]).0@ != key@,
                        },
                    decreases entries.len() - i,
                {
                    if crate::text::str_eq(entries[i].0.as_str(), key) {
                        proof {
                            assert(entries@[i as int].0@ == key@);
                            if let Some(k) = member_index(entries@, key@) {
                                if k < i {
                                    assert(entries@[k].0@ != key@);
                                }
                                if k > i {
                                    assert(entries@[i as int].0@ != key@);
                                }
                            }
                            assert(member_index(entries@, key@) == Some(i as int));
                        }
                        return Some(&entries[i].1);
                    }
                    i = i + 1;
                }
                None
            },
            _ => None,
        }
    }

    /// The item at `index`, for an array that long.
    pub fn at(&self, index: usize) -> (r: Option<&JsonValue>)
        ensures
            match r {
                Some(v) => items_of(*self) is Some && index < items_of(*self).unwrap().len() && *v == items_of(
                    *self,
                ).unwrap()[index as int],
                None => items_of(*self) is None || index >= items_of(*self).unwrap().len(),
            },
    {
        match self {
            JsonValue::Array(items) => if index < items.len() {
                Some(&items[index])
            } else {
                None
            },
            _ => None,
        }
    }

    /// The integer the value holds, if it is one that fits in an `i64`.
    pub fn as_i64(&self) -> (r: Option<i64>)
        ensures
            r == int_of(*self),
    {
        match self {
            JsonValue::Number(JsonNumber::PosInt(n)) => if *n <= 0x7fff_ffff_ffff_ffffu64 {
                Some(*n as i64)
            } else {
                None
            },
            JsonValue::Number(JsonNumber::NegInt(n)) => Some(*n),
            _ => None,
        }
    }

    /// The text the value holds, if it is a string.
    pub fn as_str(&self) -> (r: Option<&str>)
        ensures
            match r {
                Some(s) => str_of(*self) == Some(s@),
                None => str_of(*self) is None,
            },
    {
        match self {
            JsonValue::String(s) => Some(s.as_str()),
            _ => None,
        }
    }

    /// The items of the value, if it is an array.
    pub fn as_array(&self) -> (r: Option<&Vec<JsonValue>>)
        ensures
            match r {
                Some(items) => items_of(*self) == Some(items@),
                None => items_of(*self) is None,
            },
    {
        match self {
            JsonValue::Array(items) => Some(items),
            _ => None,
        }
    }

    /// Whether the value is an object.
    pub fn is_object(&self) -> (r: bool)
        ensures
            r == (*self is Object),
    {
        match self {
            JsonValue::Object(_) => true,
            _ => false,
        }
    }

    /// Sets member `key` of an object to `value`: replaces the member of
    /// that name, or adds it at the end. A value that is not an object is
    /// left as it is.
    pub fn set(&mut self, key: String, value: JsonValue)
        ensures
            match *old(self) {
                JsonValue::Object(entries) => *final(self) is Object && sets_member(
                    entries@,
                    final(self)->Object_0@,
                    key@,
                    value,
                ),
                _ => *final(self) == *old(self),
            },
    {
        match self {
            JsonValue::Object(entries) => set_member(entries, key, value),
            _ => {},
        }
    }
}

/// Sets member `key` of an object's members to `value`: the first member of
/// that name, or a new member at the end.
pub fn set_member(entries: &mut Vec<(String, JsonValue)>, key: String, value: JsonValue)
    ensures
        sets_member(old(entries)@, final(entries)@, key@, value),
{
    proof {
        lemma_member_index(entries@, key@);
    }
    let mut i: usize = 0;
    while i < entries.len()
        invariant
            i <= entries@.len(),
            entries@ == old(entries)@,
            forall|j: int| 0 <= j < i ==> (#[trigger] entries@[j]).0@ != key@,
            match member_index(entries@, key@) {
                Some(k) => 0 <= k < entries@.len() && entries@[k].0@ == key@ && forall|j: int|
                    0 <= j < k ==> (#[trigger] entries@[j]).0@ != key@,
                None => forall|j: int| 0 <= j < entries@.len() ==> (#[trigger] entries@[j]).0@ != key@,
            },
        decreases entries.len() - i,
    {
        if crate::text::str_eq(entries[i].0.as_str(), key.as_str()) {
            proof {
                assert(entries@[i as int].0@ == key@);
                if let Some(k) = member_index(entries@, key@) {
                    if k < i {
                        assert(entries@[k].0@ != key@);
                    }
                    if k > i {
                        assert(entries@[i as int].0@ != key@);
                    }
                }
                assert(member_index(entries@, key@) == Some(i as int));
            }
            let name = entries[i].0.clone();
            entries.set(i, (name, value));
            return;
        }
        i = i + 1;
    }
    proof {
        if let Some(k) = member_index(entries@, key@) {
            assert(entries@[k].0@ != key@);
        }
    }
    entries.push((key, value));
    proof {
        assert(entries@.take(old(entries)@.len() as int) =~= old(entries)@);
    }
}


/// Whether two values hold the same JSON: the same shape, and the same
/// strings, numbers and member names at every place.
pub open spec fn same(a: JsonValue, b: JsonValue) -> bool
    decreases a, 0int,
{
    match a {
        JsonValue::Array(x) => match b {
            JsonValue::Array(y) => x@.len() == y@.len() && same_items(x@, y@, x@.len() as int),
            _ => false,
        },
        JsonValue::Object(x) => match b {
            JsonValue::Object(y) => x@.len() == y@.len() && same_entries(x@, y@, x@.len() as int),
            _ => false,
        },
        JsonValue::String(s) => b is String && b->String_0@ == s@,
        JsonValue::Null => b is Null,
        JsonValue::Bool(v) => b == JsonValue::Bool(v),
        JsonValue::Number(n) => b == JsonValue::Number(n),
    }
}

/// Whether the first `n` items of two arrays hold the same JSON.
pub open spec fn same_items(xs: Seq<JsonValue>, ys: Seq<JsonValue>, n: int) -> bool
    decreases xs, n,
{
    if n <= 0 {
        true
    } else if n > xs.len() || n > ys.len() {
        false
    } else {
        same_items(xs, ys, n - 1) && same(xs[n - 1], ys[n - 1])
    }
}

/// Whether the first `n` members of two objects have the same names and
/// hold the same JSON.
pub open spec fn same_entries(xs: Seq<(String, JsonValue)>, ys: Seq<(String, JsonValue)>, n: int) -> bool
    decreases xs, n,
{
    if n <= 0 {
        true
    } else if n > xs.len() || n > ys.len() {
        false
    } else {
        same_entries(xs, ys, n - 1) && xs[n - 1].0@ == ys[n - 1].0@ && same(xs[n - 1].1, ys[n - 1].1)
    }
}

proof fn lemma_same_items_prefix(a: Seq<JsonValue>, b: Seq<JsonValue>, ys: Seq<JsonValue>, n: int)
    requires
        0 <= n <= a.len(),
        n <= b.len(),
        forall|t: int| 0 <= t < n ==> a[t] == b[t],
    ensures
        same_items(a, ys, n) == same_items(b, ys, n),
    decreases n,
{
    if n > 0 {
        lemma_same_items_prefix(a, b, ys, n - 1);
    }
}

proof fn lemma_same_entries_prefix(
    a: Seq<(String, JsonValue)>,
    b: Seq<(String, JsonValue)>,
    ys: Seq<(String, JsonValue)>,
    n: int,
)
    requires
        0 <= n <= a.len(),
        n <= b.len(),
        forall|t: int| 0 <= t < n ==> a[t] == b[t],
    ensures
        same_entries(a, ys, n) == same_entries(b, ys, n),
    decreases n,
{
    if n > 0 {
        lemma_same_entries_prefix(a, b, ys, n - 1);
    }
}

/// The `j`-th members of two objects holding the same JSON have the same
/// name and hold the same JSON.
pub proof fn lemma_same_entries_at(xs: Seq<(String, JsonValue)>, ys: Seq<(String, JsonValue)>, n: int, j: int)
    requires
        same_entries(xs, ys, n),
        0 <= j < n,
    ensures
        xs[j].0@ == ys[j].0@,
        same(xs[j].1, ys[j].1),
    decreases n,
{
    if j < n - 1 {
        lemma_same_entries_at(xs, ys, n - 1, j);
    }
}

/// The `j`-th items of two arrays holding the same JSON hold the same JSON.
pub proof fn lemma_same_items_at(xs: Seq<JsonValue>, ys: Seq<JsonValue>, n: int, j: int)
    requires
        same_items(xs, ys, n),
        0 <= j < n,
    ensures
        same(xs[j], ys[j]),
    decreases n,
{
    if j < n - 1 {
        lemma_same_items_at(xs, ys, n - 1, j);
    }
}

/// Values holding the same JSON have the same members, holding the same
/// JSON.
pub proof fn lemma_same_member(a: JsonValue, b: JsonValue, key: Seq<char>)
    requires
        same(a, b),
    ensures
        member(a, key) is Some == member(b, key) is Some,
        member(a, key) is Some ==> same(member(a, key).unwrap(), member(b, key).unwrap()),
{
    match (a, b) {
        (JsonValue::Object(x), JsonValue::Object(y)) => {
            assert forall|j: int| 0 <= j < x@.len() implies (#[trigger] x@[j]).0@ == y@[j].0@ by {
                lemma_same_entries_at(x@, y@, x@.len() as int, j);
            }
            lemma_same_keys_same_index(x@, y@, key);
            lemma_member_index(x@, key);
            if let Some(j) = member_index(x@, key) {
                lemma_same_entries_at(x@, y@, x@.len() as int, j);
            }
        },
        _ => {},
    }
}

/// Values holding the same JSON are arrays alike, of the same length, their
/// items holding the same JSON.
pub proof fn lemma_same_items_of(a: JsonValue, b: JsonValue)
    requires
        same(a, b),
    ensures
        items_of(a) is Some == items_of(b) is Some,
        items_of(a) is Some ==> items_of(a).unwrap().len() == items_of(b).unwrap().len(),
        items_of(a) is Some ==> forall|j: int|
            0 <= j < items_of(a).unwrap().len() ==> same(#[trigger] items_of(a).unwrap()[j], items_of(b).unwrap()[j]),
{
    match (a, b) {
        (JsonValue::Array(x), JsonValue::Array(y)) => {
            assert forall|j: int| 0 <= j < x@.len() implies same(#[trigger] x@[j], y@[j]) by {
                lemma_same_items_at(x@, y@, x@.len() as int, j);
            }
        },
        _ => {},
    }
}

/// A path that starts with a name leads on from the member of that name.
pub proof fn lemma_reaches_key(v: JsonValue, path: Seq<PathStep>)
    requires
        path.len() > 0,
        path[0] is Key,
    ensures
        reaches(v, path) == (member(v, path[0]->Key_0@) matches Some(c) && reaches(c, path.drop_first())),
{
    match v {
        JsonValue::Object(entries) => {
            lemma_member_index(entries@, path[0]->Key_0@);
        },
        _ => {},
    }
}

/// A path that starts with a position leads on from the item there.
pub proof fn lemma_reaches_index(v: JsonValue, path: Seq<PathStep>)
    requires
        path.len() > 0,
        path[0] is Index,
    ensures
        reaches(v, path) == (items_of(v) matches Some(xs) && path[0]->Index_0 < xs.len() && reaches(
            xs[path[0]->Index_0 as int],
            path.drop_first(),
        )),
{
}

/// Whether `path` leads through `v` to an array with an item at `index`.
pub open spec fn holds_item(v: JsonValue, path: Seq<PathStep>, index: int) -> bool
    decreases path.len(),
{
    if path.len() == 0 {
        v is Array && 0 <= index < v->Array_0@.len()
    } else {
        match path[0] {
            PathStep::Key(k) => match v {
                JsonValue::Object(entries) => match member_index(entries@, k@) {
                    Some(j) => holds_item(entries@[j].1, path.drop_first(), index),
                    None => false,
                },
                _ => false,
            },
            PathStep::Index(i) => match v {
                JsonValue::Array(items) => i < items@.len() && holds_item(items@[i as int], path.drop_first(), index),
                _ => false,
            },
        }
    }
}

/// A path that starts with a name holds an item as the member of that name does.
pub proof fn lemma_holds_item_key(v: JsonValue, path: Seq<PathStep>, index: int)
    requires
        path.len() > 0,
        path[0] is Key,
    ensures
        holds_item(v, path, index) == (member(v, path[0]->Key_0@) matches Some(c) && holds_item(
            c,
            path.drop_first(),
            index,
        )),
{
    match v {
        JsonValue::Object(entries) => {
            lemma_member_index(entries@, path[0]->Key_0@);
        },
        _ => {},
    }
}

/// Setting a member at the end of `path` leaves every path no longer than
/// it leading where it led.
pub proof fn lemma_edits_keep_reach(
    v: JsonValue,
    path: Seq<PathStep>,
    key: Seq<char>,
    value: JsonValue,
    r: JsonValue,
    other: Seq<PathStep>,
)
    requires
        edits(v, path, key, value, r),
        other.len() <= path.len(),
    ensures
        reaches(r, other) == reaches(v, other),
    decreases path.len(),
{
    if other.len() > 0 {
        match path[0] {
            PathStep::Key(k) => match v {
                JsonValue::Object(entries) => {
                    assert(path[0] == PathStep::Key(k));
                    lemma_member_index(entries@, k@);
                    assert(member_index(entries@, k@) is Some);
                    let j = member_index(entries@, k@).unwrap();
                    let after = r->Object_0@;
                    assert(after == entries@.update(j, (entries@[j].0, after[j].1)));
                    assert forall|t: int| 0 <= t < entries@.len() implies (#[trigger] entries@[t]).0@ == after[t].0@ by {
                        assert(after[t] == entries@.update(j, (entries@[j].0, after[j].1))[t]);
                    }
                    match other[0] {
                        PathStep::Key(k2) => {
                            lemma_same_keys_same_index(entries@, after, k2@);
                            lemma_member_index(entries@, k2@);
                            match member_index(entries@, k2@) {
                                Some(j2) => {
                                    if j2 == j {
                                        lemma_edits_keep_reach(
                                            entries@[j].1,
                                            path.drop_first(),
                                            key,
                                            value,
                                            after[j].1,
                                            other.drop_first(),
                                        );
                                    } else {
                                        assert(after[j2] == entries@.update(j, (entries@[j].0, after[j].1))[j2]);
                                    }
                                },
                                None => {},
                            }
                            assert(reaches(r, other) == reaches(v, other));
                        },
                        PathStep::Index(_) => {
                            assert(reaches(r, other) == reaches(v, other));
                        },
                    }
                },
                _ => {},
            },
            PathStep::Index(i) => match v {
                JsonValue::Array(items) => {
                    assert(path[0] == PathStep::Index(i));
                    let after = r->Array_0@;
                    assert(after == items@.update(i as int, after[i as int]));
                    match other[0] {
                        PathStep::Index(i2) => {
                            if i2 < items@.len() {
                                if i2 == i {
                                    lemma_edits_keep_reach(
                                        items@[i as int],
                                        path.drop_first(),
                                        key,
                                        value,
                                        after[i as int],
                                        other.drop_first(),
                                    );
                                } else {
                                    assert(after[i2 as int] == items@[i2 as int]);
                                }
                            }
                        },
                        PathStep::Key(_) => {},
                    }
                },
                _ => {},
            },
        }
    } else if path.len() > 0 {
        match path[0] {
            PathStep::Key(k) => {
                assert(v is Object && r is Object);
            },
            PathStep::Index(i) => {
                assert(v is Array && r is Array);
            },
        }
    }
}

/// Setting a member through a path that starts with a name sets it inside
/// the member of that name and leaves the other members as they were.
pub proof fn lemma_edits_key_step(v: JsonValue, path: Seq<PathStep>, key: Seq<char>, value: JsonValue, r: JsonValue)
    requires
        edits(v, path, key, value, r),
        path.len() > 0,
        path[0] is Key,
    ensures
        v is Object,
        r is Object,
        member(v, path[0]->Key_0@) is Some,
        member(r, path[0]->Key_0@) is Some,
        edits(member(v, path[0]->Key_0@).unwrap(), path.drop_first(), key, value, member(r, path[0]->Key_0@).unwrap()),
        forall|other: Seq<char>| other != path[0]->Key_0@ ==> #[trigger] member(r, other) == member(v, other),
{
    let k0 = path[0]->Key_0@;
    match v {
        JsonValue::Object(entries) => {
            lemma_member_index(entries@, k0);
            let j = member_index(entries@, k0).unwrap();
            let after = r->Object_0@;
            assert(after == entries@.update(j, (entries@[j].0, after[j].1)));
            assert forall|t: int| 0 <= t < entries@.len() implies (#[trigger] entries@[t]).0@ == after[t].0@ by {
                assert(after[t] == entries@.update(j, (entries@[j].0, after[j].1))[t]);
            }
            assert forall|other: Seq<char>| other != k0 implies #[trigger] member(r, other) == member(v, other) by {
                lemma_same_keys_same_index(entries@, after, other);
                lemma_member_index(entries@, other);
                if let Some(j2) = member_index(entries@, other) {
                    assert(j2 != j);
                    assert(after[j2] == entries@.update(j, (entries@[j].0, after[j].1))[j2]);
                }
            }
            lemma_same_keys_same_index(entries@, after, k0);
        },
        _ => {},
    }
}

/// Setting a member through a path that starts with a position sets it
/// inside the item there and leaves the other items as they were.
pub proof fn lemma_edits_index_step(v: JsonValue, path: Seq<PathStep>, key: Seq<char>, value: JsonValue, r: JsonValue)
    requires
        edits(v, path, key, value, r),
        path.len() > 0,
        path[0] is Index,
    ensures
        items_of(v) is Some,
        items_of(r) is Some,
        items_of(r).unwrap().len() == items_of(v).unwrap().len(),
        path[0]->Index_0 < items_of(v).unwrap().len(),
        forall|q: int|
            0 <= q < items_of(v).unwrap().len() && q != path[0]->Index_0 ==> #[trigger] items_of(r).unwrap()[q]
                == items_of(v).unwrap()[q],
        edits(
            items_of(v).unwrap()[path[0]->Index_0 as int],
            path.drop_first(),
            key,
            value,
            items_of(r).unwrap()[path[0]->Index_0 as int],
        ),
{
    match v {
        JsonValue::Array(items) => {
            let i = path[0]->Index_0 as int;
            let after = r->Array_0@;
            assert(after == items@.update(i, after[i]));
            assert forall|q: int| 0 <= q < items@.len() && q != i implies #[trigger] after[q] == items@[q] by {
                assert(after[q] == items@.update(i, after[i])[q]);
            }
        },
        _ => {},
    }
}

/// Removing an item through a path that starts with a name removes it
/// inside the member of that name and leaves the other members as they were.
pub proof fn lemma_removes_key_step(v: JsonValue, path: Seq<PathStep>, index: int, r: JsonValue)
    requires
        removes(v, path, index, r),
        path.len() > 0,
        path[0] is Key,
    ensures
        v is Object,
        r is Object,
        member(v, path[0]->Key_0@) is Some,
        member(r, path[0]->Key_0@) is Some,
        removes(member(v, path[0]->Key_0@).unwrap(), path.drop_first(), index, member(r, path[0]->Key_0@).unwrap()),
        forall|other: Seq<char>| other != path[0]->Key_0@ ==> #[trigger] member(r, other) == member(v, other),
{
    let k0 = path[0]->Key_0@;
    match v {
        JsonValue::Object(entries) => {
            lemma_member_index(entries@, k0);
            let j = member_index(entries@, k0).unwrap();
            let after = r->Object_0@;
            assert(after == entries@.update(j, (entries@[j].0, after[j].1)));
            assert forall|t: int| 0 <= t < entries@.len() implies (#[trigger] entries@[t]).0@ == after[t].0@ by {
                assert(after[t] == entries@.update(j, (entries@[j].0, after[j].1))[t]);
            }
            assert forall|other: Seq<char>| other != k0 implies #[trigger] member(r, other) == member(v, other) by {
                lemma_same_keys_same_index(entries@, after, other);
                lemma_member_index(entries@, other);
                if let Some(j2) = member_index(entries@, other) {
                    assert(j2 != j);
                    assert(after[j2] == entries@.update(j, (entries@[j].0, after[j].1))[j2]);
                }
            }
            lemma_same_keys_same_index(entries@, after, k0);
        },
        _ => {},
    }
}

/// Removing an item through a path that starts with a position removes it
/// inside the item there and leaves the other items as they were.
pub proof fn lemma_removes_index_step(v: JsonValue, path: Seq<PathStep>, index: int, r: JsonValue)
    requires
        removes(v, path, index, r),
        path.len() > 0,
        path[0] is Index,
    ensures
        items_of(v) is Some,
        items_of(r) is Some,
        items_of(r).unwrap().len() == items_of(v).unwrap().len(),
        path[0]->Index_0 < items_of(v).unwrap().len(),
        forall|q: int|
            0 <= q < items_of(v).unwrap().len() && q != path[0]->Index_0 ==> #[trigger] items_of(r).unwrap()[q]
                == items_of(v).unwrap()[q],
        removes(
            items_of(v).unwrap()[path[0]->Index_0 as int],
            path.drop_first(),
            index,
            items_of(r).unwrap()[path[0]->Index_0 as int],
        ),
{
    match v {
        JsonValue::Array(items) => {
            let i = path[0]->Index_0 as int;
            let after = r->Array_0@;
            assert(after == items@.update(i, after[i]));
            assert forall|q: int| 0 <= q < items@.len() && q != i implies #[trigger] after[q] == items@[q] by {
                assert(after[q] == items@.update(i, after[i])[q]);
            }
        },
        _ => {},
    }
}

/// Appending through a path that starts with a name appends inside the
/// member of that name and leaves the other members as they were.
pub proof fn lemma_pushes_key_step(v: JsonValue, path: Seq<PathStep>, item: JsonValue, r: JsonValue)
    requires
        pushes(v, path, item, r),
        path.len() > 0,
        path[0] is Key,
    ensures
        v is Object,
        r is Object,
        member(v, path[0]->Key_0@) is Some,
        member(r, path[0]->Key_0@) is Some,
        pushes(member(v, path[0]->Key_0@).unwrap(), path.drop_first(), item, member(r, path[0]->Key_0@).unwrap()),
        forall|other: Seq<char>| other != path[0]->Key_0@ ==> #[trigger] member(r, other) == member(v, other),
{
    let k0 = path[0]->Key_0@;
    match v {
        JsonValue::Object(entries) => {
            lemma_member_index(entries@, k0);
            let j = member_index(entries@, k0).unwrap();
            let after = r->Object_0@;
            assert(after == entries@.update(j, (entries@[j].0, after[j].1)));
            assert forall|t: int| 0 <= t < entries@.len() implies (#[trigger] entries@[t]).0@ == after[t].0@ by {
                assert(after[t] == entries@.update(j, (entries@[j].0, after[j].1))[t]);
            }
            assert forall|other: Seq<char>| other != k0 implies #[trigger] member(r, other) == member(v, other) by {
                lemma_same_keys_same_index(entries@, after, other);
                lemma_member_index(entries@, other);
                if let Some(j2) = member_index(entries@, other) {
                    assert(j2 != j);
                    assert(after[j2] == entries@.update(j, (entries@[j].0, after[j].1))[j2]);
                }
            }
            lemma_same_keys_same_index(entries@, after, k0);
        },
        _ => {},
    }
}

/// Appending through a path that starts with a position appends inside the
/// item there and leaves the other items as they were.
pub proof fn lemma_pushes_index_step(v: JsonValue, path: Seq<PathStep>, item: JsonValue, r: JsonValue)
    requires
        pushes(v, path, item, r),
        path.len() > 0,
        path[0] is Index,
    ensures
        items_of(v) is Some,
        items_of(r) is Some,
        items_of(r).unwrap().len() == items_of(v).unwrap().len(),
        path[0]->Index_0 < items_of(v).unwrap().len(),
        forall|q: int|
            0 <= q < items_of(v).unwrap().len() && q != path[0]->Index_0 ==> #[trigger] items_of(r).unwrap()[q]
                == items_of(v).unwrap()[q],
        pushes(
            items_of(v).unwrap()[path[0]->Index_0 as int],
            path.drop_first(),
            item,
            items_of(r).unwrap()[path[0]->Index_0 as int],
        ),
{
    match v {
        JsonValue::Array(items) => {
            let i = path[0]->Index_0 as int;
            let after = r->Array_0@;
            assert(after == items@.update(i, after[i]));
            assert forall|q: int| 0 <= q < items@.len() && q != i implies #[trigger] after[q] == items@[q] by {
                assert(after[q] == items@.update(i, after[i])[q]);
            }
        },
        _ => {},
    }
}

/// After a member is set, the member of that name holds the value and every
/// other member holds what it held, whether the member was there or added.
pub proof fn lemma_set_member_value(
    before: Seq<(String, JsonValue)>,
    after: Seq<(String, JsonValue)>,
    key: Seq<char>,
    value: JsonValue,
    other: Seq<char>,
)
    requires
        sets_member(before, after, key, value),
    ensures
        entry_value(after, other) == if other == key {
            Some(value)
        } else {
            entry_value(before, other)
        },
{
    lemma_member_index(before, key);
    lemma_member_index(before, other);
    lemma_member_index(after, other);
    match member_index(before, key) {
        Some(i) => {
            lemma_replaced_member(before, after, key, value, other);
        },
        None => {
            let n = before.len() as int;
            assert forall|j: int| 0 <= j < n implies #[trigger] after[j] == before[j] by {
                assert(after.take(n)[j] == after[j]);
            }
            match member_index(after, other) {
                Some(j) => {
                    if j < n {
                        assert(after[j] == before[j]);
                        match member_index(before, other) {
                            Some(j2) => {
                                if j2 < j {
                                    assert(after[j2] == before[j2]);
                                }
                                if j < j2 {
                                    assert(before[j].0@ == other);
                                }
                            },
                            None => {
                                assert(before[j].0@ == other);
                            },
                        }
                    } else {
                        assert(j == n);
                        assert(after[j].0@ == key);
                        match member_index(before, other) {
                            Some(j2) => {
                                assert(after[j2] == before[j2]);
                            },
                            None => {},
                        }
                    }
                },
                None => {
                    assert(after[n].0@ == key);
                    match member_index(before, other) {
                        Some(j2) => {
                            assert(after[j2] == before[j2]);
                        },
                        None => {},
                    }
                },
            }
        },
    }
}

impl JsonValue {
    /// A value holding the same JSON as this one.
    pub fn duplicate(&self) -> (r: JsonValue)
        ensures
            same(r, *self),
        decreases *self,
    {
        match self {
            JsonValue::Null => JsonValue::Null,
            JsonValue::Bool(b) => JsonValue::Bool(*b),
            JsonValue::Number(n) => JsonValue::Number(*n),
            JsonValue::String(s) => JsonValue::String(s.clone()),
            JsonValue::Array(items) => {
                let mut out: Vec<JsonValue> = Vec::new();
                let mut i: usize = 0;
                while i < items.len()
                    invariant
                        *self is Array && self->Array_0 == *items,
                        i <= items@.len(),
                        out@.len() == i,
                        same_items(out@, items@, i as int),
                    decreases items.len() - i,
                {
                    assert(decreases_to!(*self => items@[i as int]));
                    let item = items[i].duplicate();
                    let ghost before = out@;
                    out.push(item);
                    proof {
                        lemma_same_items_prefix(before, out@, items@, i as int);
                    }
                    i = i + 1;
                }
                JsonValue::Array(out)
            },
            JsonValue::Object(entries) => {
                let mut out: Vec<(String, JsonValue)> = Vec::new();
                let mut i: usize = 0;
                while i < entries.len()
                    invariant
                        *self is Object && self->Object_0 == *entries,
                        i <= entries@.len(),
                        out@.len() == i,
                        same_entries(out@, entries@, i as int),
                    decreases entries.len() - i,
                {
                    assert(decreases_to!(*self => entries@[i as int].1));
                    let value = entries[i].1.duplicate();
                    let ghost before = out@;
                    out.push((entries[i].0.clone(), value));
                    proof {
                        lemma_same_entries_prefix(before, out@, entries@, i as int);
                    }
                    i = i + 1;
                }
                JsonValue::Object(out)
            },
        }
    }
}

proof fn lemma_same_items_shorter(xs: Seq<JsonValue>, ys: Seq<JsonValue>, n: int, m: int)
    requires
        0 <= n <= m,
        same_items(xs, ys, m),
    ensures
        same_items(xs, ys, n),
    decreases m,
{
    if n < m {
        lemma_same_items_shorter(xs, ys, n, m - 1);
    }
}

proof fn lemma_same_entries_shorter(xs: Seq<(String, JsonValue)>, ys: Seq<(String, JsonValue)>, n: int, m: int)
    requires
        0 <= n <= m,
        same_entries(xs, ys, m),
    ensures
        same_entries(xs, ys, n),
    decreases m,
{
    if n < m {
        lemma_same_entries_shorter(xs, ys, n, m - 1);
    }
}

impl JsonValue {
    /// Whether `other` holds the same JSON as this value.
    pub fn same_as(&self, other: &JsonValue) -> (r: bool)
        ensures
            r == same(*self, *other),
        decreases *self,
    {
        match (self, other) {
            (JsonValue::Null, JsonValue::Null) => true,
            (JsonValue::Bool(a), JsonValue::Bool(b)) => *a == *b,
            (JsonValue::Number(a), JsonValue::Number(b)) => *a == *b,
            (JsonValue::String(a), JsonValue::String(b)) => crate::text::str_eq(a.as_str(), b.as_str()),
            (JsonValue::Array(x), JsonValue::Array(y)) => {
                if x.len() != y.len() {
                    return false;
                }
                let mut i: usize = 0;
                while i < x.len()
                    invariant
                        *self is Array && self->Array_0 == *x,
                        *other is Array && other->Array_0 == *y,
                        x@.len() == y@.len(),
                        i <= x@.len(),
                        same_items(x@, y@, i as int),
                    decreases x.len() - i,
                {
                    assert(decreases_to!(*self => x@[i as int]));
                    if !x[i].same_as(&y[i]) {
                        proof {
                            if same_items(x@, y@, x@.len() as int) {
                                lemma_same_items_shorter(x@, y@, i + 1, x@.len() as int);
                            }
                        }
                        return false;
                    }
                    i = i + 1;
                }
                true
            },
            (JsonValue::Object(x), JsonValue::Object(y)) => {
                if x.len() != y.len() {
                    return false;
                }
                let mut i: usize = 0;
                while i < x.len()
                    invariant
                        *self is Object && self->Object_0 == *x,
                        *other is Object && other->Object_0 == *y,
                        x@.len() == y@.len(),
                        i <= x@.len(),
                        same_entries(x@, y@, i as int),
                    decreases x.len() - i,
                {
                    assert(decreases_to!(*self => x@[i as int].1));
                    if !crate::text::str_eq(x[i].0.as_str(), y[i].0.as_str()) || !x[i].1.same_as(&y[i].1) {
                        proof {
                            if same_entries(x@, y@, x@.len() as int) {
                                lemma_same_entries_shorter(x@, y@, i + 1, x@.len() as int);
                            }
                        }
                        return false;
                    }
                    i = i + 1;
                }
                true
            },
            _ => false,
        }
    }
}

/// One step into a JSON value: a member by name, or an item by position.
pub enum PathStep {
    Key(String),
    Index(usize),
}

/// Whether `path` leads through `v` to an object.
pub open spec fn reaches(v: JsonValue, path: Seq<PathStep>) -> bool
    decreases path.len(),
{
    if path.len() == 0 {
        v is Object
    } else {
        match path[0] {
            PathStep::Key(k) => match v {
                JsonValue::Object(entries) => match member_index(entries@, k@) {
                    Some(j) => reaches(entries@[j].1, path.drop_first()),
                    None => false,
                },
                _ => false,
            },
            PathStep::Index(i) => match v {
                JsonValue::Array(items) => i < items@.len() && reaches(items@[i as int], path.drop_first()),
                _ => false,
            },
        }
    }
}

/// Whether `path` leads through `v` to an array.
pub open spec fn reaches_array(v: JsonValue, path: Seq<PathStep>) -> bool
    decreases path.len(),
{
    if path.len() == 0 {
        v is Array
    } else {
        match path[0] {
            PathStep::Key(k) => match v {
                JsonValue::Object(entries) => match member_index(entries@, k@) {
                    Some(j) => reaches_array(entries@[j].1, path.drop_first()),
                    None => false,
                },
                _ => false,
            },
            PathStep::Index(i) => match v {
                JsonValue::Array(items) => i < items@.len() && reaches_array(items@[i as int], path.drop_first()),
                _ => false,
            },
        }
    }
}

/// `r` is `v` with member `key` of the object at the end of `path` set to
/// `value`, and nothing else changed.
pub open spec fn edits(v: JsonValue, path: Seq<PathStep>, key: Seq<char>, value: JsonValue, r: JsonValue) -> bool
    decreases path.len(),
{
    if path.len() == 0 {
        v is Object && r is Object && sets_member(v->Object_0@, r->Object_0@, key, value)
    } else {
        match path[0] {
            PathStep::Key(k) => match v {
                JsonValue::Object(entries) => match member_index(entries@, k@) {
                    Some(j) => r is Object && {
                        let after = r->Object_0@;
                        &&& after.len() == entries@.len()
                        &&& after == entries@.update(j, (entries@[j].0, after[j].1))
                        &&& edits(entries@[j].1, path.drop_first(), key, value, after[j].1)
                    },
                    None => false,
                },
                _ => false,
            },
            PathStep::Index(i) => match v {
                JsonValue::Array(items) => i < items@.len() && r is Array && {
                    let after = r->Array_0@;
                    &&& after.len() == items@.len()
                    &&& after == items@.update(i as int, after[i as int])
                    &&& edits(items@[i as int], path.drop_first(), key, value, after[i as int])
                },
                _ => false,
            },
        }
    }
}

pub(crate) fn find_member(entries: &Vec<(String, JsonValue)>, key: &str) -> (r: Option<usize>)
    ensures
        match r {
            Some(j) => j < entries@.len() && member_index(entries@, key@) == Some(j as int),
            None => member_index(entries@, key@) is None,
        },
{
    proof {
        lemma_member_index(entries@, key@);
    }
    let mut i: usize = 0;
    while i < entries.len()
        invariant
            i <= entries@.len(),
            forall|j: int| 0 <= j < i ==> (#[trigger] entries@[j]).0@ != key@,
            match member_index(entries@, key@) {
                Some(k) => 0 <= k < entries@.len() && entries@[k].0@ == key@ && forall|j: int|
                    0 <= j < k ==> (#[trigger] entries@[j]).0@ != key@,
                None => forall|j: int| 0 <= j < entries@.len() ==> (#[trigger] entries@[j]).0@ != key@,
            },
        decreases entries.len() - i,
    {
        if crate::text::str_eq(entries[i].0.as_str(), key) {
            proof {
                if let Some(k) = member_index(entries@, key@) {
                    if k < i {
                        assert(entries@[k].0@ != key@);
                    }
                    if k > i {
                        assert(entries@[i as int].0@ != key@);
                    }
                }
            }
            return Some(i);
        }
        i = i + 1;
    }
    None
}

/// Sets member `key` of the object at the end of `path[from..]` in `v` to
/// `value`; `None` when the path does not lead to an object.
pub fn edit_member(v: JsonValue, path: &Vec<PathStep>, from: usize, key: String, value: JsonValue) -> (r: Option<JsonValue>)
    requires
        from <= path@.len(),
    ensures
        match r {
            Some(x) => edits(v, path@.skip(from as int), key@, value, x),
            None => !reaches(v, path@.skip(from as int)),
        },
    decreases path@.len() - from,
{
    let ghost rest = path@.skip(from as int);
    if from == path.len() {
        return match v {
            JsonValue::Object(mut entries) => {
                set_member(&mut entries, key, value);
                Some(JsonValue::Object(entries))
            },
            _ => None,
        };
    }
    assert(rest[0] == path@[from as int]);
    assert(rest.drop_first() =~= path@.skip(from + 1));
    match &path[from] {
        PathStep::Key(k) => match v {
            JsonValue::Object(mut entries) => match find_member(&entries, k.as_str()) {
                Some(j) => {
                    let ghost before = entries@;
                    let (name, child) = entries.remove(j);
                    match edit_member(child, path, from + 1, key, value) {
                        Some(edited) => {
                            entries.insert(j, (name, edited));
                            assert(entries@ =~= before.update(j as int, (before[j as int].0, entries@[j as int].1)));
                            Some(JsonValue::Object(entries))
                        },
                        None => None,
                    }
                },
                None => None,
            },
            _ => None,
        },
        PathStep::Index(i) => match v {
            JsonValue::Array(mut items) => {
                if *i >= items.len() {
                    return None;
                }
                let ghost before = items@;
                let child = items.remove(*i);
                match edit_member(child, path, from + 1, key, value) {
                    Some(edited) => {
                        items.insert(*i, edited);
                        assert(items@ =~= before.update(*i as int, items@[*i as int]));
                        Some(JsonValue::Array(items))
                    },
                    None => None,
                }
            },
            _ => None,
        },
    }
}

/// Whether `path[from..]` leads through `v` to an object.
pub fn reaches_object(v: &JsonValue, path: &Vec<PathStep>, from: usize) -> (r: bool)
    requires
        from <= path@.len(),
    ensures
        r == reaches(*v, path@.skip(from as int)),
    decreases path@.len() - from,
{
    let ghost rest = path@.skip(from as int);
    if from == path.len() {
        return match v {
            JsonValue::Object(_) => true,
            _ => false,
        };
    }
    assert(rest[0] == path@[from as int]);
    assert(rest.drop_first() =~= path@.skip(from + 1));
    match &path[from] {
        PathStep::Key(k) => match v {
            JsonValue::Object(entries) => match find_member(entries, k.as_str()) {
                Some(j) => reaches_object(&entries[j].1, path, from + 1),
                None => false,
            },
            _ => false,
        },
        PathStep::Index(i) => match v {
            JsonValue::Array(items) => if *i < items.len() {
                reaches_object(&items[*i], path, from + 1)
            } else {
                false
            },
            _ => false,
        },
    }
}

/// `mids` walks from `v` to its last value setting, one after another, each
/// member of `params` on the object at the end of `path`.
pub open spec fn edits_in_turn(
    v: JsonValue,
    path: Seq<PathStep>,
    params: Seq<(String, JsonValue)>,
    mids: Seq<JsonValue>,
) -> bool {
    &&& mids.len() == params.len() + 1
    &&& mids[0] == v
    &&& forall|j: int|
        0 <= j < params.len() ==> #[trigger] edits(mids[j], path, params[j].0@, params[j].1, mids[j + 1])
}

/// `r` is `v` with item `index` of the array at the end of `path` removed,
/// and nothing else changed.
pub open spec fn removes(v: JsonValue, path: Seq<PathStep>, index: int, r: JsonValue) -> bool
    decreases path.len(),
{
    if path.len() == 0 {
        v is Array && r is Array && 0 <= index < v->Array_0@.len() && r->Array_0@ == v->Array_0@.remove(index)
    } else {
        match path[0] {
            PathStep::Key(k) => match v {
                JsonValue::Object(entries) => match member_index(entries@, k@) {
                    Some(j) => r is Object && {
                        let after = r->Object_0@;
                        &&& after.len() == entries@.len()
                        &&& after == entries@.update(j, (entries@[j].0, after[j].1))
                        &&& removes(entries@[j].1, path.drop_first(), index, after[j].1)
                    },
                    None => false,
                },
                _ => false,
            },
            PathStep::Index(i) => match v {
                JsonValue::Array(items) => i < items@.len() && r is Array && {
                    let after = r->Array_0@;
                    &&& after.len() == items@.len()
                    &&& after == items@.update(i as int, after[i as int])
                    &&& removes(items@[i as int], path.drop_first(), index, after[i as int])
                },
                _ => false,
            },
        }
    }
}

/// Removes item `index` of the array at the end of `path[from..]` in `v`;
/// `None` when the path does not lead to an array that long.
pub fn remove_item(v: JsonValue, path: &Vec<PathStep>, from: usize, index: usize) -> (r: Option<JsonValue>)
    requires
        from <= path@.len(),
    ensures
        r matches Some(x) ==> removes(v, path@.skip(from as int), index as int, x),
        r is None ==> !holds_item(v, path@.skip(from as int), index as int),
    decreases path@.len() - from,
{
    let ghost rest = path@.skip(from as int);
    if from == path.len() {
        return match v {
            JsonValue::Array(mut items) => if index < items.len() {
                let ghost before = items@;
                items.remove(index);
                Some(JsonValue::Array(items))
            } else {
                None
            },
            _ => None,
        };
    }
    assert(rest[0] == path@[from as int]);
    assert(rest.drop_first() =~= path@.skip(from + 1));
    match &path[from] {
        PathStep::Key(k) => match v {
            JsonValue::Object(mut entries) => match find_member(&entries, k.as_str()) {
                Some(j) => {
                    let ghost before = entries@;
                    let (name, child) = entries.remove(j);
                    match remove_item(child, path, from + 1, index) {
                        Some(edited) => {
                            entries.insert(j, (name, edited));
                            assert(entries@ =~= before.update(j as int, (before[j as int].0, entries@[j as int].1)));
                            Some(JsonValue::Object(entries))
                        },
                        None => None,
                    }
                },
                None => None,
            },
            _ => None,
        },
        PathStep::Index(i) => match v {
            JsonValue::Array(mut items) => {
                if *i >= items.len() {
                    return None;
                }
                let ghost before = items@;
                let child = items.remove(*i);
                match remove_item(child, path, from + 1, index) {
                    Some(edited) => {
                        items.insert(*i, edited);
                        assert(items@ =~= before.update(*i as int, items@[*i as int]));
                        Some(JsonValue::Array(items))
                    },
                    None => None,
                }
            },
            _ => None,
        },
    }
}
/// `r` is `v` with `item` appended to the array at the end of `path`, and
/// nothing else changed.
pub open spec fn pushes(v: JsonValue, path: Seq<PathStep>, item: JsonValue, r: JsonValue) -> bool
    decreases path.len(),
{
    if path.len() == 0 {
        v is Array && r is Array && r->Array_0@ == v->Array_0@.push(item)
    } else {
        match path[0] {
            PathStep::Key(k) => match v {
                JsonValue::Object(entries) => match member_index(entries@, k@) {
                    Some(j) => r is Object && {
                        let after = r->Object_0@;
                        &&& after.len() == entries@.len()
                        &&& after == entries@.update(j, (entries@[j].0, after[j].1))
                        &&& pushes(entries@[j].1, path.drop_first(), item, after[j].1)
                    },
                    None => false,
                },
                _ => false,
            },
            PathStep::Index(i) => match v {
                JsonValue::Array(items) => i < items@.len() && r is Array && {
                    let after = r->Array_0@;
                    &&& after.len() == items@.len()
                    &&& after == items@.update(i as int, after[i as int])
                    &&& pushes(items@[i as int], path.drop_first(), item, after[i as int])
                },
                _ => false,
            },
        }
    }
}

/// Appends `item` to the array at the end of `path[from..]` in `v`; `None`
/// when the path does not lead to an array.
pub fn push_item(v: JsonValue, path: &Vec<PathStep>, from: usize, item: JsonValue) -> (r: Option<JsonValue>)
    requires
        from <= path@.len(),
    ensures
        r matches Some(x) ==> pushes(v, path@.skip(from as int), item, x),
        r is None ==> !reaches_array(v, path@.skip(from as int)),
    decreases path@.len() - from,
{
    let ghost rest = path@.skip(from as int);
    if from == path.len() {
        return match v {
            JsonValue::Array(mut items) => {
                items.push(item);
                Some(JsonValue::Array(items))
            },
            _ => None,
        };
    }
    assert(rest[0] == path@[from as int]);
    assert(rest.drop_first() =~= path@.skip(from + 1));
    match &path[from] {
        PathStep::Key(k) => match v {
            JsonValue::Object(mut entries) => match find_member(&entries, k.as_str()) {
                Some(j) => {
                    let ghost before = entries@;
                    let (name, child) = entries.remove(j);
                    match push_item(child, path, from + 1, item) {
                        Some(edited) => {
                            entries.insert(j, (name, edited));
                            assert(entries@ =~= before.update(j as int, (before[j as int].0, entries@[j as int].1)));
                            Some(JsonValue::Object(entries))
                        },
                        None => None,
                    }
                },
                None => None,
            },
            _ => None,
        },
        PathStep::Index(i) => match v {
            JsonValue::Array(mut items) => {
                if *i >= items.len() {
                    return None;
                }
                let ghost before = items@;
                let child = items.remove(*i);
                match push_item(child, path, from + 1, item) {
                    Some(edited) => {
                        items.insert(*i, edited);
                        assert(items@ =~= before.update(*i as int, items@[*i as int]));
                        Some(JsonValue::Array(items))
                    },
                    None => None,
                }
            },
            _ => None,
        },
    }
}
} // verus!
