//! Resource identities: a namespace and a key inside it.

use vstd::prelude::*;

verus! {

broadcast use vstd::string::group_string_axioms;

/// Where a drawable comes from: `namespace` selects the store (`assets`,
/// `static`, ...), `key` the item in it.
#[derive(Clone, Debug, PartialEq, Eq, Hash)]
pub struct ResourceKey {
    pub namespace: String,
    pub key: String,
}

/// The characters of a [`ResourceKey`].
pub struct ResourceKeyView {
    pub namespace: Seq<char>,
    pub key: Seq<char>,
}

impl View for ResourceKey {
    type V = ResourceKeyView;

    open spec fn view(&self) -> ResourceKeyView {
        ResourceKeyView { namespace: self.namespace@, key: self.key@ }
    }
}

/// The view of a key with the given characters.
pub open spec fn key_view(namespace: Seq<char>, key: Seq<char>) -> ResourceKeyView {
    ResourceKeyView { namespace, key }
}

/// The view of an optional key.
pub open spec fn opt_key_view(k: Option<ResourceKey>) -> Option<ResourceKeyView> {
    match k {
        Some(k) => Some(k@),
        None => None,
    }
}

impl ResourceKey {
    /// A key in `namespace`.
    pub fn new(namespace: &str, key: String) -> (r: Self)
        ensures
            r@ == key_view(namespace@, key@),
    {
        ResourceKey { namespace: namespace.to_owned(), key }
    }

    /// A copy of this key.
    pub fn duplicate(&self) -> (r: Self)
        ensures
            r@ == self@,
    {
        ResourceKey { namespace: self.namespace.clone(), key: self.key.clone() }
    }
}

} // verus!
