//! The lit material a can badge draws its image with: where its normal map
//! comes from.

use vstd::prelude::*;

use crate::resource::{key_view, ResourceKey};

verus! {

broadcast use vstd::string::group_string_axioms;

/// Namespace of the badge normal map.
pub const NORMAL_MAP_NAMESPACE: &'static str = "static";

/// Key of the badge normal map.
pub const NORMAL_MAP_KEY: &'static str = "ui/sekai_badge_normal";

/// The normal map as a resource key.
pub fn normal_map_resource() -> (r: ResourceKey)
    ensures
        r@ == key_view(NORMAL_MAP_NAMESPACE@, NORMAL_MAP_KEY@),
{
    ResourceKey::new(NORMAL_MAP_NAMESPACE, NORMAL_MAP_KEY.to_owned())
}

} // verus!
