//! Which sources can lie together.
//!
//! A quorum keeps one answer per group. A client that can answer from coinset is not independent
//! of any other coinset-backed source, whatever peers it also holds.

use vstd::prelude::*;

verus! {

/// The group of every source that can answer from coinset.
pub const COINSET_INDEPENDENCE_GROUP: &'static str = "coinset.org";

/// The group of the sources that answer from peers alone.
pub const CHIA_PEERS_INDEPENDENCE_GROUP: &'static str = "chia-peers";

/// The group of a client, by whether it can fall back to coinset.
pub fn independence_group_for(coinset_fallback_enabled: bool) -> (group: &'static str)
    ensures
        group@ == (if coinset_fallback_enabled {
            COINSET_INDEPENDENCE_GROUP@
        } else {
            CHIA_PEERS_INDEPENDENCE_GROUP@
        }),
{
    if coinset_fallback_enabled {
        COINSET_INDEPENDENCE_GROUP
    } else {
        CHIA_PEERS_INDEPENDENCE_GROUP
    }
}

/// A client that can reach coinset is never in the group of one that cannot.
pub proof fn law_groups_are_distinct()
    ensures
        COINSET_INDEPENDENCE_GROUP@ != CHIA_PEERS_INDEPENDENCE_GROUP@,
{
    reveal_strlit("coinset.org");
    reveal_strlit("chia-peers");
    assert("coinset.org"@.len() != "chia-peers"@.len());
}

} // verus!
