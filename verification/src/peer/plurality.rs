//! How many independent voices the pool must hold, and how long it may hold the same ones.

use vstd::prelude::*;

verus! {

/// The sample an agreement is expressed against: four distinct voices.
pub const QUORUM_SAMPLE: usize = 4;

/// The fewest independent peers, besides the one that answered, that must agree before an answer
/// counts as corroborated. As many must have been held before the answer was put to them.
pub const CORROBORATION_FLOOR: usize = 2;

/// How long a discovered peer may stay in the pool, in nanoseconds: five minutes.
pub const PEER_LIFETIME: u128 = 300_000_000_000;

/// How many blocks a peer may trail and still be counted as current.
pub const PEAK_LAG_TOLERANCE: u32 = 3;

/// How many blocks a peer may trail before the pool drops it: twice the tolerance, so that a peer
/// one hop late is not dropped for it.
pub const PEAK_LAG_EVICTION: u32 = 2 * PEAK_LAG_TOLERANCE;

/// How many slots the addresses tried ahead of discovery can occupy: the operator's node and the
/// node on this machine.
pub const PRIORITY_SLOTS: usize = 2;

/// The peers a pool holds unless told otherwise.
///
/// A whole sample must be left standing after the priority addresses, the peer being followed and
/// the one being rotated out have each taken a slot.
pub fn default_max_peers() -> (peers: usize)
    ensures
        peers == PRIORITY_SLOTS + 1 + QUORUM_SAMPLE + 1,
{
    PRIORITY_SLOTS + 1 + QUORUM_SAMPLE + 1
}

/// A full pool of the default size holds a whole sample even while one peer is being rotated out,
/// and a pool one smaller would not.
pub proof fn law_default_pool_survives_a_rotation(size: int)
    requires
        size == PRIORITY_SLOTS + 1 + QUORUM_SAMPLE + 1,
    ensures
        size - 1 - PRIORITY_SLOTS - 1 >= QUORUM_SAMPLE,
        (size - 1) - 1 - PRIORITY_SLOTS - 1 < QUORUM_SAMPLE,
        size >= QUORUM_SAMPLE + CORROBORATION_FLOOR,
{
}

/// A pool holds eight peers unless told otherwise.
pub proof fn law_a_pool_holds_eight_peers(peers: usize)
    requires
        call_ensures(default_max_peers, (), peers),
    ensures
        peers == 8,
{
}

} // verus!
