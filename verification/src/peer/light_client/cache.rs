//! The local mirror of the coin state a light client has subscribed to.
//!
//! A peer's update carries a fork height: the last block its new peak still agrees with. What was
//! learned above that fork is suspect. A coin created above it that the update does not re-assert
//! is dropped; a coin spent above it is unspent again, unless the update says otherwise. The
//! update's own items are authoritative for every coin they mention.
//!
//! No cached coin is ever created above the peak. A consumer that counts confirmations as
//! `peak - created` would otherwise wrap around. Every coin enters through [`CoinStateCache::seed`]
//! or [`CoinStateCache::apply_update`], which refuse such a coin, and every change of the peak
//! sweeps out the coins it leaves behind.

use vstd::prelude::*;

use crate::collections::{entries_map, lemma_map_take, IdMap, IdSet};
use crate::protocol::{Bytes32, CoinState};

verus! {

/// The most coins admitted for each subscribed puzzle hash.
pub const MAX_COINS_PER_PUZZLE_HASH: usize = 10_000;

/// What a cache holds.
#[verifier::ext_equal]
pub struct CacheView {
    pub coins: Map<Bytes32, CoinState>,
    pub subscribed_coins: Set<Bytes32>,
    pub subscribed_puzzle_hashes: Set<Bytes32>,
    pub peak: Option<(u32, Bytes32)>,
}

/// Whether `height` is known and lies above `bound`.
pub open spec fn above(height: Option<u32>, bound: u32) -> bool {
    height matches Some(h) && h > bound
}

/// The smaller of `n` and the largest `usize`.
pub open spec fn saturated(n: int) -> int {
    if n > usize::MAX {
        usize::MAX as int
    } else {
        n
    }
}

/// The coins that survive a rollback to `fork`: those in `kept` as they are, the others unless
/// they were created above the fork, and with a spend above the fork undone.
pub open spec fn rolled_back(
    coins: Map<Bytes32, CoinState>,
    kept: Set<Bytes32>,
    fork: u32,
) -> Map<Bytes32, CoinState> {
    Map::new(
        |id: Bytes32|
            coins.dom().contains(id) && (kept.contains(id) || !above(
                coins[id].created_height,
                fork,
            )),
        |id: Bytes32|
            if !kept.contains(id) && above(coins[id].spent_height, fork) {
                CoinState { spent_height: None, ..coins[id] }
            } else {
                coins[id]
            },
    )
}

/// Whether a rollback to `fork` changes what is known of `id`.
pub open spec fn is_rolled_back(
    coins: Map<Bytes32, CoinState>,
    kept: Set<Bytes32>,
    fork: u32,
    id: Bytes32,
) -> bool {
    coins.dom().contains(id) && !kept.contains(id) && (above(coins[id].created_height, fork)
        || above(coins[id].spent_height, fork))
}

/// Whether a rollback to `fork` changes anything.
pub open spec fn rollback_changes(
    coins: Map<Bytes32, CoinState>,
    kept: Set<Bytes32>,
    fork: u32,
) -> bool {
    exists|id: Bytes32| is_rolled_back(coins, kept, fork, id)
}

/// The coins that were not created above `height`.
pub open spec fn swept(coins: Map<Bytes32, CoinState>, height: u32) -> Map<Bytes32, CoinState> {
    Map::new(
        |id: Bytes32| coins.dom().contains(id) && !above(coins[id].created_height, height),
        |id: Bytes32| coins[id],
    )
}

impl CacheView {
    /// No cached coin is created above the peak.
    pub open spec fn no_coin_above_peak(self) -> bool {
        self.peak matches Some(peak) ==> forall|id: Bytes32| #[trigger]
            self.coins.dom().contains(id) ==> !above(self.coins[id].created_height, peak.0)
    }

    /// Every cached state stands under the id of its own coin.
    pub open spec fn each_under_its_id(self) -> bool {
        forall|id: Bytes32| #[trigger]
            self.coins.dom().contains(id) ==> self.coins[id].coin.id() == id
    }

    /// Whether `state` is something the client asked for: by coin id, or by puzzle hash.
    pub open spec fn subscribed(self, state: CoinState) -> bool {
        self.subscribed_coins.contains(state.coin.id()) || self.subscribed_puzzle_hashes.contains(
            state.coin.puzzle_hash,
        )
    }

    /// The most coins the subscriptions allow for.
    pub open spec fn capacity(self) -> int {
        saturated(
            self.subscribed_coins.len() + saturated(
                self.subscribed_puzzle_hashes.len() * MAX_COINS_PER_PUZZLE_HASH,
            ),
        )
    }

    /// The coins among `items` that were asked for.
    pub open spec fn reasserted(self, items: Seq<CoinState>) -> Set<Bytes32> {
        Set::new(
            |id: Bytes32|
                exists|i: int|
                    0 <= i < items.len() && self.subscribed(#[trigger] items[i])
                        && items[i].coin.id() == id,
        )
    }

    /// After a peak at `height` is announced: taken if it is no lower than the one held, or if
    /// `allow_lower`, and then without the coins created above it.
    pub open spec fn with_peak(self, height: u32, hash: Bytes32, allow_lower: bool) -> CacheView {
        if self.peak is None || height >= (self.peak->0).0 || allow_lower {
            CacheView {
                peak: Some((height, hash)),
                coins: swept(self.coins, height),
                ..self
            }
        } else {
            self
        }
    }

    /// After `state` is offered: refused above the peak, and refused as a new coin when full.
    pub open spec fn with_coin(self, state: CoinState) -> CacheView {
        let id = state.coin.id();
        if self.peak is Some && above(state.created_height, (self.peak->0).0) {
            self
        } else if !self.coins.dom().contains(id) && self.coins.dom().len() >= self.capacity() {
            self
        } else {
            CacheView { coins: self.coins.insert(id, state), ..self }
        }
    }

    /// After every one of `states` is offered, in order.
    pub open spec fn with_coins(self, states: Seq<CoinState>) -> CacheView
        decreases states.len(),
    {
        if states.len() == 0 {
            self
        } else {
            self.with_coins(states.drop_last()).with_coin(states.last())
        }
    }

    /// After those of `items` that were asked for are offered, in order.
    pub open spec fn with_items(self, items: Seq<CoinState>) -> CacheView {
        self.with_coins(items.filter(|s: CoinState| self.subscribed(s)))
    }

    /// Whether an update to `height` that forks at `fork` is a reorganisation to be believed when
    /// it lowers the peak: it undoes something that was asked for, it lies below the peak, and its
    /// tip is not below its own fork.
    pub open spec fn is_genuine_reorg(self, items: Seq<CoinState>, height: u32, fork: u32) -> bool {
        &&& rollback_changes(self.coins, self.reasserted(items), fork)
        &&& height >= fork
        &&& self.peak matches Some(peak) && fork < peak.0
    }

    /// After a peer's update: rolled back to the fork, moved to the new peak, then given the items.
    pub open spec fn updated(
        self,
        items: Seq<CoinState>,
        height: u32,
        fork: u32,
        hash: Bytes32,
    ) -> CacheView {
        let rolled = CacheView {
            coins: rolled_back(self.coins, self.reasserted(items), fork),
            ..self
        };
        rolled.with_peak(height, hash, self.is_genuine_reorg(items, height, fork)).with_items(items)
    }
}

/// A light client's view of what it subscribed to, and the current peak.
pub struct CoinStateCache {
    coins: IdMap<CoinState>,
    subscribed_coins: IdSet,
    subscribed_puzzle_hashes: IdSet,
    peak: Option<(u32, Bytes32)>,
}

impl View for CoinStateCache {
    type V = CacheView;

    closed spec fn view(&self) -> CacheView {
        CacheView {
            coins: self.coins@,
            subscribed_coins: self.subscribed_coins@,
            subscribed_puzzle_hashes: self.subscribed_puzzle_hashes@,
            peak: self.peak,
        }
    }
}

impl CoinStateCache {
    /// The collections are well formed.
    closed spec fn shaped(&self) -> bool {
        &&& self.coins.wf()
        &&& self.subscribed_coins.wf()
        &&& self.subscribed_puzzle_hashes.wf()
    }

    /// The collections are well formed, no cached coin is created above the peak, and every cached
    /// state stands under the id of its own coin.
    pub closed spec fn wf(&self) -> bool {
        self.shaped() && self@.no_coin_above_peak() && self@.each_under_its_id()
    }

    /// Every state of a well-formed cache stands under the id of its own coin.
    pub proof fn law_each_state_stands_under_its_own_id(&self)
        requires
            self.wf(),
        ensures
            self@.each_under_its_id(),
    {
    }

    /// No coin of a well-formed cache is created above its peak.
    pub proof fn law_no_coin_is_created_above_the_peak(&self)
        requires
            self.wf(),
        ensures
            self@.no_coin_above_peak(),
    {
    }

    /// A fresh, empty cache.
    pub fn new() -> (cache: Self)
        ensures
            cache.wf(),
            cache@ == (CacheView {
                coins: Map::empty(),
                subscribed_coins: Set::empty(),
                subscribed_puzzle_hashes: Set::empty(),
                peak: None,
            }),
    {
        CoinStateCache {
            coins: IdMap::new(),
            subscribed_coins: IdSet::new(),
            subscribed_puzzle_hashes: IdSet::new(),
            peak: None,
        }
    }

    /// The current peak, if one has been observed.
    pub fn peak(&self) -> (peak: Option<(u32, Bytes32)>)
        ensures
            peak == self@.peak,
    {
        self.peak
    }

    /// Takes a peak announced on its own. A lower one never replaces a higher one.
    pub fn set_peak(&mut self, height: u32, header_hash: Bytes32)
        requires
            old(self).wf(),
        ensures
            final(self).wf(),
            final(self)@ == old(self)@.with_peak(height, header_hash, false),
    {
        self.update_peak(height, header_hash, false);
    }

    /// The cached state of `coin_id`, if the client holds one.
    pub fn get(&self, coin_id: Bytes32) -> (state: Option<CoinState>)
        requires
            self.wf(),
        ensures
            state == (if self@.coins.dom().contains(coin_id) {
                Some(self@.coins[coin_id])
            } else {
                None
            }),
    {
        self.coins.get(coin_id)
    }

    /// The part of the cache that tells of one coin: its state, and the peak. It is subscribed to
    /// nothing.
    pub fn excerpt(&self, coin_id: Bytes32) -> (part: Self)
        requires
            self.wf(),
        ensures
            part.wf(),
            part@ == (CacheView {
                coins: self@.coins.restrict(set![coin_id]),
                subscribed_coins: Set::empty(),
                subscribed_puzzle_hashes: Set::empty(),
                peak: self@.peak,
            }),
    {
        let mut coins: IdMap<CoinState> = IdMap::new();
        if let Some(state) = self.coins.get(coin_id) {
            coins.insert(coin_id, state);
        }
        assert(coins@ =~= self@.coins.restrict(set![coin_id]));
        CoinStateCache {
            coins,
            subscribed_coins: IdSet::new(),
            subscribed_puzzle_hashes: IdSet::new(),
            peak: self.peak,
        }
    }

    /// Offers the states that answered a subscription.
    pub fn seed(&mut self, states: &[CoinState])
        requires
            old(self).wf(),
        ensures
            final(self).wf(),
            final(self)@ == old(self)@.with_coins(states@),
    {
        let mut i: usize = 0;
        while i < states.len()
            invariant
                i <= states.len(),
                self.wf(),
                self@ == old(self)@.with_coins(states@.take(i as int)),
            decreases states.len() - i,
        {
            self.cache_coin(states[i]);
            i = i + 1;
            assert(states@.take(i as int).drop_last() =~= states@.take(i - 1));
        }
        assert(states@.take(i as int) =~= states@);
    }

    /// Records that `coin_ids` are now subscribed.
    pub fn track_coins(&mut self, coin_ids: &[Bytes32])
        requires
            old(self).wf(),
        ensures
            final(self).wf(),
            final(self)@ == (CacheView {
                subscribed_coins: old(self)@.subscribed_coins.union(coin_ids@.to_set()),
                ..old(self)@
            }),
    {
        let mut i: usize = 0;
        assert(self@.subscribed_coins.union(coin_ids@.take(0).to_set())
            =~= self@.subscribed_coins);
        while i < coin_ids.len()
            invariant
                i <= coin_ids.len(),
                self.wf(),
                self@ == (CacheView {
                    subscribed_coins: old(self)@.subscribed_coins.union(
                        coin_ids@.take(i as int).to_set(),
                    ),
                    ..old(self)@
                }),
            decreases coin_ids.len() - i,
        {
            self.subscribed_coins.insert(coin_ids[i]);
            proof {
                lemma_take_union(old(self)@.subscribed_coins, coin_ids@, i as int);
            }
            i = i + 1;
        }
        assert(coin_ids@.take(i as int) =~= coin_ids@);
    }

    /// Records that `puzzle_hashes` are now subscribed.
    pub fn track_puzzle_hashes(&mut self, puzzle_hashes: &[Bytes32])
        requires
            old(self).wf(),
        ensures
            final(self).wf(),
            final(self)@ == (CacheView {
                subscribed_puzzle_hashes: old(self)@.subscribed_puzzle_hashes.union(
                    puzzle_hashes@.to_set(),
                ),
                ..old(self)@
            }),
    {
        let mut i: usize = 0;
        assert(self@.subscribed_puzzle_hashes.union(puzzle_hashes@.take(0).to_set())
            =~= self@.subscribed_puzzle_hashes);
        while i < puzzle_hashes.len()
            invariant
                i <= puzzle_hashes.len(),
                self.wf(),
                self@ == (CacheView {
                    subscribed_puzzle_hashes: old(self)@.subscribed_puzzle_hashes.union(
                        puzzle_hashes@.take(i as int).to_set(),
                    ),
                    ..old(self)@
                }),
            decreases puzzle_hashes.len() - i,
        {
            self.subscribed_puzzle_hashes.insert(puzzle_hashes[i]);
            proof {
                lemma_take_union(
                    old(self)@.subscribed_puzzle_hashes,
                    puzzle_hashes@,
                    i as int,
                );
            }
            i = i + 1;
        }
        assert(puzzle_hashes@.take(i as int) =~= puzzle_hashes@);
    }

    /// Drops `coin_ids` from the subscriptions. Their cached states stay.
    pub fn untrack_coins(&mut self, coin_ids: &[Bytes32])
        requires
            old(self).wf(),
        ensures
            final(self).wf(),
            final(self)@ == (CacheView {
                subscribed_coins: old(self)@.subscribed_coins.difference(coin_ids@.to_set()),
                ..old(self)@
            }),
    {
        let mut i: usize = 0;
        assert(self@.subscribed_coins.difference(coin_ids@.take(0).to_set())
            =~= self@.subscribed_coins);
        while i < coin_ids.len()
            invariant
                i <= coin_ids.len(),
                self.wf(),
                self@ == (CacheView {
                    subscribed_coins: old(self)@.subscribed_coins.difference(
                        coin_ids@.take(i as int).to_set(),
                    ),
                    ..old(self)@
                }),
            decreases coin_ids.len() - i,
        {
            self.subscribed_coins.remove(coin_ids[i]);
            proof {
                lemma_take_set(coin_ids@, i as int);
                assert(old(self)@.subscribed_coins.difference(
                    coin_ids@.take(i + 1).to_set(),
                ) =~= old(self)@.subscribed_coins.difference(
                    coin_ids@.take(i as int).to_set(),
                ).remove(coin_ids@[i as int]));
            }
            i = i + 1;
        }
        assert(coin_ids@.take(i as int) =~= coin_ids@);
    }

    /// Whether `coin_id` is subscribed.
    pub fn is_subscribed_coin(&self, coin_id: Bytes32) -> (subscribed: bool)
        ensures
            subscribed == self@.subscribed_coins.contains(coin_id),
    {
        self.subscribed_coins.contains(coin_id)
    }

    /// The subscribed coin ids, each once.
    pub fn subscribed_coins(&self) -> (ids: Vec<Bytes32>)
        requires
            self.wf(),
        ensures
            ids@.no_duplicates(),
            ids@.to_set() == self@.subscribed_coins,
    {
        self.subscribed_coins.to_vec()
    }

    /// The subscribed puzzle hashes, each once.
    pub fn subscribed_puzzle_hashes(&self) -> (hashes: Vec<Bytes32>)
        requires
            self.wf(),
        ensures
            hashes@.no_duplicates(),
            hashes@.to_set() == self@.subscribed_puzzle_hashes,
    {
        self.subscribed_puzzle_hashes.to_vec()
    }

    /// Applies an untrusted peer's update.
    ///
    /// The cache is rolled back to `fork_height`, moved to the update's peak and given those of
    /// `items` that were asked for. The peak is lowered only by a genuine reorganisation.
    pub fn apply_update(
        &mut self,
        items: &[CoinState],
        height: u32,
        fork_height: u32,
        peak_hash: Bytes32,
    )
        requires
            old(self).wf(),
        ensures
            final(self).wf(),
            final(self)@ == old(self)@.updated(items@, height, fork_height, peak_hash),
    {
        let reasserted = self.reasserted_ids(items);
        let changed = self.roll_back(&reasserted, fork_height);
        let below_peak = match self.peak {
            Some((current, _)) => fork_height < current,
            None => false,
        };
        let is_genuine_reorg = changed && height >= fork_height && below_peak;
        self.update_peak(height, peak_hash, is_genuine_reorg);
        let ghost moved = self@;
        let ghost wanted = |s: CoinState| moved.subscribed(s);
        let mut i: usize = 0;
        assert(items@.take(0).filter(wanted) =~= Seq::<CoinState>::empty()) by {
            reveal_with_fuel(Seq::filter, 1);
        }
        while i < items.len()
            invariant
                i <= items.len(),
                self.wf(),
                self@ == moved.with_coins(items@.take(i as int).filter(wanted)),
                wanted == (|s: CoinState| moved.subscribed(s)),
            decreases items.len() - i,
        {
            proof {
                lemma_with_coins_keeps(moved, items@.take(i as int).filter(wanted));
                assert(items@.take(i + 1).drop_last() =~= items@.take(i as int));
                reveal_with_fuel(Seq::filter, 1);
            }
            if self.is_subscribed(&items[i]) {
                self.cache_coin(items[i]);
                assert(items@.take(i + 1).filter(wanted) =~= items@.take(i as int).filter(
                    wanted,
                ).push(items@[i as int]));
                assert(items@.take(i + 1).filter(wanted).drop_last() =~= items@.take(
                    i as int,
                ).filter(wanted));
            }
            i = i + 1;
        }
        assert(items@.take(i as int) =~= items@);
    }

    /// The ids among `items` that were asked for.
    fn reasserted_ids(&self, items: &[CoinState]) -> (ids: IdSet)
        requires
            self.shaped(),
        ensures
            ids.wf(),
            ids@ == self@.reasserted(items@),
    {
        let mut ids = IdSet::new();
        let mut i: usize = 0;
        assert(ids@ =~= self@.reasserted(items@.take(0)));
        while i < items.len()
            invariant
                i <= items.len(),
                self.shaped(),
                ids.wf(),
                ids@ == self@.reasserted(items@.take(i as int)),
            decreases items.len() - i,
        {
            let ghost before = self@.reasserted(items@.take(i as int));
            let ghost after = self@.reasserted(items@.take(i + 1));
            let wanted = self.is_subscribed(&items[i]);
            if wanted {
                ids.insert(items[i].coin.coin_id());
            }
            proof {
                let id = items@[i as int].coin.id();
                assert forall|k: Bytes32| after.contains(k) implies before.contains(k) || (wanted
                    && k == id) by {
                    let j = choose|j: int|
                        0 <= j < items@.take(i + 1).len() && self@.subscribed(
                            #[trigger] items@.take(i + 1)[j],
                        ) && items@.take(i + 1)[j].coin.id() == k;
                    if j < i {
                        assert(items@.take(i as int)[j] == items@.take(i + 1)[j]);
                    }
                }
                assert forall|k: Bytes32| before.contains(k) implies after.contains(k) by {
                    let j = choose|j: int|
                        0 <= j < items@.take(i as int).len() && self@.subscribed(
                            #[trigger] items@.take(i as int)[j],
                        ) && items@.take(i as int)[j].coin.id() == k;
                    assert(items@.take(i + 1)[j] == items@.take(i as int)[j]);
                }
                if wanted {
                    assert(items@.take(i + 1)[i as int] == items@[i as int]);
                    assert(after =~= before.insert(id));
                } else {
                    assert(after =~= before);
                }
            }
            i = i + 1;
        }
        assert(items@.take(i as int) =~= items@);
        ids
    }

    /// Rolls the coins back to `fork`, and says whether that changed anything.
    fn roll_back(&mut self, kept: &IdSet, fork: u32) -> (changed: bool)
        requires
            old(self).wf(),
        ensures
            final(self).wf(),
            final(self)@ == (CacheView {
                coins: rolled_back(old(self)@.coins, kept@, fork),
                ..old(self)@
            }),
            changed == rollback_changes(old(self)@.coins, kept@, fork),
    {
        let ghost before = self.coins.seq();
        proof {
            self.coins.lemma_seq();
        }
        let mut survivors: IdMap<CoinState> = IdMap::new();
        let mut changed = false;
        let mut i: usize = 0;
        assert(entries_map(before.take(0)) =~= Map::<Bytes32, CoinState>::empty());
        assert(rolled_back(entries_map(before.take(0)), kept@, fork) =~= Map::empty());
        while i < self.coins.len()
            invariant
                i <= before.len(),
                self == old(self),
                self.wf(),
                self.coins.seq() == before,
                self.coins@ == entries_map(before),
                crate::collections::keys(before).no_duplicates(),
                survivors.wf(),
                survivors@ == rolled_back(entries_map(before.take(i as int)), kept@, fork),
                changed == rollback_changes(entries_map(before.take(i as int)), kept@, fork),
            decreases before.len() - i,
        {
            let entry = self.coins.entry(i);
            let id = entry.0;
            let state = entry.1;
            let ghost done = entries_map(before.take(i as int));
            let ghost more = entries_map(before.take(i + 1));
            proof {
                lemma_map_take(before, i as int);
                assert(more == done.insert(id, state));
            }
            let keep = kept.contains(id);
            let unmade = height_above(state.created_height, fork);
            let unspent = height_above(state.spent_height, fork);
            if keep || !unmade {
                let survivor = if !keep && unspent {
                    CoinState { spent_height: None, ..state }
                } else {
                    state
                };
                survivors.push_new(id, survivor);
            }
            proof {
                assert(survivors@ =~= rolled_back(more, kept@, fork));
                if !keep && (unmade || unspent) {
                    assert(is_rolled_back(more, kept@, fork, id));
                } else {
                    assert forall|k: Bytes32| is_rolled_back(more, kept@, fork, k) implies
                        is_rolled_back(done, kept@, fork, k) by {
                    }
                    if rollback_changes(more, kept@, fork) {
                        let k = choose|k: Bytes32| is_rolled_back(more, kept@, fork, k);
                        assert(is_rolled_back(done, kept@, fork, k));
                    }
                }
                if rollback_changes(done, kept@, fork) {
                    let k = choose|k: Bytes32| is_rolled_back(done, kept@, fork, k);
                    assert(is_rolled_back(more, kept@, fork, k));
                }
            }
            if !keep && (unmade || unspent) {
                changed = true;
            }
            i = i + 1;
        }
        assert(before.take(i as int) =~= before);
        self.coins = survivors;
        changed
    }

    /// Offers one coin: the only way into the cache.
    fn cache_coin(&mut self, state: CoinState)
        requires
            old(self).wf(),
        ensures
            final(self).wf(),
            final(self)@ == old(self)@.with_coin(state),
    {
        if let Some((peak_height, _)) = self.peak {
            if height_above(state.created_height, peak_height) {
                return;
            }
        }
        let id = state.coin.coin_id();
        if !self.coins.contains_key(id) && self.coins.len() >= self.max_cached_coins() {
            return;
        }
        self.coins.insert(id, state);
    }

    /// Moves to an announced peak and sweeps out the coins created above it.
    fn update_peak(&mut self, height: u32, header_hash: Bytes32, allow_lower: bool)
        requires
            old(self).wf(),
        ensures
            final(self).wf(),
            final(self)@ == old(self)@.with_peak(height, header_hash, allow_lower),
    {
        let changed = match self.peak {
            None => true,
            Some((current, _)) => height >= current || allow_lower,
        };
        if !changed {
            return;
        }
        let ghost before = self.coins.seq();
        proof {
            self.coins.lemma_seq();
        }
        let mut survivors: IdMap<CoinState> = IdMap::new();
        let mut i: usize = 0;
        assert(entries_map(before.take(0)) =~= Map::<Bytes32, CoinState>::empty());
        assert(swept(entries_map(before.take(0)), height) =~= Map::empty());
        while i < self.coins.len()
            invariant
                i <= before.len(),
                self == old(self),
                self.wf(),
                self.coins.seq() == before,
                self.coins@ == entries_map(before),
                crate::collections::keys(before).no_duplicates(),
                survivors.wf(),
                survivors@ == swept(entries_map(before.take(i as int)), height),
            decreases before.len() - i,
        {
            let entry = self.coins.entry(i);
            proof {
                lemma_map_take(before, i as int);
            }
            if !height_above(entry.1.created_height, height) {
                survivors.push_new(entry.0, entry.1);
            }
            i = i + 1;
            assert(survivors@ =~= swept(entries_map(before.take(i as int)), height));
        }
        assert(before.take(i as int) =~= before);
        self.coins = survivors;
        self.peak = Some((height, header_hash));
    }

    /// Whether `state` was asked for, by coin id or by puzzle hash.
    fn is_subscribed(&self, state: &CoinState) -> (subscribed: bool)
        ensures
            subscribed == self@.subscribed(*state),
    {
        self.subscribed_coins.contains(state.coin.coin_id())
            || self.subscribed_puzzle_hashes.contains(state.coin.puzzle_hash)
    }

    /// The most coins the subscriptions allow for.
    fn max_cached_coins(&self) -> (most: usize)
        requires
            self.shaped(),
        ensures
            most == self@.capacity(),
    {
        let discovered = match self.subscribed_puzzle_hashes.len().checked_mul(
            MAX_COINS_PER_PUZZLE_HASH,
        ) {
            Some(n) => n,
            None => usize::MAX,
        };
        self.subscribed_coins.len().saturating_add(discovered)
    }
}

/// Whether `height` is known and lies above `bound`.
fn height_above(height: Option<u32>, bound: u32) -> (found: bool)
    ensures
        found == above(height, bound),
{
    match height {
        Some(h) => h > bound,
        None => false,
    }
}

/// The set of one element more.
proof fn lemma_take_set(ids: Seq<Bytes32>, i: int)
    requires
        0 <= i < ids.len(),
    ensures
        ids.take(i + 1).to_set() == ids.take(i).to_set().insert(ids[i]),
{
    assert(ids.take(i + 1) =~= ids.take(i).push(ids[i]));
    ids.take(i).lemma_push_to_set_commute(ids[i]);
}

/// Adding one element more to a union.
proof fn lemma_take_union(base: Set<Bytes32>, ids: Seq<Bytes32>, i: int)
    requires
        0 <= i < ids.len(),
    ensures
        base.union(ids.take(i + 1).to_set()) == base.union(ids.take(i).to_set()).insert(ids[i]),
{
    lemma_take_set(ids, i);
    assert(base.union(ids.take(i + 1).to_set()) =~= base.union(ids.take(i).to_set()).insert(
        ids[i],
    ));
}

/// Offering coins changes neither the subscriptions nor the peak.
pub proof fn lemma_with_coins_keeps(view: CacheView, states: Seq<CoinState>)
    ensures
        view.with_coins(states).subscribed_coins == view.subscribed_coins,
        view.with_coins(states).subscribed_puzzle_hashes == view.subscribed_puzzle_hashes,
        view.with_coins(states).peak == view.peak,
    decreases states.len(),
{
    if states.len() > 0 {
        lemma_with_coins_keeps(view, states.drop_last());
    }
}

/// Offering coins leaves no coin above the peak.
pub proof fn law_offered_coins_stay_below_the_peak(view: CacheView, states: Seq<CoinState>)
    requires
        view.no_coin_above_peak(),
    ensures
        view.with_coins(states).no_coin_above_peak(),
    decreases states.len(),
{
    if states.len() > 0 {
        law_offered_coins_stay_below_the_peak(view, states.drop_last());
        lemma_with_coins_keeps(view, states.drop_last());
    }
}

/// No cached coin is created above the peak after an update, whatever the update holds.
pub proof fn law_update_leaves_no_coin_above_the_peak(
    view: CacheView,
    items: Seq<CoinState>,
    height: u32,
    fork: u32,
    hash: Bytes32,
)
    requires
        view.no_coin_above_peak(),
    ensures
        view.updated(items, height, fork, hash).no_coin_above_peak(),
{
    let rolled = CacheView {
        coins: rolled_back(view.coins, view.reasserted(items), fork),
        ..view
    };
    let moved = rolled.with_peak(height, hash, view.is_genuine_reorg(items, height, fork));
    assert(moved.no_coin_above_peak());
    law_offered_coins_stay_below_the_peak(
        moved,
        items.filter(|s: CoinState| moved.subscribed(s)),
    );
}

/// Offering coins leaves every state under the id of its own coin.
pub proof fn law_offered_coins_stand_under_their_ids(view: CacheView, states: Seq<CoinState>)
    requires
        view.each_under_its_id(),
    ensures
        view.with_coins(states).each_under_its_id(),
    decreases states.len(),
{
    if states.len() > 0 {
        law_offered_coins_stand_under_their_ids(view, states.drop_last());
    }
}

/// Every state stands under the id of its own coin after an update, whatever the update holds.
pub proof fn law_update_leaves_every_state_under_its_id(
    view: CacheView,
    items: Seq<CoinState>,
    height: u32,
    fork: u32,
    hash: Bytes32,
)
    requires
        view.each_under_its_id(),
    ensures
        view.updated(items, height, fork, hash).each_under_its_id(),
{
    let rolled = CacheView {
        coins: rolled_back(view.coins, view.reasserted(items), fork),
        ..view
    };
    let moved = rolled.with_peak(height, hash, view.is_genuine_reorg(items, height, fork));
    assert(moved.each_under_its_id());
    law_offered_coins_stand_under_their_ids(
        moved,
        items.filter(|s: CoinState| moved.subscribed(s)),
    );
}

/// A confirmation count taken against the peak never goes below zero.
pub proof fn law_confirmations_do_not_underflow(view: CacheView, id: Bytes32, created: u32)
    requires
        view.no_coin_above_peak(),
        view.peak is Some,
        view.coins.dom().contains(id),
        view.coins[id].created_height == Some(created),
    ensures
        (view.peak->0).0 - created >= 0,
{
}

/// A bare peak announcement never lowers the peak.
pub proof fn law_bare_peak_only_advances(view: CacheView, height: u32, hash: Bytes32)
    requires
        view.peak is Some,
    ensures
        view.with_peak(height, hash, false).peak is Some,
        (view.with_peak(height, hash, false).peak->0).0 >= (view.peak->0).0,
{
}

/// An update lowers the peak only as a genuine reorganisation: it undid something that was asked
/// for, it forked below the peak, and its tip is not below its fork.
pub proof fn law_peak_is_lowered_only_by_a_genuine_reorg(
    view: CacheView,
    items: Seq<CoinState>,
    height: u32,
    fork: u32,
    hash: Bytes32,
)
    requires
        view.peak is Some,
    ensures
        view.updated(items, height, fork, hash).peak is Some,
        (view.updated(items, height, fork, hash).peak->0).0 < (view.peak->0).0
            ==> view.is_genuine_reorg(items, height, fork),
        view.is_genuine_reorg(items, height, fork) ==> view.updated(
            items,
            height,
            fork,
            hash,
        ).peak == Some((height, hash)),
{
    let rolled = CacheView {
        coins: rolled_back(view.coins, view.reasserted(items), fork),
        ..view
    };
    let moved = rolled.with_peak(height, hash, view.is_genuine_reorg(items, height, fork));
    lemma_with_coins_keeps(moved, items.filter(|s: CoinState| moved.subscribed(s)));
}

/// A coin that offering brought in, or changed, is one that was offered.
proof fn lemma_offered_coins_come_from_the_offer(view: CacheView, states: Seq<CoinState>, id: Bytes32)
    requires
        view.with_coins(states).coins.dom().contains(id),
    ensures
        ({
            ||| view.coins.dom().contains(id) && view.with_coins(states).coins[id]
                == view.coins[id]
            ||| exists|i: int|
                0 <= i < states.len() && (#[trigger] states[i]).coin.id() == id
                    && view.with_coins(states).coins[id] == states[i]
        }),
    decreases states.len(),
{
    if states.len() > 0 {
        let head = states.drop_last();
        if view.with_coins(head).coins.dom().contains(id) {
            lemma_offered_coins_come_from_the_offer(view, head, id);
        }
        let last = states.last();
        assert(states[states.len() - 1] == last);
        if exists|i: int|
            0 <= i < head.len() && (#[trigger] head[i]).coin.id() == id && view.with_coins(
                head,
            ).coins[id] == head[i] {
            let i = choose|i: int|
                0 <= i < head.len() && (#[trigger] head[i]).coin.id() == id && view.with_coins(
                    head,
                ).coins[id] == head[i];
            assert(states[i] == head[i]);
        }
    }
}

/// An unsolicited item is never cached: a coin that an update brings in is one that was asked
/// for, with the state the update gave for it.
pub proof fn law_update_admits_only_what_was_asked_for(
    view: CacheView,
    items: Seq<CoinState>,
    height: u32,
    fork: u32,
    hash: Bytes32,
    id: Bytes32,
)
    requires
        !view.coins.dom().contains(id),
        view.updated(items, height, fork, hash).coins.dom().contains(id),
    ensures
        exists|i: int|
            0 <= i < items.len() && view.subscribed(#[trigger] items[i]) && items[i].coin.id() == id
                && view.updated(items, height, fork, hash).coins[id] == items[i],
{
    let rolled = CacheView {
        coins: rolled_back(view.coins, view.reasserted(items), fork),
        ..view
    };
    let moved = rolled.with_peak(height, hash, view.is_genuine_reorg(items, height, fork));
    let wanted = |s: CoinState| moved.subscribed(s);
    let offered = items.filter(wanted);
    lemma_offered_coins_come_from_the_offer(moved, offered, id);
    let i = choose|i: int|
        0 <= i < offered.len() && (#[trigger] offered[i]).coin.id() == id && moved.with_coins(
            offered,
        ).coins[id] == offered[i];
    items.lemma_filter_pred(wanted, i);
    assert(offered.contains(offered[i]));
    items.lemma_filter_contains_rev(wanted, offered[i]);
    let j = choose|j: int| 0 <= j < items.len() && items[j] == offered[i];
    assert(view.subscribed(items[j]));
}

/// Offering coins grows the cache no further than the subscriptions allow.
proof fn lemma_offered_coins_are_bounded(view: CacheView, states: Seq<CoinState>)
    requires
        view.coins.dom().finite(),
    ensures
        view.with_coins(states).coins.dom().finite(),
        view.with_coins(states).coins.dom().len() <= view.coins.dom().len() || view.with_coins(
            states,
        ).coins.dom().len() <= view.capacity(),
    decreases states.len(),
{
    if states.len() > 0 {
        lemma_offered_coins_are_bounded(view, states.drop_last());
        lemma_with_coins_keeps(view, states.drop_last());
        let before = view.with_coins(states.drop_last());
        let id = states.last().coin.id();
        if before.coins.dom().contains(id) {
            assert(before.coins.dom().insert(id) =~= before.coins.dom());
        }
        assert(before.coins.insert(id, states.last()).dom() =~= before.coins.dom().insert(id));
    }
}

/// An update grows the cache no further than the subscriptions allow.
pub proof fn law_update_is_bounded(
    view: CacheView,
    items: Seq<CoinState>,
    height: u32,
    fork: u32,
    hash: Bytes32,
)
    requires
        view.coins.dom().finite(),
    ensures
        view.updated(items, height, fork, hash).coins.dom().finite(),
        view.updated(items, height, fork, hash).coins.dom().len() <= view.coins.dom().len()
            || view.updated(items, height, fork, hash).coins.dom().len() <= view.capacity(),
{
    let rolled = CacheView {
        coins: rolled_back(view.coins, view.reasserted(items), fork),
        ..view
    };
    let moved = rolled.with_peak(height, hash, view.is_genuine_reorg(items, height, fork));
    assert(moved.coins.dom().subset_of(view.coins.dom()));
    vstd::set_lib::lemma_len_subset(moved.coins.dom(), view.coins.dom());
    lemma_offered_coins_are_bounded(moved, items.filter(|s: CoinState| moved.subscribed(s)));
}

/// A rollback forgets the coins created above the fork and the spends made above it, of every coin
/// that is not kept, and changes nothing else.
pub proof fn law_rollback_undoes_what_lies_above_the_fork(
    coins: Map<Bytes32, CoinState>,
    kept: Set<Bytes32>,
    fork: u32,
    id: Bytes32,
)
    ensures
        ({
            let after = rolled_back(coins, kept, fork);
            let before = coins[id];
            let born_later = before.created_height is Some && before.created_height->0 > fork;
            let spent_later = before.spent_height is Some && before.spent_height->0 > fork;
            &&& after.dom().contains(id) <==> coins.dom().contains(id) && (kept.contains(id)
                || !born_later)
            &&& coins.dom().contains(id) && kept.contains(id) ==> after[id] == before
            &&& coins.dom().contains(id) && !kept.contains(id) && !born_later ==> {
                &&& after[id].coin == before.coin
                &&& after[id].created_height == before.created_height
                &&& spent_later ==> after[id].spent_height is None
                &&& !spent_later ==> after[id].spent_height == before.spent_height
            }
        }),
{
}

/// A peak is taken exactly if none is held, if it is no lower than the one held, or if a lower one
/// is allowed. It then sweeps out the coins created above it, and no others; a peak that is not
/// taken changes nothing.
pub proof fn law_a_peak_sweeps_out_what_lies_above_it(
    view: CacheView,
    height: u32,
    hash: Bytes32,
    allow_lower: bool,
    id: Bytes32,
)
    ensures
        ({
            let after = view.with_peak(height, hash, allow_lower);
            let taken = view.peak is None || (view.peak->0).0 <= height || allow_lower;
            let created = view.coins[id].created_height;
            &&& taken ==> after.peak == Some((height, hash))
            &&& !taken ==> after == view
            &&& taken ==> (after.coins.dom().contains(id) <==> view.coins.dom().contains(id) && (
            created is None || created->0 <= height))
            &&& after.coins.dom().contains(id) ==> after.coins[id] == view.coins[id]
            &&& after.subscribed_coins == view.subscribed_coins
            &&& after.subscribed_puzzle_hashes == view.subscribed_puzzle_hashes
        }),
{
}

/// A coin that is offered is taken exactly if it was not created above the peak, and if it is known
/// already or there is room for it: for one coin of each coin that is subscribed to, and ten thousand
/// of each puzzle hash. It then stands as it was offered, and nothing else changes.
pub proof fn law_an_offered_coin_is_taken_if_there_is_room(view: CacheView, state: CoinState, id: Bytes32)
    requires
        view.subscribed_coins.len() + 10_000 * view.subscribed_puzzle_hashes.len() <= usize::MAX,
    ensures
        ({
            let after = view.with_coin(state);
            let own = state.coin.id();
            let too_new = view.peak is Some && state.created_height is Some
                && state.created_height->0 > (view.peak->0).0;
            let known = view.coins.dom().contains(own);
            let room = view.coins.dom().len() < view.subscribed_coins.len() + 10_000
                * view.subscribed_puzzle_hashes.len();
            let taken = !too_new && (known || room);
            &&& taken ==> after.coins.dom().contains(own) && after.coins[own] == state
            &&& !taken ==> after == view
            &&& id != own ==> (after.coins.dom().contains(id) <==> view.coins.dom().contains(id))
            &&& id != own && view.coins.dom().contains(id) ==> after.coins[id] == view.coins[id]
            &&& after.peak == view.peak
            &&& after.subscribed_coins == view.subscribed_coins
            &&& after.subscribed_puzzle_hashes == view.subscribed_puzzle_hashes
        }),
{
}

/// What was asked for is what is subscribed to by its id or by its puzzle hash, and what an update
/// re-asserts are the ids of those of its items.
pub proof fn law_only_what_was_asked_for_is_reasserted(
    view: CacheView,
    items: Seq<CoinState>,
    id: Bytes32,
)
    ensures
        view.reasserted(items).contains(id) <==> exists|i: int|
            0 <= i < items.len() && (#[trigger] items[i]).coin.id() == id && (
            view.subscribed_coins.contains(id) || view.subscribed_puzzle_hashes.contains(
                items[i].coin.puzzle_hash,
            )),
{
    if view.reasserted(items).contains(id) {
        let i = choose|i: int|
            0 <= i < items.len() && view.subscribed(#[trigger] items[i]) && items[i].coin.id() == id;
        assert(items[i].coin.id() == id);
    }
    if exists|i: int|
        0 <= i < items.len() && (#[trigger] items[i]).coin.id() == id && (
        view.subscribed_coins.contains(id) || view.subscribed_puzzle_hashes.contains(
            items[i].coin.puzzle_hash,
        )) {
        let i = choose|i: int|
            0 <= i < items.len() && (#[trigger] items[i]).coin.id() == id && (
            view.subscribed_coins.contains(id) || view.subscribed_puzzle_hashes.contains(
                items[i].coin.puzzle_hash,
            ));
        assert(view.subscribed(items[i]));
    }
}

/// An update is a genuine reorganisation exactly if it forks below the peak, its tip is not below its
/// fork, and it undoes the creation or the spend of a cached coin that it does not re-assert.
pub proof fn law_a_genuine_reorg_undoes_something(
    view: CacheView,
    items: Seq<CoinState>,
    height: u32,
    fork: u32,
)
    ensures
        view.is_genuine_reorg(items, height, fork) <==> view.peak is Some && fork < (
        view.peak->0).0 && fork <= height && exists|id: Bytes32|
            #![trigger view.coins.dom().contains(id)]
            view.coins.dom().contains(id) && !view.reasserted(items).contains(id) && ((
            view.coins[id].created_height is Some && view.coins[id].created_height->0 > fork) || (
            view.coins[id].spent_height is Some && view.coins[id].spent_height->0 > fork)),
{
    let kept = view.reasserted(items);
    if rollback_changes(view.coins, kept, fork) {
        let id = choose|id: Bytes32| is_rolled_back(view.coins, kept, fork, id);
        assert(view.coins.dom().contains(id));
    }
    if exists|id: Bytes32|
        #![trigger view.coins.dom().contains(id)]
        view.coins.dom().contains(id) && !kept.contains(id) && ((
        view.coins[id].created_height is Some && view.coins[id].created_height->0 > fork) || (
        view.coins[id].spent_height is Some && view.coins[id].spent_height->0 > fork)) {
        let id = choose|id: Bytes32|
            #![trigger view.coins.dom().contains(id)]
            view.coins.dom().contains(id) && !kept.contains(id) && ((
            view.coins[id].created_height is Some && view.coins[id].created_height->0 > fork) || (
            view.coins[id].spent_height is Some && view.coins[id].spent_height->0 > fork));
        assert(is_rolled_back(view.coins, kept, fork, id));
    }
}

proof fn lemma_offers_are_counted(
    view: CacheView,
    items: Seq<CoinState>,
    wanted: spec_fn(CoinState) -> bool,
)
    requires
        view.coins.dom().finite(),
    ensures
        view.with_coins(items.filter(wanted)).coins.dom().finite(),
        view.with_coins(items.filter(wanted)).coins.dom().len() <= view.coins.dom().len()
            + items.len(),
    decreases items.len(),
{
    reveal(Seq::filter);
    if items.len() > 0 {
        let init = items.drop_last();
        let last = items.last();
        lemma_offers_are_counted(view, init, wanted);
        assert(items =~= init.push(last));
        init.lemma_filter_push(last, wanted);
        if wanted(last) {
            assert(items.filter(wanted).drop_last() =~= init.filter(wanted));
            let before = view.with_coins(init.filter(wanted));
            let id = last.coin.id();
            assert(before.coins.insert(id, last).dom() =~= before.coins.dom().insert(id));
        }
    }
}

proof fn lemma_last_offer_stands(
    view: CacheView,
    items: Seq<CoinState>,
    wanted: spec_fn(CoinState) -> bool,
    i: int,
)
    requires
        view.coins.dom().finite(),
        view.coins.dom().len() + items.len() <= view.capacity(),
        0 <= i < items.len(),
        wanted(items[i]),
        forall|j: int|
            i < j < items.len() && wanted(#[trigger] items[j]) ==> items[j].coin.id()
                != items[i].coin.id(),
        view.peak is None || !above(items[i].created_height, (view.peak->0).0),
    ensures
        view.with_coins(items.filter(wanted)).coins.dom().contains(items[i].coin.id()),
        view.with_coins(items.filter(wanted)).coins[items[i].coin.id()] == items[i],
    decreases items.len(),
{
    reveal(Seq::filter);
    let init = items.drop_last();
    let last = items.last();
    assert(items =~= init.push(last));
    init.lemma_filter_push(last, wanted);
    lemma_offers_are_counted(view, init, wanted);
    lemma_with_coins_keeps(view, init.filter(wanted));
    if wanted(last) {
        assert(items.filter(wanted).drop_last() =~= init.filter(wanted));
    }
    if i < init.len() {
        assert forall|j: int| i < j < init.len() && wanted(#[trigger] init[j]) implies init[j].coin.id()
            != init[i].coin.id() by {
            assert(init[j] == items[j]);
        }
        lemma_last_offer_stands(view, init, wanted, i);
        if wanted(last) {
            assert(wanted(items[items.len() - 1]));
        }
    }
}

proof fn lemma_what_is_not_offered_stays(
    view: CacheView,
    items: Seq<CoinState>,
    wanted: spec_fn(CoinState) -> bool,
    id: Bytes32,
)
    requires
        forall|j: int|
            0 <= j < items.len() && wanted(#[trigger] items[j]) ==> items[j].coin.id() != id,
    ensures
        view.with_coins(items.filter(wanted)).coins.dom().contains(id)
            <==> view.coins.dom().contains(id),
        view.coins.dom().contains(id) ==> view.with_coins(items.filter(wanted)).coins[id]
            == view.coins[id],
    decreases items.len(),
{
    reveal(Seq::filter);
    if items.len() > 0 {
        let init = items.drop_last();
        let last = items.last();
        assert(items =~= init.push(last));
        init.lemma_filter_push(last, wanted);
        assert forall|j: int| 0 <= j < init.len() && wanted(#[trigger] init[j]) implies init[j].coin.id()
            != id by {
            assert(init[j] == items[j]);
        }
        lemma_what_is_not_offered_stays(view, init, wanted, id);
        if wanted(last) {
            assert(items.filter(wanted).drop_last() =~= init.filter(wanted));
            assert(wanted(items[items.len() - 1]));
        }
    }
}

/// An update is authoritative for every coin that was asked for and that it mentions: the last state
/// it gives for the coin stands, unless that lies above the peak the update leaves, as long as the
/// subscriptions leave room for its items.
pub proof fn law_an_update_is_authoritative_for_what_it_mentions(
    view: CacheView,
    items: Seq<CoinState>,
    height: u32,
    fork: u32,
    hash: Bytes32,
    i: int,
)
    requires
        view.coins.dom().finite(),
        view.coins.dom().len() + items.len() <= view.subscribed_coins.len() + 10_000
            * view.subscribed_puzzle_hashes.len(),
        view.coins.dom().len() + items.len() <= usize::MAX,
        0 <= i < items.len(),
        view.subscribed(items[i]),
        forall|j: int|
            i < j < items.len() && view.subscribed(#[trigger] items[j]) ==> items[j].coin.id()
                != items[i].coin.id(),
        items[i].created_height is None || items[i].created_height->0 <= (view.updated(
            items,
            height,
            fork,
            hash,
        ).peak->0).0,
    ensures
        view.updated(items, height, fork, hash).coins.dom().contains(items[i].coin.id()),
        view.updated(items, height, fork, hash).coins[items[i].coin.id()] == items[i],
{
    let rolled = CacheView {
        coins: rolled_back(view.coins, view.reasserted(items), fork),
        ..view
    };
    let moved = rolled.with_peak(height, hash, view.is_genuine_reorg(items, height, fork));
    let wanted = |s: CoinState| moved.subscribed(s);
    assert(moved.coins.dom().subset_of(view.coins.dom()));
    vstd::set_lib::lemma_len_subset(moved.coins.dom(), view.coins.dom());
    lemma_with_coins_keeps(moved, items.filter(wanted));
    assert forall|j: int| i < j < items.len() && wanted(#[trigger] items[j]) implies items[j].coin.id()
        != items[i].coin.id() by {
        assert(view.subscribed(items[j]));
    }
    lemma_last_offer_stands(moved, items, wanted, i);
}

/// A cached coin that an update does not mention loses what it says above the fork, and otherwise
/// stays as it is: it is gone exactly if it was created above the fork or above the peak that the
/// update leaves, and unspent again if it was spent above the fork.
pub proof fn law_what_an_update_does_not_mention_is_rolled_back(
    view: CacheView,
    items: Seq<CoinState>,
    height: u32,
    fork: u32,
    hash: Bytes32,
    id: Bytes32,
)
    requires
        view.no_coin_above_peak(),
        view.coins.dom().contains(id),
        forall|i: int|
            0 <= i < items.len() && view.subscribed(#[trigger] items[i]) ==> items[i].coin.id()
                != id,
    ensures
        ({
            let after = view.updated(items, height, fork, hash);
            let before = view.coins[id];
            let created = before.created_height;
            let stays = created is None || created->0 <= fork && created->0 <= (after.peak->0).0;
            &&& after.coins.dom().contains(id) <==> stays
            &&& stays ==> {
                &&& after.coins[id].coin == before.coin
                &&& after.coins[id].created_height == created
                &&& after.coins[id].spent_height == (if before.spent_height is Some
                    && before.spent_height->0 > fork {
                    None
                } else {
                    before.spent_height
                })
            }
        }),
{
    let rolled = CacheView {
        coins: rolled_back(view.coins, view.reasserted(items), fork),
        ..view
    };
    let moved = rolled.with_peak(height, hash, view.is_genuine_reorg(items, height, fork));
    let wanted = |s: CoinState| moved.subscribed(s);
    lemma_with_coins_keeps(moved, items.filter(wanted));
    assert forall|j: int| 0 <= j < items.len() && wanted(#[trigger] items[j]) implies items[j].coin.id()
        != id by {
        assert(view.subscribed(items[j]));
    }
    lemma_what_is_not_offered_stays(moved, items, wanted, id);
    assert(!view.reasserted(items).contains(id));
}

/// An update moves the peak to its own tip exactly if that is no lower than the peak held, or if it
/// is a genuine reorganisation, and changes no subscription.
pub proof fn law_an_update_moves_the_peak(
    view: CacheView,
    items: Seq<CoinState>,
    height: u32,
    fork: u32,
    hash: Bytes32,
)
    ensures
        ({
            let after = view.updated(items, height, fork, hash);
            &&& after.peak == (if view.peak is None || (view.peak->0).0 <= height
                || view.is_genuine_reorg(items, height, fork) {
                Some((height, hash))
            } else {
                view.peak
            })
            &&& after.subscribed_coins == view.subscribed_coins
            &&& after.subscribed_puzzle_hashes == view.subscribed_puzzle_hashes
        }),
{
    let rolled = CacheView {
        coins: rolled_back(view.coins, view.reasserted(items), fork),
        ..view
    };
    let moved = rolled.with_peak(height, hash, view.is_genuine_reorg(items, height, fork));
    lemma_with_coins_keeps(moved, items.filter(|s: CoinState| moved.subscribed(s)));
}

/// Of the states a cache is seeded with, the last one of each coin stands unless it lies above the
/// peak, as long as the subscriptions leave room for them; a coin that none is of stays as it is.
pub proof fn law_a_seed_stands(view: CacheView, states: Seq<CoinState>, i: int, id: Bytes32)
    requires
        view.coins.dom().finite(),
        view.coins.dom().len() + states.len() <= view.subscribed_coins.len() + 10_000
            * view.subscribed_puzzle_hashes.len(),
        view.coins.dom().len() + states.len() <= usize::MAX,
    ensures
        0 <= i < states.len() && (forall|j: int|
            i < j < states.len() ==> (#[trigger] states[j]).coin.id() != states[i].coin.id()) && (
        view.peak is None || states[i].created_height is None || states[i].created_height->0 <= (
        view.peak->0).0) ==> view.with_coins(states).coins.dom().contains(states[i].coin.id())
            && view.with_coins(states).coins[states[i].coin.id()] == states[i],
        (forall|j: int| 0 <= j < states.len() ==> (#[trigger] states[j]).coin.id() != id) ==> (
        view.with_coins(states).coins.dom().contains(id) <==> view.coins.dom().contains(id)) && (
        view.coins.dom().contains(id) ==> view.with_coins(states).coins[id] == view.coins[id]),
{
    let every = |s: CoinState| true;
    lemma_keeps_every(states);
    if 0 <= i < states.len() && (forall|j: int|
        i < j < states.len() ==> (#[trigger] states[j]).coin.id() != states[i].coin.id()) && (
    view.peak is None || states[i].created_height is None || states[i].created_height->0 <= (
    view.peak->0).0) {
        lemma_last_offer_stands(view, states, every, i);
    }
    if forall|j: int| 0 <= j < states.len() ==> (#[trigger] states[j]).coin.id() != id {
        lemma_what_is_not_offered_stays(view, states, every, id);
    }
}

proof fn lemma_keeps_every(states: Seq<CoinState>)
    ensures
        states.filter(|s: CoinState| true) == states,
    decreases states.len(),
{
    reveal(Seq::filter);
    if states.len() > 0 {
        lemma_keeps_every(states.drop_last());
        assert(states =~= states.drop_last().push(states.last()));
    } else {
        assert(states.filter(|s: CoinState| true) =~= states);
    }
}

/// Tracking follows the ids that are handed in besides those followed before, untracking follows all
/// but those handed in, and neither touches a coin or the peak.
pub proof fn law_tracking_adds_and_untracking_removes(
    followed: &mut CoinStateCache,
    hashed: &mut CoinStateCache,
    dropped: &mut CoinStateCache,
    ids: &[Bytes32],
    id: Bytes32,
)
    requires
        call_ensures(CoinStateCache::track_coins, (followed, ids), ()),
        call_ensures(CoinStateCache::track_puzzle_hashes, (hashed, ids), ()),
        call_ensures(CoinStateCache::untrack_coins, (dropped, ids), ()),
    ensures
        final(followed)@.subscribed_coins.contains(id) <==> old(followed)@.subscribed_coins.contains(
            id,
        ) || ids@.contains(id),
        final(followed)@.subscribed_puzzle_hashes == old(followed)@.subscribed_puzzle_hashes,
        final(followed)@.coins == old(followed)@.coins,
        final(followed)@.peak == old(followed)@.peak,
        final(hashed)@.subscribed_puzzle_hashes.contains(id) <==> old(
            hashed,
        )@.subscribed_puzzle_hashes.contains(id) || ids@.contains(id),
        final(hashed)@.subscribed_coins == old(hashed)@.subscribed_coins,
        final(hashed)@.coins == old(hashed)@.coins,
        final(hashed)@.peak == old(hashed)@.peak,
        final(dropped)@.subscribed_coins.contains(id) <==> old(
            dropped,
        )@.subscribed_coins.contains(id) && !ids@.contains(id),
        final(dropped)@.subscribed_puzzle_hashes == old(dropped)@.subscribed_puzzle_hashes,
        final(dropped)@.coins == old(dropped)@.coins,
        final(dropped)@.peak == old(dropped)@.peak,
{
}

/// A followed coin makes room for itself and a followed puzzle hash for ten thousand coins, as far as
/// a `usize` can count them.
pub proof fn law_subscriptions_make_room(view: CacheView)
    ensures
        ({
            let room = view.subscribed_coins.len() + 10_000 * view.subscribed_puzzle_hashes.len();
            &&& view.capacity() <= room
            &&& view.capacity() <= usize::MAX
            &&& view.capacity() == room || view.capacity() == usize::MAX
        }),
{
}

} // verus!
