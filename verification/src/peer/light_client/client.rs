//! The light client: its cache, its anchor, and what subscribing does to them.

use vstd::prelude::*;

use crate::peer::connect::PeerOrigin;
use crate::protocol::{Bytes32, CoinState, CoinStateFilters};

use super::cache::{CacheView, CoinStateCache};
use super::error::LightClientError;
use super::fetcher::{FetcherView, PooledFetcher};
use super::outcome::SubmitOutcome;

verus! {

/// The priority a light client's provider registers with: lower is tried earlier.
pub const DEFAULT_PROVIDER_PRIORITY: i32 = 20;

/// What kind of source a provider is.
#[derive(Clone, Copy, Debug, PartialEq, Eq, Structural)]
pub enum ProviderKind {
    /// A node of the operator's own.
    LocalNode,
    /// Any other.
    Custom,
}

/// How a provider describes itself.
#[derive(Clone, Copy, Debug, PartialEq, Eq)]
pub struct ProviderInfo {
    pub id: &'static str,
    pub kind: ProviderKind,
    pub priority: i32,
    /// Whether its answers carry their own proof.
    pub trustless: bool,
}

/// The filters subscriptions are armed again with: everything, so that none covers less than it
/// did.
pub fn all_coin_states() -> (filters: CoinStateFilters)
    ensures
        filters == (CoinStateFilters {
            include_spent: true,
            include_unspent: true,
            include_hinted: true,
            min_amount: 0,
        }),
{
    CoinStateFilters {
        include_spent: true,
        include_unspent: true,
        include_hinted: true,
        min_amount: 0,
    }
}

/// What is left to do to arm the subscriptions again.
pub enum Rearm {
    /// Subscribe to `coins`, and to `puzzle_hashes` after that.
    Coins { coins: Vec<Bytes32>, puzzle_hashes: Vec<Bytes32> },
    /// Subscribe to `puzzle_hashes`.
    PuzzleHashes { puzzle_hashes: Vec<Bytes32> },
    /// Nothing.
    Done,
}

/// A cache after `coin_ids` have been subscribed to and answered with `states`.
pub open spec fn with_coins_subscribed(
    cache: CacheView,
    coin_ids: Seq<Bytes32>,
    states: Seq<CoinState>,
) -> CacheView {
    (CacheView {
        subscribed_coins: cache.subscribed_coins.union(coin_ids.to_set()),
        ..cache
    }).with_coins(states)
}

/// A cache after `puzzle_hashes` have been subscribed to and answered with `states`.
pub open spec fn with_puzzle_hashes_subscribed(
    cache: CacheView,
    puzzle_hashes: Seq<Bytes32>,
    states: Seq<CoinState>,
) -> CacheView {
    (CacheView {
        subscribed_puzzle_hashes: cache.subscribed_puzzle_hashes.union(puzzle_hashes.to_set()),
        ..cache
    }).with_coins(states)
}

/// A light client over the shared pool.
pub struct ChiaLightClient {
    pub fetcher: PooledFetcher,
    pub cache: CoinStateCache,
}

impl ChiaLightClient {
    /// A client that follows nothing and knows nothing.
    pub fn new() -> (client: Self)
        ensures
            client.cache.wf(),
            client.fetcher@ == (FetcherView { anchor: None, rearm_needed: false }),
            client.cache@.peak is None,
            client.cache@.subscribed_coins == Set::<Bytes32>::empty(),
            client.cache@.subscribed_puzzle_hashes == Set::<Bytes32>::empty(),
            client.cache@.coins == Map::<Bytes32, CoinState>::empty(),
    {
        ChiaLightClient { fetcher: PooledFetcher::new(), cache: CoinStateCache::new() }
    }

    /// Takes the answer to a subscription to `coin_ids`. One that failed changes nothing.
    pub fn subscribe_coins(
        &mut self,
        coin_ids: &[Bytes32],
        fetched: Result<Vec<CoinState>, LightClientError>,
    ) -> (outcome: Result<(), LightClientError>)
        requires
            old(self).cache.wf(),
        ensures
            final(self).cache.wf(),
            final(self).fetcher == old(self).fetcher,
            match (outcome, fetched) {
                (Ok(()), Ok(states)) => final(self).cache@ == with_coins_subscribed(
                    old(self).cache@,
                    coin_ids@,
                    states@,
                ),
                (Err(e), Err(failure)) => e == failure && final(self).cache@ == old(self).cache@,
                _ => false,
            },
    {
        match fetched {
            Ok(states) => {
                self.cache.track_coins(coin_ids);
                self.cache.seed(states.as_slice());
                Ok(())
            },
            Err(e) => Err(e),
        }
    }

    /// Takes the answer to a subscription to `puzzle_hashes`. One that failed changes nothing.
    pub fn subscribe_puzzle_hashes(
        &mut self,
        puzzle_hashes: &[Bytes32],
        fetched: Result<Vec<CoinState>, LightClientError>,
    ) -> (outcome: Result<(), LightClientError>)
        requires
            old(self).cache.wf(),
        ensures
            final(self).cache.wf(),
            final(self).fetcher == old(self).fetcher,
            match (outcome, fetched) {
                (Ok(()), Ok(states)) => final(self).cache@ == with_puzzle_hashes_subscribed(
                    old(self).cache@,
                    puzzle_hashes@,
                    states@,
                ),
                (Err(e), Err(failure)) => e == failure && final(self).cache@ == old(self).cache@,
                _ => false,
            },
    {
        match fetched {
            Ok(states) => {
                self.cache.track_puzzle_hashes(puzzle_hashes);
                self.cache.seed(states.as_slice());
                Ok(())
            },
            Err(e) => Err(e),
        }
    }

    /// Reads the acknowledgement of a submitted spend.
    pub fn submit_spend(ack: Result<(u8, Option<String>), LightClientError>) -> (outcome: Result<
        SubmitOutcome,
        LightClientError,
    >)
        ensures
            match (outcome, ack) {
                (Ok(o), Ok(a)) => o == SubmitOutcome::of_ack(a.0, a.1),
                (Err(e), Err(failure)) => e == failure,
                _ => false,
            },
    {
        match ack {
            Ok((status, reason)) => Ok(SubmitOutcome::from_ack(status, reason)),
            Err(e) => Err(e),
        }
    }

    /// The peak of the followed session. Not the pool's: the coins come from that session too.
    pub fn peak(&self) -> (peak: Option<(u32, Bytes32)>)
        ensures
            peak == self.cache@.peak,
    {
        self.cache.peak()
    }

    /// Takes the answer to a request to end the subscription to `coin_ids`.
    pub fn unsubscribe_coins(
        &mut self,
        coin_ids: &[Bytes32],
        removed: Result<(), LightClientError>,
    ) -> (outcome: Result<(), LightClientError>)
        requires
            old(self).cache.wf(),
        ensures
            final(self).cache.wf(),
            outcome == removed,
            final(self).fetcher == old(self).fetcher,
            final(self).cache@ == (if removed is Ok {
                CacheView {
                    subscribed_coins: old(self).cache@.subscribed_coins.difference(
                        coin_ids@.to_set(),
                    ),
                    ..old(self).cache@
                }
            } else {
                old(self).cache@
            }),
    {
        if removed.is_ok() {
            self.cache.untrack_coins(coin_ids);
        }
        removed
    }

    /// Whether the subscriptions are armed on no session that is being followed.
    pub fn needs_rearm(&self) -> (needed: bool)
        ensures
            needed == self.fetcher@.rearm_needed,
    {
        self.fetcher.needs_rearm()
    }

    /// Sets out to arm every subscription again: the coins first, then the puzzle hashes.
    pub fn reconnect(&mut self) -> (rearm: Rearm)
        requires
            old(self).cache.wf(),
        ensures
            final(self).cache == old(self).cache,
            match rearm {
                Rearm::Coins { coins, puzzle_hashes } => {
                    &&& coins@.len() > 0 && coins@.no_duplicates()
                    &&& coins@.to_set() == old(self).cache@.subscribed_coins
                    &&& puzzle_hashes@.no_duplicates()
                    &&& puzzle_hashes@.to_set() == old(self).cache@.subscribed_puzzle_hashes
                    &&& final(self).fetcher@ == old(self).fetcher@
                },
                Rearm::PuzzleHashes { puzzle_hashes } => {
                    &&& old(self).cache@.subscribed_coins == Set::<Bytes32>::empty()
                    &&& puzzle_hashes@.len() > 0 && puzzle_hashes@.no_duplicates()
                    &&& puzzle_hashes@.to_set() == old(self).cache@.subscribed_puzzle_hashes
                    &&& final(self).fetcher@ == old(self).fetcher@
                },
                Rearm::Done => {
                    &&& old(self).cache@.subscribed_coins == Set::<Bytes32>::empty()
                    &&& old(self).cache@.subscribed_puzzle_hashes == Set::<Bytes32>::empty()
                    &&& final(self).fetcher@ == FetcherView {
                        rearm_needed: false,
                        ..old(self).fetcher@
                    }
                },
            },
    {
        let coins = self.cache.subscribed_coins();
        let puzzle_hashes = self.cache.subscribed_puzzle_hashes();
        if coins.len() > 0 {
            return Rearm::Coins { coins, puzzle_hashes };
        }
        assert(coins@.to_set() =~= Set::<Bytes32>::empty());
        self.rearm_puzzle_hashes(puzzle_hashes)
    }

    /// What is left to do once the coins are subscribed to.
    fn rearm_puzzle_hashes(&mut self, puzzle_hashes: Vec<Bytes32>) -> (rearm: Rearm)
        ensures
            final(self).cache == old(self).cache,
            match rearm {
                Rearm::Coins { coins, puzzle_hashes } => false,
                Rearm::PuzzleHashes { puzzle_hashes: left } => {
                    &&& left == puzzle_hashes && left@.len() > 0
                    &&& final(self).fetcher@ == old(self).fetcher@
                },
                Rearm::Done => {
                    &&& puzzle_hashes@.to_set() == Set::<Bytes32>::empty()
                    &&& final(self).fetcher@ == FetcherView {
                        rearm_needed: false,
                        ..old(self).fetcher@
                    }
                },
            },
    {
        if puzzle_hashes.len() > 0 {
            return Rearm::PuzzleHashes { puzzle_hashes };
        }
        assert(puzzle_hashes@.to_set() =~= Set::<Bytes32>::empty());
        self.fetcher.clear_rearm();
        Rearm::Done
    }

    /// Goes on once the coins have been subscribed to again. A failure leaves the subscriptions to
    /// be armed.
    pub fn rearmed_coins(
        &mut self,
        coins: &[Bytes32],
        puzzle_hashes: Vec<Bytes32>,
        fetched: Result<Vec<CoinState>, LightClientError>,
    ) -> (rearm: Result<Rearm, LightClientError>)
        requires
            old(self).cache.wf(),
        ensures
            final(self).cache.wf(),
            match (rearm, fetched) {
                (Ok(next), Ok(states)) => {
                    &&& final(self).cache@ == with_coins_subscribed(
                        old(self).cache@,
                        coins@,
                        states@,
                    )
                    &&& match next {
                        Rearm::Coins { coins, puzzle_hashes } => false,
                        Rearm::PuzzleHashes { puzzle_hashes: left } => left == puzzle_hashes
                            && left@.len() > 0 && final(self).fetcher@ == old(self).fetcher@,
                        Rearm::Done => puzzle_hashes@.len() == 0 && final(self).fetcher@
                            == FetcherView { rearm_needed: false, ..old(self).fetcher@ },
                    }
                },
                (Err(e), Err(failure)) => {
                    &&& e == failure
                    &&& final(self).cache@ == old(self).cache@
                    &&& final(self).fetcher@ == old(self).fetcher@
                },
                _ => false,
            },
    {
        match self.subscribe_coins(coins, fetched) {
            Ok(()) => {
                let ghost none = puzzle_hashes@;
                let rearm = self.rearm_puzzle_hashes(puzzle_hashes);
                proof {
                    if rearm is Done && none.len() > 0 {
                        assert(none.to_set().contains(none[0]));
                    }
                }
                Ok(rearm)
            },
            Err(e) => Err(e),
        }
    }

    /// Goes on once the puzzle hashes have been subscribed to again. Only now are the
    /// subscriptions armed.
    pub fn rearmed_puzzle_hashes(
        &mut self,
        puzzle_hashes: &[Bytes32],
        fetched: Result<Vec<CoinState>, LightClientError>,
    ) -> (outcome: Result<(), LightClientError>)
        requires
            old(self).cache.wf(),
        ensures
            final(self).cache.wf(),
            match (outcome, fetched) {
                (Ok(()), Ok(states)) => {
                    &&& final(self).cache@ == with_puzzle_hashes_subscribed(
                        old(self).cache@,
                        puzzle_hashes@,
                        states@,
                    )
                    &&& final(self).fetcher@ == FetcherView {
                        rearm_needed: false,
                        ..old(self).fetcher@
                    }
                },
                (Err(e), Err(failure)) => {
                    &&& e == failure
                    &&& final(self).cache@ == old(self).cache@
                    &&& final(self).fetcher@ == old(self).fetcher@
                },
                _ => false,
            },
    {
        match self.subscribe_puzzle_hashes(puzzle_hashes, fetched) {
            Ok(()) => {
                self.fetcher.clear_rearm();
                Ok(())
            },
            Err(e) => Err(e),
        }
    }

    /// How this client's provider describes itself: by how the peer it reads from was found, which
    /// the pool observed, and never as trustless, for its answers are one peer's word.
    pub fn provider_info(&self) -> (info: ProviderInfo)
        ensures
            info.id@ == "chia-query-light-client"@,
            info.kind == (match self.fetcher@.anchor {
                Some(anchor) => match anchor.origin {
                    PeerOrigin::Priority => ProviderKind::LocalNode,
                    PeerOrigin::Discovered => ProviderKind::Custom,
                },
                None => ProviderKind::Custom,
            }),
            info.priority == DEFAULT_PROVIDER_PRIORITY,
            !info.trustless,
    {
        let kind = match self.fetcher.current_anchor() {
            Some(anchor) => match anchor.origin {
                PeerOrigin::Priority => ProviderKind::LocalNode,
                PeerOrigin::Discovered => ProviderKind::Custom,
            },
            None => ProviderKind::Custom,
        };
        ProviderInfo {
            id: "chia-query-light-client",
            kind,
            priority: DEFAULT_PROVIDER_PRIORITY,
            trustless: false,
        }
    }
}

/// A subscription that was answered follows what was asked for besides what was followed before, and
/// neither unfollows anything nor moves the peak.
pub proof fn law_a_subscription_adds_what_was_asked_for(
    cache: CacheView,
    ids: Seq<Bytes32>,
    states: Seq<CoinState>,
    id: Bytes32,
)
    ensures
        with_coins_subscribed(cache, ids, states).subscribed_coins.contains(id)
            <==> cache.subscribed_coins.contains(id) || ids.contains(id),
        with_coins_subscribed(cache, ids, states).subscribed_puzzle_hashes
            == cache.subscribed_puzzle_hashes,
        with_coins_subscribed(cache, ids, states).peak == cache.peak,
        with_puzzle_hashes_subscribed(cache, ids, states).subscribed_puzzle_hashes.contains(id)
            <==> cache.subscribed_puzzle_hashes.contains(id) || ids.contains(id),
        with_puzzle_hashes_subscribed(cache, ids, states).subscribed_coins
            == cache.subscribed_coins,
        with_puzzle_hashes_subscribed(cache, ids, states).peak == cache.peak,
{
    let by_coin = CacheView {
        subscribed_coins: cache.subscribed_coins.union(ids.to_set()),
        ..cache
    };
    let by_hash = CacheView {
        subscribed_puzzle_hashes: cache.subscribed_puzzle_hashes.union(ids.to_set()),
        ..cache
    };
    super::cache::lemma_with_coins_keeps(by_coin, states);
    super::cache::lemma_with_coins_keeps(by_hash, states);
}

/// The states that answer a subscription stand in the cache, the last one of each coin and unless it
/// lies above the peak, as long as the subscriptions leave room for them.
pub proof fn law_a_subscription_is_answered_into_the_cache(
    cache: CacheView,
    ids: Seq<Bytes32>,
    states: Seq<CoinState>,
    i: int,
)
    requires
        cache.coins.dom().finite(),
        cache.subscribed_coins.finite(),
        cache.subscribed_puzzle_hashes.finite(),
        cache.coins.dom().len() + states.len() <= cache.subscribed_coins.len() + 10_000
            * cache.subscribed_puzzle_hashes.len(),
        cache.coins.dom().len() + states.len() <= usize::MAX,
        0 <= i < states.len(),
        forall|j: int|
            i < j < states.len() ==> (#[trigger] states[j]).coin.id() != states[i].coin.id(),
        cache.peak is None || states[i].created_height is None || states[i].created_height->0 <= (
        cache.peak->0).0,
    ensures
        with_coins_subscribed(cache, ids, states).coins.dom().contains(states[i].coin.id()),
        with_coins_subscribed(cache, ids, states).coins[states[i].coin.id()] == states[i],
        with_puzzle_hashes_subscribed(cache, ids, states).coins.dom().contains(
            states[i].coin.id(),
        ),
        with_puzzle_hashes_subscribed(cache, ids, states).coins[states[i].coin.id()] == states[i],
{
    let coins = cache.subscribed_coins.union(ids.to_set());
    let hashes = cache.subscribed_puzzle_hashes.union(ids.to_set());
    ids.lemma_cardinality_of_set();
    vstd::set_lib::lemma_len_subset(cache.subscribed_coins, coins);
    vstd::set_lib::lemma_len_subset(cache.subscribed_puzzle_hashes, hashes);
    let by_coin = CacheView { subscribed_coins: coins, ..cache };
    let by_hash = CacheView { subscribed_puzzle_hashes: hashes, ..cache };
    super::cache::law_a_seed_stands(by_coin, states, i, states[i].coin.id());
    super::cache::law_a_seed_stands(by_hash, states, i, states[i].coin.id());
}

/// A client describes itself as a local node exactly while it is pinned to a priority peer, and never
/// as trustless.
pub proof fn law_only_a_priority_anchor_is_a_local_node(client: ChiaLightClient, info: ProviderInfo)
    requires
        call_ensures(ChiaLightClient::provider_info, (&client,), info),
    ensures
        info.kind is LocalNode <==> client.fetcher@.anchor is Some && (
        client.fetcher@.anchor->0).origin is Priority,
        info.kind is LocalNode || info.kind is Custom,
        !info.trustless,
        info.id@ == "chia-query-light-client"@,
{
}

/// A submitted spend is accepted exactly if its acknowledgement has status one; a failure to submit
/// it is no outcome.
pub proof fn law_a_submitted_spend_is_told_by_its_acknowledgement(
    ack: Result<(u8, Option<String>), LightClientError>,
    outcome: Result<SubmitOutcome, LightClientError>,
)
    requires
        call_ensures(ChiaLightClient::submit_spend, (ack,), outcome),
    ensures
        outcome is Ok <==> ack is Ok,
        ack matches Ok((status, reason)) ==> (outcome->Ok_0 is Accepted <==> status == 1) && (
        outcome->Ok_0 is NotAdmitted <==> status == 2) && (outcome->Ok_0 is Failed <==> status == 3)
            && (status != 1 ==> outcome->Ok_0.stated() == reason),
        ack is Err ==> outcome->Err_0 == ack->Err_0,
{
}

/// A subscription that failed changes nothing; one that was answered is taken into the cache and
/// leaves the anchor alone.
pub proof fn law_a_failed_subscription_changes_nothing(
    client: &mut ChiaLightClient,
    ids: &[Bytes32],
    fetched: Result<Vec<CoinState>, LightClientError>,
    outcome: Result<(), LightClientError>,
    id: Bytes32,
)
    requires
        call_ensures(ChiaLightClient::subscribe_coins, (client, ids, fetched), outcome),
    ensures
        outcome is Ok <==> fetched is Ok,
        fetched is Err ==> outcome->Err_0 == fetched->Err_0 && final(client).cache@ == old(
            client,
        ).cache@,
        final(client).fetcher == old(client).fetcher,
        fetched is Ok ==> (final(client).cache@.subscribed_coins.contains(id) <==> old(
            client,
        ).cache@.subscribed_coins.contains(id) || ids@.contains(id)),
        final(client).cache@.peak == old(client).cache@.peak,
{
    if let Ok(states) = fetched {
        law_a_subscription_adds_what_was_asked_for(old(client).cache@, ids@, states@, id);
    }
}

/// Ending a subscription forgets exactly the coins it was ended for, and only once the peer has
/// agreed to it. What is known of the coins stays.
pub proof fn law_an_ended_subscription_is_forgotten(
    client: &mut ChiaLightClient,
    ids: &[Bytes32],
    removed: Result<(), LightClientError>,
    outcome: Result<(), LightClientError>,
    id: Bytes32,
)
    requires
        call_ensures(ChiaLightClient::unsubscribe_coins, (client, ids, removed), outcome),
    ensures
        outcome == removed,
        final(client).cache@.subscribed_coins.contains(id) <==> old(
            client,
        ).cache@.subscribed_coins.contains(id) && !(removed is Ok && ids@.contains(id)),
        final(client).cache@.coins == old(client).cache@.coins,
        final(client).cache@.peak == old(client).cache@.peak,
        final(client).cache@.subscribed_puzzle_hashes == old(
            client,
        ).cache@.subscribed_puzzle_hashes,
{
}

/// Everything that is followed is armed again: all the coins first where there are any, then all the
/// puzzle hashes. Only where nothing is left to arm does the client stop asking for it.
pub proof fn law_everything_followed_is_armed_again(
    client: &mut ChiaLightClient,
    rearm: Rearm,
    id: Bytes32,
)
    requires
        call_ensures(ChiaLightClient::reconnect, (client,), rearm),
    ensures
        ({
            let coins = old(client).cache@.subscribed_coins;
            let hashes = old(client).cache@.subscribed_puzzle_hashes;
            &&& coins.contains(id) ==> (rearm matches Rearm::Coins { coins, puzzle_hashes }
                && coins@.contains(id))
            &&& hashes.contains(id) ==> !(rearm is Done)
            &&& rearm matches Rearm::Coins { coins: listed, puzzle_hashes } ==> (listed@.contains(id)
                <==> coins.contains(id)) && (puzzle_hashes@.contains(id) <==> hashes.contains(id))
            &&& rearm matches Rearm::PuzzleHashes { puzzle_hashes } ==> (puzzle_hashes@.contains(id)
                <==> hashes.contains(id))
            &&& !(rearm is Done) ==> final(client).fetcher@.rearm_needed == old(
                client,
            ).fetcher@.rearm_needed
            &&& rearm is Done ==> !final(client).fetcher@.rearm_needed
            &&& final(client).fetcher@.anchor == old(client).fetcher@.anchor
            &&& final(client).cache == old(client).cache
        }),
{
    match rearm {
        Rearm::Coins { coins, puzzle_hashes } => {
            assert(coins@.to_set().contains(id) <==> coins@.contains(id));
            assert(puzzle_hashes@.to_set().contains(id) <==> puzzle_hashes@.contains(id));
        },
        Rearm::PuzzleHashes { puzzle_hashes } => {
            assert(puzzle_hashes@.to_set().contains(id) <==> puzzle_hashes@.contains(id));
        },
        Rearm::Done => {},
    }
}

/// Subscriptions are armed again for everything, spent or not, hinted or not and however small.
pub proof fn law_subscriptions_are_armed_for_everything(filters: CoinStateFilters)
    requires
        call_ensures(all_coin_states, (), filters),
    ensures
        filters.include_spent,
        filters.include_unspent,
        filters.include_hinted,
        filters.min_amount == 0,
{
}

/// Only once the puzzle hashes have been subscribed to again, or there are none, does the client stop
/// asking to be armed; a failure on the way leaves everything as it was.
pub proof fn law_a_client_is_armed_only_at_the_end(
    first: &mut ChiaLightClient,
    coins: &[Bytes32],
    hashes: Vec<Bytes32>,
    fetched: Result<Vec<CoinState>, LightClientError>,
    rearm: Result<Rearm, LightClientError>,
    second: &mut ChiaLightClient,
    outcome: Result<(), LightClientError>,
)
    requires
        call_ensures(ChiaLightClient::rearmed_coins, (first, coins, hashes, fetched), rearm),
        call_ensures(
            ChiaLightClient::rearmed_puzzle_hashes,
            (second, coins, fetched),
            outcome,
        ),
    ensures
        rearm is Ok <==> fetched is Ok,
        outcome is Ok <==> fetched is Ok,
        fetched is Err ==> final(first).cache@ == old(first).cache@ && final(first).fetcher@ == old(
            first,
        ).fetcher@ && final(second).cache@ == old(second).cache@ && final(second).fetcher@ == old(
            second,
        ).fetcher@,
        fetched is Ok && hashes@.len() > 0 ==> rearm->Ok_0 is PuzzleHashes
            && rearm->Ok_0->PuzzleHashes_puzzle_hashes == hashes && final(first).fetcher@ == old(
            first,
        ).fetcher@,
        fetched is Ok && hashes@.len() == 0 ==> rearm->Ok_0 is Done
            && !final(first).fetcher@.rearm_needed,
        fetched is Ok ==> !final(second).fetcher@.rearm_needed,
{
}

} // verus!
