//! The light client as a chain source.
//!
//! Reads are answered from the cache where it can, and from a read that arms no subscription where
//! it cannot. An absence is a peer's answer that there is none; a read that could not be made is an
//! error, and never an absence.

use vstd::prelude::*;

use crate::protocol::{Bytes32, Coin, CoinSpend, CoinState, CoinStateFilters};
use crate::peer::puzzle::{program_hash, tree_hash};

use super::cache::CoinStateCache;
use super::client::ProviderInfo;
use super::error::{ChainSourceError, LightClientError, ReportView};
use super::fetcher::CoinStateFetcher;

verus! {

/// A coin as a chain source reports it.
#[derive(Clone, Copy, Debug, PartialEq, Eq)]
pub struct CoinRecord {
    pub coin: Coin,
    pub confirmed_height: Option<u32>,
    pub spent_height: Option<u32>,
    pub timestamp: Option<u64>,
    pub coinbase: bool,
}

/// The lower of two heights.
pub open spec fn lower(height: u32, peak: u32) -> u32 {
    if height < peak {
        height
    } else {
        peak
    }
}

/// `height` where it is known, and no higher than `peak` where that is known.
pub open spec fn clamped(height: Option<u32>, peak: Option<u32>) -> Option<u32> {
    match (height, peak) {
        (Some(h), Some(p)) => Some(lower(h, p)),
        _ => height,
    }
}

/// How a coin's state is reported under `peak`.
pub open spec fn reported(state: CoinState, peak: Option<u32>) -> CoinRecord {
    CoinRecord {
        coin: state.coin,
        confirmed_height: clamped(state.created_height, peak),
        spent_height: clamped(state.spent_height, peak),
        timestamp: None,
        coinbase: false,
    }
}

/// How coin states are reported under `peak`, in order.
pub open spec fn all_reported(states: Seq<CoinState>, peak: Option<u32>) -> Seq<CoinRecord> {
    states.map_values(|s: CoinState| reported(s, peak))
}

impl CoinRecord {
    /// The record of a state: no timestamp, and not known to be a reward.
    pub fn from_coin_state(state: CoinState) -> (record: Self)
        ensures
            record == reported(state, None),
    {
        CoinRecord {
            coin: state.coin,
            confirmed_height: state.created_height,
            spent_height: state.spent_height,
            timestamp: None,
            coinbase: false,
        }
    }

    /// Whether the coin is spent.
    pub fn is_spent(&self) -> (spent: bool)
        ensures
            spent == (self.spent_height is Some),
    {
        self.spent_height.is_some()
    }
}

fn clamp(height: Option<u32>, peak: u32) -> (bounded: Option<u32>)
    ensures
        bounded == clamped(height, Some(peak)),
{
    match height {
        Some(h) => if h < peak {
            Some(h)
        } else {
            Some(peak)
        },
        None => None,
    }
}

/// Bounds a record's heights by the peak, if one is known.
///
/// A coin of the newest block can be read before its peak is announced. Reported as it is, it
/// would lie above the peak and its depth would wrap around. A coin that is spent stays spent.
pub fn clamp_record_heights_to_peak(record: CoinRecord, peak: Option<u32>) -> (bounded: CoinRecord)
    ensures
        bounded == (CoinRecord {
            confirmed_height: clamped(record.confirmed_height, peak),
            spent_height: clamped(record.spent_height, peak),
            ..record
        }),
{
    match peak {
        Some(peak) => CoinRecord {
            coin: record.coin,
            confirmed_height: clamp(record.confirmed_height, peak),
            spent_height: clamp(record.spent_height, peak),
            timestamp: record.timestamp,
            coinbase: record.coinbase,
        },
        None => record,
    }
}

/// The state among `states` that is of the coin `coin_id`: the first.
pub open spec fn state_of(states: Seq<CoinState>, coin_id: Bytes32) -> Option<CoinState>
    decreases states.len(),
{
    if states.len() == 0 {
        None
    } else if states[0].coin.id() == coin_id {
        Some(states[0])
    } else {
        state_of(states.drop_first(), coin_id)
    }
}

/// What an answer to a question for `coin_id` comes to. A peer that answers about another coin has
/// said nothing of this one.
pub open spec fn state_answer(
    fetched: Result<Vec<CoinState>, LightClientError>,
    coin_id: Bytes32,
) -> Result<Option<CoinState>, ReportView> {
    match fetched {
        Ok(states) => Ok(state_of(states@, coin_id)),
        Err(e) => Err(e.report()),
    }
}

/// Takes an answer to a question for `coin_id`.
pub fn take_state(fetched: Result<Vec<CoinState>, LightClientError>, coin_id: Bytes32) -> (state:
    Result<Option<CoinState>, ChainSourceError>)
    ensures
        match state {
            Ok(s) => state_answer(fetched, coin_id) == Ok::<Option<CoinState>, ReportView>(s),
            Err(e) => state_answer(fetched, coin_id) == Err::<Option<CoinState>, ReportView>(e@),
        },
{
    let states = match fetched {
        Ok(states) => states,
        Err(e) => return Err(e.into_chain_source_error()),
    };
    let mut i: usize = 0;
    assert(states@.skip(0) =~= states@);
    while i < states.len()
        invariant
            i <= states.len(),
            state_answer(fetched, coin_id) == Ok::<Option<CoinState>, ReportView>(
                state_of(states@.skip(i as int), coin_id),
            ),
        decreases states.len() - i,
    {
        assert(states@.skip(i as int)[0] == states@[i as int]);
        let id = states[i].coin.coin_id();
        if id == coin_id {
            return Ok(Some(states[i]));
        }
        assert(states@.skip(i as int).drop_first() =~= states@.skip(i + 1));
        i = i + 1;
    }
    Ok(None)
}

/// Takes an answer to a question for several coins, reported under `peak`.
pub fn take_records(fetched: Result<Vec<CoinState>, LightClientError>, peak: Option<u32>) -> (
    records: Result<Vec<CoinRecord>, ChainSourceError>)
    ensures
        match (records, fetched) {
            (Ok(r), Ok(states)) => r@ == all_reported(states@, peak),
            (Err(e), Err(failure)) => e@ == failure.report(),
            _ => false,
        },
{
    let states = match fetched {
        Ok(states) => states,
        Err(e) => return Err(e.into_chain_source_error()),
    };
    let mut records: Vec<CoinRecord> = Vec::new();
    let mut i: usize = 0;
    while i < states.len()
        invariant
            i <= states.len(),
            records@ == all_reported(states@.take(i as int), peak),
        decreases states.len() - i,
    {
        let record = clamp_record_heights_to_peak(CoinRecord::from_coin_state(states[i]), peak);
        assert(all_reported(states@.take(i + 1), peak) =~= all_reported(
            states@.take(i as int),
            peak,
        ).push(record));
        records.push(record);
        i = i + 1;
    }
    assert(states@.take(i as int) =~= states@);
    Ok(records)
}

/// Whether a program hashing to `actual` can be the puzzle of a coin locked with `expected`.
pub open spec fn reveal_matches(
    actual: Result<Seq<u8>, Seq<char>>,
    expected: Seq<u8>,
) -> Result<(), ReportView> {
    match actual {
        Err(e) => Err(ReportView::Malformed("undecodable puzzle reveal: "@ + e)),
        Ok(hash) => if hash == expected {
            Ok(())
        } else {
            Err(ReportView::Malformed("puzzle reveal does not hash to the coin's puzzle hash"@))
        },
    }
}

/// Judges a reveal by its tree hash.
pub fn match_reveal(actual: Result<Bytes32, String>, expected: Bytes32) -> (outcome: Result<
    (),
    ChainSourceError,
>)
    ensures
        ({
            let hash = match actual {
                Ok(h) => Ok::<Seq<u8>, Seq<char>>(h@),
                Err(e) => Err::<Seq<u8>, Seq<char>>(e@),
            };
            match outcome {
                Ok(()) => reveal_matches(hash, expected@) == Ok::<(), ReportView>(()),
                Err(e) => reveal_matches(hash, expected@) == Err::<(), ReportView>(e@),
            }
        }),
{
    match actual {
        Err(e) => Err(
            ChainSourceError::Malformed(
                String::from_str("undecodable puzzle reveal: ").concat(e.as_str()),
            ),
        ),
        Ok(hash) => if hash == expected {
            Ok(())
        } else {
            proof {
                if hash@ == expected@ {
                    crate::protocol::lemma_bytes32_ext(hash, expected);
                }
            }
            Err(
                ChainSourceError::Malformed(
                    String::from_str("puzzle reveal does not hash to the coin's puzzle hash"),
                ),
            )
        },
    }
}

/// Refutes a reveal that does not hash to the coin's puzzle hash.
pub fn verify_reveal_matches(puzzle: &[u8], expected: Bytes32) -> (outcome: Result<
    (),
    ChainSourceError,
>)
    ensures
        match outcome {
            Ok(()) => reveal_matches(program_hash(puzzle@), expected@) == Ok::<(), ReportView>(()),
            Err(e) => reveal_matches(program_hash(puzzle@), expected@) == Err::<(), ReportView>(
                e@,
            ),
        },
{
    let actual = tree_hash(puzzle);
    match_reveal(actual, expected)
}

/// What an answer to a question for the spend of `coin` comes to.
pub open spec fn spend_answer(
    coin: Coin,
    fetched: Result<(Vec<u8>, Vec<u8>), LightClientError>,
) -> Result<(Coin, Seq<u8>, Seq<u8>), ReportView> {
    match fetched {
        Err(e) => Err(e.report()),
        Ok(parts) => match reveal_matches(program_hash(parts.0@), coin.puzzle_hash@) {
            Err(e) => Err(e),
            Ok(()) => Ok((coin, parts.0@, parts.1@)),
        },
    }
}

/// Takes an answer to a question for the spend of `coin`. The spend is of the genuine coin, and its
/// reveal is checked.
pub fn take_spend(coin: Coin, fetched: Result<(Vec<u8>, Vec<u8>), LightClientError>) -> (spend:
    Result<CoinSpend, ChainSourceError>)
    ensures
        match spend {
            Ok(s) => spend_answer(coin, fetched) == Ok::<(Coin, Seq<u8>, Seq<u8>), ReportView>(
                (s.coin, s.puzzle_reveal@, s.solution@),
            ),
            Err(e) => spend_answer(coin, fetched) == Err::<(Coin, Seq<u8>, Seq<u8>), ReportView>(
                e@,
            ),
        },
{
    let (puzzle_reveal, solution) = match fetched {
        Ok(parts) => parts,
        Err(e) => return Err(e.into_chain_source_error()),
    };
    match verify_reveal_matches(puzzle_reveal.as_slice(), coin.puzzle_hash) {
        Ok(()) => Ok(CoinSpend { coin, puzzle_reveal, solution }),
        Err(e) => Err(e),
    }
}

/// A chain source over a light client's cache and the reads behind it.
pub struct LightClientProvider<F> {
    pub fetcher: F,
    pub info: ProviderInfo,
}

impl<F: CoinStateFetcher> LightClientProvider<F> {
    /// A provider that reads through `fetcher` and describes itself by `info`.
    pub fn new(fetcher: F, info: ProviderInfo) -> (provider: Self)
        ensures
            provider.fetcher == fetcher,
            provider.info == info,
    {
        LightClientProvider { fetcher, info }
    }

    /// How the provider describes itself.
    pub fn provider_info(&self) -> (info: ProviderInfo)
        ensures
            info == self.info,
    {
        self.info
    }

    /// What the provider can be told of a coin: from the cache, or else by asking for it alone and
    /// without subscribing.
    pub open spec fn knows(
        &self,
        cache: CoinStateCache,
        coin_id: Bytes32,
        answer: Result<Option<CoinState>, ReportView>,
    ) -> bool {
        if cache@.coins.dom().contains(coin_id) {
            answer == Ok::<Option<CoinState>, ReportView>(Some(cache@.coins[coin_id]))
        } else {
            exists|ids: Vec<Bytes32>, fetched: Result<Vec<CoinState>, LightClientError>|
                ids@ == seq![coin_id] && #[trigger] call_ensures(
                    F::coin_states,
                    (&self.fetcher, ids, false),
                    fetched,
                ) && answer == state_answer(fetched, coin_id)
        }
    }

    /// The state of a coin.
    pub fn coin_state(&self, cache: &CoinStateCache, coin_id: Bytes32) -> (state: Result<
        Option<CoinState>,
        ChainSourceError,
    >)
        requires
            cache.wf(),
        ensures
            match state {
                Ok(s) => self.knows(*cache, coin_id, Ok(s)),
                Err(e) => self.knows(*cache, coin_id, Err(e@)),
            },
    {
        if let Some(cached) = cache.get(coin_id) {
            return Ok(Some(cached));
        }
        let mut ids: Vec<Bytes32> = Vec::new();
        ids.push(coin_id);
        let ghost asked = ids;
        assert(asked@ =~= seq![coin_id]);
        let fetched = self.fetcher.coin_states(ids, false);
        assert(call_ensures(F::coin_states, (&self.fetcher, asked, false), fetched));
        take_state(fetched, coin_id)
    }

    /// The peak of the followed session.
    pub fn peak_height(&self, cache: &CoinStateCache) -> (peak: Option<u32>)
        ensures
            peak == (match cache@.peak {
                Some(peak) => Some(peak.0),
                None => None,
            }),
    {
        match cache.peak() {
            Some((height, _)) => Some(height),
            None => None,
        }
    }

    /// The record of a coin, with no height above the peak.
    pub fn coin_record(&self, cache: &CoinStateCache, coin_id: Bytes32) -> (record: Result<
        Option<CoinRecord>,
        ChainSourceError,
    >)
        requires
            cache.wf(),
        ensures
            match record {
                Ok(Some(r)) => exists|state: CoinState|
                    #![trigger reported(state, None)]
                    self.knows(*cache, coin_id, Ok(Some(state))) && r == reported(
                        state,
                        match cache@.peak {
                            Some(peak) => Some(peak.0),
                            None => None,
                        },
                    ),
                Ok(None) => self.knows(*cache, coin_id, Ok(None)),
                Err(e) => self.knows(*cache, coin_id, Err(e@)),
            },
    {
        let peak = self.peak_height(cache);
        match self.coin_state(cache, coin_id) {
            Ok(Some(state)) => {
                let record = CoinRecord::from_coin_state(state);
                assert(record == reported(state, None));
                Ok(Some(clamp_record_heights_to_peak(record, peak)))
            },
            Ok(None) => Ok(None),
            Err(e) => Err(e),
        }
    }

    /// Whether `fetched` can be what came back when every coin at a puzzle hash was asked for, alone
    /// and without subscribing.
    pub open spec fn finds_at(
        &self,
        puzzle_hash: Bytes32,
        include_spent: bool,
        fetched: Result<Vec<CoinState>, LightClientError>,
    ) -> bool {
        exists|hashes: Vec<Bytes32>|
            hashes@ == seq![puzzle_hash] && #[trigger] call_ensures(
                F::puzzle_states,
                (
                    &self.fetcher,
                    hashes,
                    CoinStateFilters {
                        include_spent,
                        include_unspent: true,
                        include_hinted: true,
                        min_amount: 0,
                    },
                    false,
                ),
                fetched,
            )
    }

    /// Asks for every coin at a puzzle hash. What comes back is for [`take_records`], under the peak
    /// there is by then.
    pub fn states_at_puzzle_hash(&self, puzzle_hash: Bytes32, include_spent: bool) -> (fetched:
        Result<Vec<CoinState>, LightClientError>)
        ensures
            self.finds_at(puzzle_hash, include_spent, fetched),
    {
        let filters = CoinStateFilters {
            include_spent,
            include_unspent: true,
            include_hinted: true,
            min_amount: 0,
        };
        let mut hashes: Vec<Bytes32> = Vec::new();
        hashes.push(puzzle_hash);
        let ghost asked = hashes;
        assert(asked@ =~= seq![puzzle_hash]);
        let fetched = self.fetcher.puzzle_states(hashes, filters, false);
        assert(call_ensures(F::puzzle_states, (&self.fetcher, asked, filters, false), fetched));
        fetched
    }

    /// Asks for a coin's children. What comes back is for [`take_records`], under the peak there is
    /// by then.
    pub fn child_states(&self, parent_coin_id: Bytes32) -> (fetched: Result<
        Vec<CoinState>,
        LightClientError,
    >)
        ensures
            call_ensures(F::children, (&self.fetcher, parent_coin_id), fetched),
    {
        self.fetcher.children(parent_coin_id)
    }

    /// The records of every coin at a puzzle hash, with no height above the peak.
    pub fn coin_records_by_puzzle_hash(
        &self,
        cache: &CoinStateCache,
        puzzle_hash: Bytes32,
        include_spent: bool,
    ) -> (records: Result<Vec<CoinRecord>, ChainSourceError>)
        ensures
            exists|fetched: Result<Vec<CoinState>, LightClientError>|
                #[trigger] self.finds_at(puzzle_hash, include_spent, fetched) && match (
                    records,
                    fetched,
                ) {
                    (Ok(r), Ok(states)) => r@ == all_reported(
                        states@,
                        match cache@.peak {
                            Some(peak) => Some(peak.0),
                            None => None,
                        },
                    ),
                    (Err(e), Err(failure)) => e@ == failure.report(),
                    _ => false,
                },
    {
        let fetched = self.states_at_puzzle_hash(puzzle_hash, include_spent);
        let peak = self.peak_height(cache);
        take_records(fetched, peak)
    }

    /// The records of a coin's children, with no height above the peak.
    pub fn coin_records_by_parent(&self, cache: &CoinStateCache, parent_coin_id: Bytes32) -> (
        records: Result<Vec<CoinRecord>, ChainSourceError>)
        ensures
            exists|fetched: Result<Vec<CoinState>, LightClientError>|
                #[trigger] call_ensures(F::children, (&self.fetcher, parent_coin_id), fetched)
                    && match (records, fetched) {
                    (Ok(r), Ok(states)) => r@ == all_reported(
                        states@,
                        match cache@.peak {
                            Some(peak) => Some(peak.0),
                            None => None,
                        },
                    ),
                    (Err(e), Err(failure)) => e@ == failure.report(),
                    _ => false,
                },
    {
        let fetched = self.child_states(parent_coin_id);
        let peak = self.peak_height(cache);
        take_records(fetched, peak)
    }

    /// Whether `spend` is what the provider can tell of a coin's spend, given what is `known` of the
    /// coin: none of one that is unknown or unspent, and of any other what came back when its spend
    /// was asked for.
    pub open spec fn tells_spend(
        &self,
        coin_id: Bytes32,
        known: Result<Option<CoinState>, ReportView>,
        spend: Result<Option<CoinSpend>, ChainSourceError>,
    ) -> bool {
        match known {
            Err(failure) => spend matches Err(e) && e@ == failure,
            Ok(None) => spend matches Ok(None),
            Ok(Some(state)) => match state.spent_height {
                None => spend matches Ok(None),
                Some(height) => exists|fetched: Result<(Vec<u8>, Vec<u8>), LightClientError>|
                    #[trigger] call_ensures(
                        F::puzzle_and_solution,
                        (&self.fetcher, coin_id, height),
                        fetched,
                    ) && match spend {
                        Ok(Some(s)) => spend_answer(state.coin, fetched) == Ok::<
                            (Coin, Seq<u8>, Seq<u8>),
                            ReportView,
                        >((s.coin, s.puzzle_reveal@, s.solution@)),
                        Ok(None) => false,
                        Err(e) => spend_answer(state.coin, fetched) == Err::<
                            (Coin, Seq<u8>, Seq<u8>),
                            ReportView,
                        >(e@),
                    },
            },
        }
    }

    /// The spend of a coin: none of a coin that is unknown or unspent, and of any other the spend
    /// of the genuine coin with its reveal checked.
    pub fn coin_spend(&self, cache: &CoinStateCache, coin_id: Bytes32) -> (spend: Result<
        Option<CoinSpend>,
        ChainSourceError,
    >)
        requires
            cache.wf(),
        ensures
            exists|known: Result<Option<CoinState>, ReportView>| #[trigger]
                self.knows(*cache, coin_id, known) && self.tells_spend(coin_id, known, spend),
    {
        let state = match self.coin_state(cache, coin_id) {
            Ok(Some(state)) => state,
            Ok(None) => {
                assert(self.knows(*cache, coin_id, Ok(None)));
                return Ok(None);
            },
            Err(e) => {
                assert(self.knows(*cache, coin_id, Err(e@)));
                return Err(e);
            },
        };
        assert(self.knows(*cache, coin_id, Ok(Some(state))));
        let height: u32 = match state.spent_height {
            Some(height) => height,
            None => return Ok(None),
        };
        let fetched = self.fetcher.puzzle_and_solution(coin_id, height);
        assert(call_ensures(F::puzzle_and_solution, (&self.fetcher, coin_id, height), fetched));
        match take_spend(state.coin, fetched) {
            Ok(spend) => Ok(Some(spend)),
            Err(e) => Err(e),
        }
    }

    /// Not provided: a partial lineage would be worse than none.
    pub fn resolve_singleton_lineage(&self, _launcher_id: Bytes32) -> (error: ChainSourceError)
        ensures
            error@ == ReportView::Unsupported(
                "singleton lineage resolution is not provided by the light-client source; use an aggregating chain source"@,
            ),
    {
        ChainSourceError::Unsupported(
            "singleton lineage resolution is not provided by the light-client source; use an aggregating chain source",
        )
    }

    /// Not provided: a light client keeps no timestamps.
    pub fn block_timestamp(&self, _height: u32) -> (error: ChainSourceError)
        ensures
            error@ == ReportView::Unsupported(
                "block timestamps are not indexed by the light-client source"@,
            ),
    {
        ChainSourceError::Unsupported(
            "block timestamps are not indexed by the light-client source",
        )
    }
}

/// The state among several that is taken to be of a coin is of that coin.
proof fn lemma_state_is_of_its_coin(states: Seq<CoinState>, coin_id: Bytes32)
    ensures
        state_of(states, coin_id) matches Some(state) ==> state.coin.id() == coin_id,
    decreases states.len(),
{
    if states.len() > 0 && states[0].coin.id() != coin_id {
        lemma_state_is_of_its_coin(states.drop_first(), coin_id);
    }
}

/// What the provider knows of a coin, from the cache or from a peer, is the state of that coin.
pub proof fn law_known_state_is_of_the_coin_asked_for<F: CoinStateFetcher>(
    provider: LightClientProvider<F>,
    cache: CoinStateCache,
    coin_id: Bytes32,
    known: Result<Option<CoinState>, ReportView>,
)
    requires
        cache.wf(),
        provider.knows(cache, coin_id, known),
    ensures
        known matches Ok(Some(state)) ==> state.coin.id() == coin_id,
{
    if cache@.coins.dom().contains(coin_id) {
        cache.law_each_state_stands_under_its_own_id();
    } else {
        let (ids, fetched) = choose|
            ids: Vec<Bytes32>,
            fetched: Result<Vec<CoinState>, LightClientError>,
        |
            ids@ == seq![coin_id] && #[trigger] call_ensures(
                F::coin_states,
                (&provider.fetcher, ids, false),
                fetched,
            ) && known == state_answer(fetched, coin_id);
        if let Ok(states) = fetched {
            lemma_state_is_of_its_coin(states@, coin_id);
        }
    }
}

/// A spend that is told is of the coin that was asked for, and its puzzle is the one the coin was
/// locked with. That there is none is told exactly of a coin that is unknown or unspent, so a coin
/// that is spent has its spend told or an error, and never an absence.
pub proof fn law_told_spend_is_of_the_coin_asked_for<F: CoinStateFetcher>(
    provider: LightClientProvider<F>,
    cache: CoinStateCache,
    coin_id: Bytes32,
    known: Result<Option<CoinState>, ReportView>,
    spend: Result<Option<CoinSpend>, ChainSourceError>,
)
    requires
        cache.wf(),
        provider.knows(cache, coin_id, known),
        provider.tells_spend(coin_id, known, spend),
    ensures
        spend matches Ok(Some(told)) ==> told.coin.id() == coin_id && program_hash(
            told.puzzle_reveal@,
        ) == Ok::<Seq<u8>, Seq<char>>(told.coin.puzzle_hash@),
        spend matches Ok(None) <==> (known == Ok::<Option<CoinState>, ReportView>(None) || (
        known is Ok && known->Ok_0 is Some && (known->Ok_0->0).spent_height is None)),
{
    law_known_state_is_of_the_coin_asked_for(provider, cache, coin_id, known);
}

/// A reported height never lies above a known peak, so a depth counted from the peak cannot wrap;
/// and a coin is reported spent exactly when it is.
pub proof fn law_reported_heights_lie_below_the_peak(state: CoinState, peak: u32)
    ensures
        reported(state, Some(peak)).confirmed_height matches Some(height) ==> height <= peak,
        reported(state, Some(peak)).spent_height matches Some(height) ==> height <= peak,
        reported(state, Some(peak)).spent_height is Some <==> state.spent_height is Some,
        reported(state, Some(peak)).confirmed_height is Some <==> state.created_height is Some,
{
}

/// A coin that lies at or below the peak is reported as it is.
pub proof fn law_settled_coin_is_reported_as_it_is(state: CoinState, peak: u32)
    requires
        state.created_height matches Some(height) ==> height <= peak,
        state.spent_height matches Some(height) ==> height <= peak,
    ensures
        reported(state, Some(peak)) == reported(state, None),
{
}

/// A peer that does not send a spend, or sends a puzzle that the coin was not locked with, leaves an
/// error: its own, or that the answer is malformed.
pub proof fn law_spend_that_cannot_be_told_is_an_error(
    coin: Coin,
    fetched: Result<(Vec<u8>, Vec<u8>), LightClientError>,
)
    ensures
        fetched matches Err(e) ==> spend_answer(coin, fetched) == Err::<
            (Coin, Seq<u8>, Seq<u8>),
            ReportView,
        >(e.report()),
        fetched matches Ok(parts) ==> program_hash(parts.0@) != Ok::<Seq<u8>, Seq<char>>(
            coin.puzzle_hash@,
        ) ==> spend_answer(coin, fetched) is Err && spend_answer(coin, fetched)->Err_0 is Malformed,
{
}

/// A spend that is answered is of the coin that was asked for, and its puzzle is the one the coin
/// was locked with.
pub proof fn law_answered_spend_unlocks_its_coin(
    coin: Coin,
    fetched: Result<(Vec<u8>, Vec<u8>), LightClientError>,
)
    requires
        spend_answer(coin, fetched) is Ok,
    ensures
        (spend_answer(coin, fetched)->Ok_0).0 == coin,
        program_hash((spend_answer(coin, fetched)->Ok_0).1) == Ok::<Seq<u8>, Seq<char>>(
            coin.puzzle_hash@,
        ),
{
}

/// Each record tells its own coin, at the heights of its state or at the peak where those lie above
/// it. Without a peak the heights are told as they are.
pub proof fn law_every_state_is_reported(states: Seq<CoinState>, peak: Option<u32>, i: int)
    requires
        0 <= i < states.len(),
    ensures
        all_reported(states, peak).len() == states.len(),
        ({
            let record = all_reported(states, peak)[i];
            let state = states[i];
            let bounded = |height: Option<u32>|
                match height {
                    Some(h) => Some(
                        if peak is Some && h > peak->0 {
                            peak->0
                        } else {
                            h
                        },
                    ),
                    None => None::<u32>,
                };
            &&& record.coin == state.coin
            &&& record.confirmed_height == bounded(state.created_height)
            &&& record.spent_height == bounded(state.spent_height)
            &&& record.timestamp is None
            &&& !record.coinbase
        }),
{
}

/// Of what a peer sends, the first state that is of the coin asked for is taken, and no state of
/// another coin. A read that failed is an error, and never an absence.
pub proof fn law_the_first_state_of_the_coin_is_taken(
    states: Vec<CoinState>,
    failure: LightClientError,
    coin_id: Bytes32,
    i: int,
)
    ensures
        0 <= i < states@.len() && states@[i].coin.id() == coin_id && (forall|k: int|
            0 <= k < i ==> (#[trigger] states@[k]).coin.id() != coin_id) ==> state_answer(
            Ok(states),
            coin_id,
        ) == Ok::<Option<CoinState>, ReportView>(Some(states@[i])),
        (forall|k: int| 0 <= k < states@.len() ==> (#[trigger] states@[k]).coin.id() != coin_id)
            ==> state_answer(Ok(states), coin_id) == Ok::<Option<CoinState>, ReportView>(None),
        state_answer(Err(failure), coin_id) is Err,
{
    lemma_first_state(states@, coin_id, i);
}

proof fn lemma_first_state(states: Seq<CoinState>, coin_id: Bytes32, i: int)
    ensures
        0 <= i < states.len() && states[i].coin.id() == coin_id && (forall|k: int|
            0 <= k < i ==> (#[trigger] states[k]).coin.id() != coin_id) ==> state_of(
            states,
            coin_id,
        ) == Some(states[i]),
        (forall|k: int| 0 <= k < states.len() ==> (#[trigger] states[k]).coin.id() != coin_id)
            ==> state_of(states, coin_id) is None,
    decreases states.len(),
{
    if states.len() > 0 {
        let tail = states.drop_first();
        lemma_first_state(tail, coin_id, i - 1);
        if forall|k: int| 0 <= k < states.len() ==> (#[trigger] states[k]).coin.id() != coin_id {
            assert forall|k: int| 0 <= k < tail.len() implies (#[trigger] tail[k]).coin.id()
                != coin_id by {
                assert(tail[k] == states[k + 1]);
            }
            assert(states[0].coin.id() != coin_id);
        }
        if 0 < i < states.len() && states[i].coin.id() == coin_id && (forall|k: int|
            0 <= k < i ==> (#[trigger] states[k]).coin.id() != coin_id) {
            assert(states[0].coin.id() != coin_id);
            assert(tail[i - 1] == states[i]);
            assert forall|k: int| 0 <= k < i - 1 implies (#[trigger] tail[k]).coin.id()
                != coin_id by {
                assert(tail[k] == states[k + 1]);
            }
        }
    }
}

/// A spend whose puzzle is the one the coin was locked with is told, and as it was sent.
pub proof fn law_a_genuine_spend_is_told(coin: Coin, parts: (Vec<u8>, Vec<u8>))
    requires
        program_hash(parts.0@) == Ok::<Seq<u8>, Seq<char>>(coin.puzzle_hash@),
    ensures
        spend_answer(coin, Ok(parts)) is Ok,
        (spend_answer(coin, Ok(parts))->Ok_0).0 == coin,
        (spend_answer(coin, Ok(parts))->Ok_0).1 == parts.0@,
        (spend_answer(coin, Ok(parts))->Ok_0).2 == parts.1@,
{
}

/// A coin that is cached is told from the cache, whatever a peer would say of it.
pub proof fn law_a_cached_coin_is_told_from_the_cache<F: CoinStateFetcher>(
    provider: LightClientProvider<F>,
    cache: CoinStateCache,
    coin_id: Bytes32,
    known: Result<Option<CoinState>, ReportView>,
)
    requires
        cache@.coins.dom().contains(coin_id),
        provider.knows(cache, coin_id, known),
    ensures
        known is Ok,
        known->Ok_0 == Some(cache@.coins[coin_id]),
{
}

/// The coins at a puzzle hash are asked for at that one puzzle hash, the unspent ones and the hinted
/// ones among them however small, the spent ones exactly if they are wanted, and without subscribing.
pub proof fn law_every_coin_at_a_puzzle_hash_is_asked_for<F: CoinStateFetcher>(
    provider: &LightClientProvider<F>,
    puzzle_hash: Bytes32,
    include_spent: bool,
    fetched: Result<Vec<CoinState>, LightClientError>,
)
    requires
        call_ensures(
            LightClientProvider::<F>::states_at_puzzle_hash,
            (provider, puzzle_hash, include_spent),
            fetched,
        ),
    ensures
        exists|hashes: Vec<Bytes32>, filters: CoinStateFilters| #[trigger]
            call_ensures(F::puzzle_states, (&provider.fetcher, hashes, filters, false), fetched)
                && hashes@.len() == 1 && hashes@[0] == puzzle_hash && filters.include_spent
                == include_spent && filters.include_unspent && filters.include_hinted
                && filters.min_amount == 0,
{
}

/// A coin in the cache is told from it, whatever a peer would say: its state as it stands there, its
/// record with no height above the peak, and no spend while it is unspent.
pub proof fn law_reads_of_a_cached_coin_come_from_the_cache<F: CoinStateFetcher>(
    provider: &LightClientProvider<F>,
    cache: &CoinStateCache,
    coin_id: Bytes32,
    state: Result<Option<CoinState>, ChainSourceError>,
    record: Result<Option<CoinRecord>, ChainSourceError>,
    spend: Result<Option<CoinSpend>, ChainSourceError>,
)
    requires
        cache.wf(),
        cache@.coins.dom().contains(coin_id),
        call_ensures(LightClientProvider::<F>::coin_state, (provider, cache, coin_id), state),
        call_ensures(LightClientProvider::<F>::coin_record, (provider, cache, coin_id), record),
        call_ensures(LightClientProvider::<F>::coin_spend, (provider, cache, coin_id), spend),
    ensures
        ({
            let cached = cache@.coins[coin_id];
            &&& state is Ok && state->Ok_0 == Some(cached)
            &&& record is Ok && record->Ok_0 is Some && (record->Ok_0->0).coin == cached.coin
            &&& cache@.peak is None ==> (record->Ok_0->0).spent_height == cached.spent_height
                && (record->Ok_0->0).confirmed_height == cached.created_height
            &&& cache@.peak matches Some(peak) ==> ((record->Ok_0->0).spent_height matches Some(
                height,
            ) ==> height <= peak.0)
            &&& cached.spent_height is None ==> spend is Ok && spend->Ok_0 is None
            &&& cached.spent_height is Some && spend is Ok ==> spend->Ok_0 is Some && (
            spend->Ok_0->0).coin == cached.coin
        }),
{
}

/// A coin that is not in the cache is asked for alone and without subscribing. A peer that fails
/// leaves an error, and one that sends only other coins leaves none.
pub proof fn law_a_coin_that_is_not_cached_is_asked_for<F: CoinStateFetcher>(
    provider: &LightClientProvider<F>,
    cache: &CoinStateCache,
    coin_id: Bytes32,
    state: Result<Option<CoinState>, ChainSourceError>,
)
    requires
        cache.wf(),
        !cache@.coins.dom().contains(coin_id),
        call_ensures(LightClientProvider::<F>::coin_state, (provider, cache, coin_id), state),
    ensures
        exists|ids: Vec<Bytes32>, fetched: Result<Vec<CoinState>, LightClientError>| #[trigger]
            call_ensures(F::coin_states, (&provider.fetcher, ids, false), fetched) && ids@.len()
                == 1 && ids@[0] == coin_id && (state is Ok <==> fetched is Ok) && (
            state matches Ok(Some(told)) ==> told.coin.id() == coin_id && fetched->Ok_0@.contains(
                told,
            )),
{
    let known = match state {
        Ok(s) => Ok::<Option<CoinState>, ReportView>(s),
        Err(e) => Err::<Option<CoinState>, ReportView>(e@),
    };
    assert(provider.knows(*cache, coin_id, known));
    let (ids, fetched) = choose|
        ids: Vec<Bytes32>,
        fetched: Result<Vec<CoinState>, LightClientError>,
    |
        ids@ == seq![coin_id] && #[trigger] call_ensures(
            F::coin_states,
            (&provider.fetcher, ids, false),
            fetched,
        ) && known == state_answer(fetched, coin_id);
    if let Ok(states) = fetched {
        lemma_state_is_of_its_coin(states@, coin_id);
        lemma_state_stands_among_them(states@, coin_id);
    }
}

proof fn lemma_state_stands_among_them(states: Seq<CoinState>, coin_id: Bytes32)
    ensures
        state_of(states, coin_id) matches Some(state) ==> states.contains(state),
    decreases states.len(),
{
    if states.len() > 0 {
        assert(states.contains(states[0]));
        if states[0].coin.id() != coin_id {
            let rest = states.drop_first();
            lemma_state_stands_among_them(rest, coin_id);
            if let Some(state) = state_of(rest, coin_id) {
                let j = choose|j: int| 0 <= j < rest.len() && rest[j] == state;
                assert(states[j + 1] == state);
            }
        }
    }
}

} // verus!
