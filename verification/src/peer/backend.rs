//! The peers a client reads from, and what each read makes of their answers.
//!
//! A read asks one peer, in turn. An answer that fails costs that peer its place. Answers about
//! the chain are put to every independent peer as well, and graded by [`super::corroboration`].

use vstd::prelude::*;

use crate::address::SocketAddr;
use crate::claim::ChainClaim;
use crate::hexadecimal::{hex32, hex_of, parse_bytes32, read_bytes32};
use crate::protocol::{Bytes32, Coin, CoinState, PuzzleSolution};
use crate::types::{
    records_view, texts_view, AdditionsAndRemovals, BlockRecord, ChiaQueryError, CoinRecord,
    CoinSpend, CoinSpendWithConditions, ErrorView, NetworkInfo, RecordView, TxStatus,
};
use crate::NetworkType;

use super::block::{
    block_additions_and_removals, block_spends, block_spends_with_conditions, conditioned_answer,
    effects_answer, spends_answer, FullBlock,
};
use super::connect::PeerOrigin;
use super::corroboration::{
    corroborate_absence, corroborate_presence, corroborate_set, grade_of, graded_absence,
    graded_presence, graded_set, hear, heard, law_graded_set_is_held_by_all,
    law_heard_voices_speak_for_others, says, sent_a_set, set_voices_view, silent,
    silent_addresses, silent_set_addresses, silent_sets, speakers, voices_view, OptAnswer,
    SetGrade, SetVoice, Speaker, Voice, VoiceView, WordView,
};
use super::frames::{FanoutView, FrameSource, FrameSubscription};
use super::peaks::lower_median;
use super::pool::{
    addresses_of, announced, corroborates, is_discovered, is_subscribing, readiness_for,
    CorroborationReadiness, PeerEntry, PeerPool, PoolView,
};
use super::reads::{
    additions_and_removals, block_record, coin_read, coin_record, is_due_spend, is_listing,
    leads_to, receive, received, take, taken, Reply, Response, SolutionRead,
};
use super::set_agreement::{claims_of, normalised, HeightedSet, SetAnswer, SetProjection};
use super::translate::{ack_to_tx_status, is_status_of};
use super::walk::{ids_view, parse_ids, read_ids};

verus! {

/// The digits of a network's genesis challenge.
pub open spec fn genesis_digits(network: NetworkType) -> Seq<char> {
    match network {
        NetworkType::Mainnet =>
            "ccd5bb71183532bff220ba46c268991a3ff07eb358e8255a65c30a2dce0e5fbb"@,
        NetworkType::Testnet11 =>
            "37a90eb5185a9c4439a91ddc98bbadce7b4feba060d50116a067de66bf236615"@,
    }
}

/// Reads `genesis_challenge` of `chia_wallet_sdk::types::MAINNET_CONSTANTS` or
/// `TESTNET11_CONSTANTS`, each a constant of its own.
#[verifier::external_body]
pub(crate) fn genesis(network: NetworkType) -> (challenge: Bytes32)
    ensures
        hex_of(challenge@) == genesis_digits(network),
{
    let challenge = match network {
        NetworkType::Mainnet => chia_wallet_sdk::types::MAINNET_CONSTANTS.genesis_challenge,
        NetworkType::Testnet11 => chia_wallet_sdk::types::TESTNET11_CONSTANTS.genesis_challenge,
    };
    Bytes32 { bytes: challenge.to_bytes() }
}

/// Reads `agg_sig_me_additional_data` of `chia_wallet_sdk::types::MAINNET_CONSTANTS` or
/// `TESTNET11_CONSTANTS`, which is the network's genesis challenge.
#[verifier::external_body]
fn agg_sig_me(network: NetworkType) -> (data: Bytes32)
    ensures
        hex_of(data@) == genesis_digits(network),
{
    let data = match network {
        NetworkType::Mainnet => chia_wallet_sdk::types::MAINNET_CONSTANTS.agg_sig_me_additional_data,
        NetworkType::Testnet11 =>
            chia_wallet_sdk::types::TESTNET11_CONSTANTS.agg_sig_me_additional_data,
    };
    Bytes32 { bytes: data.to_bytes() }
}

/// A question on its way: the peer it is put to first, and how well the answer can be corroborated.
#[derive(Clone, Copy)]
pub struct Question {
    pub asked: SocketAddr,
    pub readiness: CorroborationReadiness,
}

/// A question that its first peer has answered, and the independent peers to put it to.
pub struct Round<T> {
    pub first: T,
    pub readiness: CorroborationReadiness,
    pub others: Vec<SocketAddr>,
}

/// The peers, and the network they are peers of.
pub struct PeerBackend<C> {
    pub pool: PeerPool<C>,
    pub network: NetworkType,
}

impl<C> PeerBackend<C> {
    /// A backend that holds at most `max_peers` peers, and none yet.
    pub fn new(network: NetworkType, max_peers: usize) -> (backend: Self)
        ensures
            backend.network == network,
            backend.pool@.wf(),
            backend.pool@.entries == Seq::<PeerEntry<C>>::empty(),
            backend.pool@.next_idx == 0,
            backend.pool@.max_peers == max_peers,
            backend.pool@.fanout == (FanoutView {
                live: Seq::empty(),
                followers: Seq::empty(),
                next_session: 0,
                next_follower: 0,
            }),
            backend.pool@.dead == Seq::<FrameSource>::empty(),
    {
        PeerBackend { pool: PeerPool::new(max_peers), network }
    }

    /// The header a walk from the beginning of the chain goes on from.
    pub fn genesis_challenge(&self) -> (challenge: Bytes32)
        ensures
            hex_of(challenge@) == genesis_digits(self.network),
    {
        genesis(self.network)
    }

    /// Whether any peer is held.
    pub fn has_peers(&self) -> (held: bool)
        ensures
            held == (self.pool@.entries.len() > 0),
    {
        self.pool.has_peers()
    }

    /// How many peers are held.
    pub fn peer_count(&self) -> (count: usize)
        ensures
            count == self.pool@.entries.len(),
    {
        self.pool.peer_count()
    }

    /// How many peers held are independent opinions.
    pub fn independent_peer_count(&self) -> (count: usize)
        ensures
            count == self.pool@.entries.filter(is_discovered()).len(),
    {
        self.pool.independent_peer_count()
    }

    /// Whether an answer of the peer at `asked` can be corroborated at all.
    pub fn corroboration_readiness(&self, asked: SocketAddr) -> (readiness: CorroborationReadiness)
        ensures
            readiness == readiness_for(self.pool@.entries, asked),
    {
        self.pool.corroboration_readiness(asked)
    }

    /// The peak the peers are at, or zero before any has announced one.
    pub fn peak_height(&self) -> (peak: u32)
        ensures
            peak == (match lower_median(announced(self.pool@.entries)) {
                Some(p) => p,
                None => 0,
            }),
    {
        self.pool.peak_height()
    }

    /// Follows the session held at `address`, with room for `capacity` unread frames. None where
    /// no running session is held there.
    pub fn subscribe_frames(&mut self, address: SocketAddr, capacity: usize) -> (subscription:
        Option<FrameSubscription>)
        requires
            old(self).pool@.wf(),
        ensures
            final(self).pool@.wf(),
            final(self).network == old(self).network,
            is_subscribing(
                old(self).pool@,
                address,
                capacity,
                final(self).pool@,
                subscription,
            ),
    {
        self.pool.subscribe_frames(address, capacity)
    }

    /// The name, the address prefix and the genesis challenge of the network.
    pub fn network_info(&self) -> (info: NetworkInfo)
        ensures
            info.network_name@ == self.network.spec_network_id(),
            info.network_prefix@ == (match self.network {
                NetworkType::Mainnet => "xch"@,
                NetworkType::Testnet11 => "txch"@,
            }),
            info.genesis_challenge@ == "0x"@ + genesis_digits(self.network),
    {
        let challenge = genesis(self.network);
        NetworkInfo {
            network_name: String::from_str(self.network.network_id()),
            network_prefix: match self.network {
                NetworkType::Mainnet => String::from_str("xch"),
                NetworkType::Testnet11 => String::from_str("txch"),
            },
            genesis_challenge: hex32(&challenge),
        }
    }

    /// What signatures over a coin's own id are made over besides it.
    pub fn aggsig_additional_data(&self) -> (data: String)
        ensures
            data@ == "0x"@ + genesis_digits(self.network),
    {
        let data = agg_sig_me(self.network);
        hex32(&data)
    }

    /// Picks the peer to ask, each in its turn. The pool is to be maintained first.
    pub fn pick(&mut self) -> (picked: Result<SocketAddr, ChiaQueryError>)
        requires
            old(self).pool@.wf(),
        ensures
            final(self).pool@.wf(),
            final(self).pool@ == old(self).pool@.turned(),
            final(self).network == old(self).network,
            match picked {
                Ok(address) => old(self).pool@.entries.len() > 0 && address
                    == old(self).pool@.in_turn(),
                Err(e) => old(self).pool@.entries.len() == 0 && e@ == ErrorView::PeerConnection(
                    "no peers available"@,
                ),
            },
    {
        match self.pool.select_peer() {
            Some(address) => Ok(address),
            None => Err(ChiaQueryError::PeerConnection(String::from_str("no peers available"))),
        }
    }

    /// Drops the peer at `address` if what it was asked for failed.
    pub fn keep_or_eject<T>(
        &mut self,
        address: SocketAddr,
        outcome: Result<T, ChiaQueryError>,
    ) -> (same: Result<T, ChiaQueryError>)
        requires
            old(self).pool@.wf(),
        ensures
            same == outcome,
            final(self).pool@.wf(),
            final(self).network == old(self).network,
            final(self).pool@ == (if outcome is Err {
                old(self).pool@.without(address)
            } else {
                old(self).pool@
            }),
    {
        if outcome.is_err() {
            self.pool.eject_peer(address);
        }
        outcome
    }

    /// Drops the peers at `addresses`.
    pub fn eject_all(&mut self, addresses: &[SocketAddr])
        requires
            old(self).pool@.wf(),
        ensures
            final(self).pool@.wf(),
            final(self).network == old(self).network,
            final(self).pool@ == old(self).pool@.without_all(addresses@),
    {
        let mut i: usize = 0;
        while i < addresses.len()
            invariant
                i <= addresses.len(),
                self.pool@.wf(),
                self.network == old(self).network,
                self.pool@ == old(self).pool@.without_all(addresses@.take(i as int)),
            decreases addresses.len() - i,
        {
            self.pool.eject_peer(addresses[i]);
            assert(addresses@.take(i + 1).drop_last() =~= addresses@.take(i as int));
            i = i + 1;
        }
        assert(addresses@.take(i as int) =~= addresses@);
    }

    /// Reads the id to ask the peer at `address` for. One that does not read fails like any other
    /// read.
    pub fn requested_id(&mut self, address: SocketAddr, text: &str) -> (id: Result<
        Bytes32,
        ChiaQueryError,
    >)
        requires
            old(self).pool@.wf(),
        ensures
            final(self).pool@.wf(),
            final(self).network == old(self).network,
            match id {
                Ok(i) => read_bytes32(text@) == Ok::<Seq<u8>, ErrorView>(i@) && final(self).pool@
                    == old(self).pool@,
                Err(e) => read_bytes32(text@) == Err::<Seq<u8>, ErrorView>(e@) && final(self).pool@
                    == old(self).pool@.without(address),
            },
    {
        self.keep_or_eject(address, parse_bytes32(text))
    }

    /// Reads the ids to ask the peer at `address` for.
    pub fn requested_ids(&mut self, address: SocketAddr, texts: &[String]) -> (ids: Result<
        Vec<Bytes32>,
        ChiaQueryError,
    >)
        requires
            old(self).pool@.wf(),
        ensures
            final(self).pool@.wf(),
            final(self).network == old(self).network,
            match ids {
                Ok(i) => read_ids(texts_view(texts@)) == Ok::<
                    Seq<Seq<u8>>,
                    ErrorView,
                >(ids_view(i@)) && final(self).pool@ == old(self).pool@,
                Err(e) => read_ids(texts_view(texts@)) == Err::<
                    Seq<Seq<u8>>,
                    ErrorView,
                >(e@) && final(self).pool@ == old(self).pool@.without(address),
            },
    {
        self.keep_or_eject(address, parse_ids(texts))
    }

    /// Puts a question to the peer in turn. How well its answer can be corroborated is settled
    /// now: a peer that arrives in the middle of a question must not arm a pool that was not armed
    /// when it was asked.
    pub fn put(&mut self) -> (question: Result<Question, ChiaQueryError>)
        requires
            old(self).pool@.wf(),
        ensures
            final(self).pool@.wf(),
            final(self).pool@ == old(self).pool@.turned(),
            final(self).network == old(self).network,
            match question {
                Ok(q) => {
                    &&& old(self).pool@.entries.len() > 0
                    &&& q.asked == old(self).pool@.in_turn()
                    &&& q.readiness == readiness_for(old(self).pool@.entries, q.asked)
                },
                Err(e) => old(self).pool@.entries.len() == 0 && e@ == ErrorView::PeerConnection(
                    "no peers available"@,
                ),
            },
    {
        match self.pick() {
            Ok(asked) => Ok(Question { asked, readiness: self.pool.corroboration_readiness(asked) }),
            Err(e) => Err(e),
        }
    }

    /// Takes the first answer to a question about a set, and tells whom else to put it to. A peer
    /// that failed it is dropped.
    pub fn open_set_round<T>(&mut self, question: Question, first: Result<T, ChiaQueryError>) -> (
        round: Result<Round<T>, ChiaQueryError>)
        requires
            old(self).pool@.wf(),
        ensures
            final(self).pool@.wf(),
            final(self).network == old(self).network,
            match (round, first) {
                (Ok(r), Ok(answer)) => {
                    &&& r.first == answer
                    &&& r.readiness == question.readiness
                    &&& r.others@ == addresses_of(
                        old(self).pool@.entries.filter(corroborates(question.asked)),
                    )
                    &&& final(self).pool@ == old(self).pool@
                },
                (Err(e), Err(failure)) => e == failure && final(self).pool@ == old(
                    self,
                ).pool@.without(question.asked),
                _ => false,
            },
    {
        match self.keep_or_eject(question.asked, first) {
            Ok(first) => {
                let others = self.pool.select_corroborating_peers(question.asked);
                Ok(Round { first, readiness: question.readiness, others })
            },
            Err(e) => Err(e),
        }
    }

    /// Takes the first answer to a question about one thing, and tells whom else to put it to. How
    /// well the answer can be corroborated is settled with it. A peer that failed it is dropped.
    pub fn open_round<T>(&mut self, asked: SocketAddr, first: Result<T, ChiaQueryError>) -> (round:
        Result<Round<T>, ChiaQueryError>)
        requires
            old(self).pool@.wf(),
        ensures
            final(self).pool@.wf(),
            final(self).network == old(self).network,
            match (round, first) {
                (Ok(r), Ok(answer)) => {
                    &&& r.first == answer
                    &&& r.readiness == readiness_for(old(self).pool@.entries, asked)
                    &&& r.others@ == addresses_of(
                        old(self).pool@.entries.filter(corroborates(asked)),
                    )
                    &&& final(self).pool@ == old(self).pool@
                },
                (Err(e), Err(failure)) => e == failure && final(self).pool@ == old(
                    self,
                ).pool@.without(asked),
                _ => false,
            },
    {
        let readiness = self.pool.corroboration_readiness(asked);
        self.open_set_round(Question { asked, readiness }, first)
    }

    /// Grades what the peer `asked` reports of a thing that may be absent, and drops the peers
    /// that did not answer. Only the peers that the question was put to are heard, and each once.
    pub fn read_opt_corroborated<T: ChainClaim>(
        &mut self,
        asked: &str,
        round: Round<Option<T>>,
        voices: Vec<Voice>,
    ) -> (answer: Result<OptAnswer<T>, ChiaQueryError>)
        requires
            old(self).pool@.wf(),
        ensures
            final(self).pool@.wf(),
            final(self).network == old(self).network,
            final(self).pool@ == old(self).pool@.without_all(
                silent_addresses(voices_view(heard(round.others@, voices@))),
            ),
            ({
                let graded = graded_opt(
                    round.first,
                    asked@,
                    round.readiness,
                    voices_view(heard(round.others@, voices@)),
                );
                match answer {
                    Ok(a) => graded == Ok::<OptAnswer<T>, ErrorView>(a),
                    Err(e) => graded == Err::<OptAnswer<T>, ErrorView>(e@),
                }
            }),
    {
        let voices = hear(round.others.as_slice(), voices);
        let failed = silent(voices.as_slice());
        self.eject_all(failed.as_slice());
        match round.first {
            Some(found) => corroborate_presence(found, asked, round.readiness, voices.as_slice()),
            None => corroborate_absence(asked, round.readiness, voices.as_slice()),
        }
    }

    /// Grades the set that the peer `asked` sent, and drops the peers that sent none. Only the
    /// peers that the question was put to are heard, and each once.
    pub fn read_set_corroborated(
        &mut self,
        asked: &str,
        round: Round<HeightedSet<CoinRecord>>,
        voices: Vec<SetVoice>,
        projection: SetProjection,
    ) -> (answer: Result<SetAnswer<CoinRecord>, ChiaQueryError>)
        requires
            old(self).pool@.wf(),
        ensures
            final(self).pool@.wf(),
            final(self).network == old(self).network,
            final(self).pool@ == old(self).pool@.without_all(
                silent_set_addresses(set_voices_view(heard(round.others@, voices@))),
            ),
            ({
                let graded = graded_set(
                    asked@,
                    round.readiness,
                    records_view(round.first.items@),
                    round.first.as_of_height,
                    set_voices_view(heard(round.others@, voices@)),
                    projection,
                );
                match answer {
                    Ok(a) => graded == Ok::<SetGrade, ErrorView>(grade_of(a)),
                    Err(e) => graded == Err::<SetGrade, ErrorView>(e@),
                }
            }),
    {
        let voices = hear(round.others.as_slice(), voices);
        let failed = silent_sets(voices.as_slice());
        self.eject_all(failed.as_slice());
        corroborate_set(asked, round.readiness, round.first, voices.as_slice(), projection)
    }

    /// A coin, on one peer's word.
    pub fn try_get_coin_record_by_name(
        &mut self,
        address: SocketAddr,
        reply: Reply<Vec<CoinState>>,
    ) -> (record: Result<CoinRecord, ChiaQueryError>)
        requires
            old(self).pool@.wf(),
        ensures
            final(self).pool@.wf(),
            final(self).network == old(self).network,
            match record {
                Ok(r) => coin_read(reply) == Ok::<Option<RecordView>, ErrorView>(Some(r@))
                    && final(self).pool@ == old(self).pool@,
                Err(e) => final(self).pool@ == old(self).pool@.without(address) && e@ == (
                match coin_read(reply) {
                    Ok(_) => ErrorView::PeerRejection("coin not found"@),
                    Err(failure) => failure,
                }) && !(coin_read(reply) matches Ok(Some(_))),
            },
    {
        self.keep_or_eject(address, coin_record(reply))
    }

    /// A block record, on one peer's word.
    pub fn try_get_block_record_by_height(
        &mut self,
        address: SocketAddr,
        reply: Reply<BlockRecord>,
    ) -> (record: Result<BlockRecord, ChiaQueryError>)
        requires
            old(self).pool@.wf(),
        ensures
            final(self).pool@.wf(),
            final(self).network == old(self).network,
            ({
                let read = taken(reply, "request timed out"@, "header request rejected"@);
                match record {
                    Ok(r) => read == Ok::<BlockRecord, ErrorView>(r) && final(self).pool@ == old(
                        self,
                    ).pool@,
                    Err(e) => read == Err::<BlockRecord, ErrorView>(e@) && final(self).pool@ == old(
                        self,
                    ).pool@.without(address),
                }
            }),
    {
        self.keep_or_eject(address, block_record(reply))
    }

    /// What became of a pushed transaction, on one peer's word. A write is not corroborated: there
    /// is no fact yet for a second peer to agree with.
    pub fn try_push_tx(
        &mut self,
        address: SocketAddr,
        response: Response<(u8, Option<String>)>,
    ) -> (status: Result<TxStatus, ChiaQueryError>)
        requires
            old(self).pool@.wf(),
        ensures
            final(self).pool@.wf(),
            final(self).network == old(self).network,
            match (status, received(response)) {
                (Ok(s), Ok(ack)) => is_status_of(s, ack.0, ack.1) && final(self).pool@ == old(
                    self,
                ).pool@,
                (Err(e), Err(failure)) => e@ == failure && final(self).pool@ == old(
                    self,
                ).pool@.without(address),
                _ => false,
            },
    {
        let status = match receive(response) {
            Ok((status, error)) => Ok(ack_to_tx_status(status, error)),
            Err(e) => Err(e),
        };
        self.keep_or_eject(address, status)
    }

    /// What a block added and removed, as one peer lists it.
    pub fn try_get_additions_and_removals(
        &mut self,
        address: SocketAddr,
        additions: Reply<Vec<(Bytes32, Vec<Coin>)>>,
        removals: Reply<Vec<(Bytes32, Option<Coin>)>>,
        height: u32,
    ) -> (response: Result<AdditionsAndRemovals, ChiaQueryError>)
        requires
            old(self).pool@.wf(),
        ensures
            final(self).pool@.wf(),
            final(self).network == old(self).network,
            is_listing(additions, removals, height, response),
            final(self).pool@ == (if response is Err {
                old(self).pool@.without(address)
            } else {
                old(self).pool@
            }),
    {
        self.keep_or_eject(address, additions_and_removals(additions, removals, height))
    }

    /// Takes what the peer at `address` says of a coin, and tells what to ask it for the coin's
    /// spend. A peer that does not say that the coin is spent is dropped.
    pub fn try_get_puzzle_and_solution_auto(
        &mut self,
        address: SocketAddr,
        id: Bytes32,
        coin_id: &str,
        reply: Reply<Vec<CoinState>>,
    ) -> (read: Result<SolutionRead, ChiaQueryError>)
        requires
            old(self).pool@.wf(),
        ensures
            final(self).pool@.wf(),
            final(self).network == old(self).network,
            leads_to(id, coin_id@, reply, read),
            final(self).pool@ == (if read is Err {
                old(self).pool@.without(address)
            } else {
                old(self).pool@
            }),
    {
        self.keep_or_eject(address, SolutionRead::start(id, coin_id, reply))
    }

    /// Takes the spend that the peer at `address` sends of a coin it says is spent. A peer that
    /// does not send it, or sends it wrongly, is dropped.
    pub fn finish_puzzle_and_solution_auto(
        &mut self,
        address: SocketAddr,
        read: SolutionRead,
        reply: Reply<PuzzleSolution>,
    ) -> (spend: Result<CoinSpend, ChiaQueryError>)
        requires
            old(self).pool@.wf(),
        ensures
            final(self).pool@.wf(),
            final(self).network == old(self).network,
            is_due_spend(read, reply, spend),
            final(self).pool@ == (if spend is Err {
                old(self).pool@.without(address)
            } else {
                old(self).pool@
            }),
    {
        self.keep_or_eject(address, read.finish_due(reply))
    }

    /// What a block added and removed, read from the block itself.
    pub fn try_get_additions_and_removals_from_block(
        &mut self,
        address: SocketAddr,
        height: u32,
        reply: Reply<FullBlock>,
    ) -> (response: Result<AdditionsAndRemovals, ChiaQueryError>)
        requires
            old(self).pool@.wf(),
        ensures
            final(self).pool@.wf(),
            final(self).network == old(self).network,
            match fetched(reply) {
                Ok(block) => effects_answer(block, height, old(self).network, response),
                Err(failure) => response is Err && response->Err_0@ == failure,
            },
            final(self).pool@ == (if response is Err {
                old(self).pool@.without(address)
            } else {
                old(self).pool@
            }),
    {
        let response = match fetch_full_block(reply) {
            Ok(block) => block_additions_and_removals(&block, height, self.network),
            Err(e) => Err(e),
        };
        self.keep_or_eject(address, response)
    }

    /// The spends of a block, read from the block itself.
    pub fn try_get_block_spends_by_height(
        &mut self,
        address: SocketAddr,
        reply: Reply<FullBlock>,
    ) -> (spends: Result<Vec<CoinSpend>, ChiaQueryError>)
        requires
            old(self).pool@.wf(),
            reply matches Reply::Answered(block) ==> block.fits_the_wire(),
        ensures
            final(self).pool@.wf(),
            final(self).network == old(self).network,
            match fetched(reply) {
                Ok(block) => spends_answer(block, old(self).network, spends),
                Err(failure) => spends is Err && spends->Err_0@ == failure,
            },
            final(self).pool@ == (if spends is Err {
                old(self).pool@.without(address)
            } else {
                old(self).pool@
            }),
    {
        let spends = match fetch_full_block(reply) {
            Ok(block) => block_spends(&block, self.network),
            Err(e) => Err(e),
        };
        self.keep_or_eject(address, spends)
    }

    /// The spends of a block with their conditions, read from the block itself.
    pub fn try_get_block_spends_with_conditions(
        &mut self,
        address: SocketAddr,
        reply: Reply<FullBlock>,
    ) -> (spends: Result<Vec<CoinSpendWithConditions>, ChiaQueryError>)
        requires
            old(self).pool@.wf(),
            reply matches Reply::Answered(block) ==> block.fits_the_wire(),
        ensures
            final(self).pool@.wf(),
            final(self).network == old(self).network,
            match fetched(reply) {
                Ok(block) => conditioned_answer(block, old(self).network, spends),
                Err(failure) => spends is Err && spends->Err_0@ == failure,
            },
            final(self).pool@ == (if spends is Err {
                old(self).pool@.without(address)
            } else {
                old(self).pool@
            }),
    {
        let spends = match fetch_full_block(reply) {
            Ok(block) => block_spends_with_conditions(&block, self.network),
            Err(e) => Err(e),
        };
        self.keep_or_eject(address, spends)
    }
}

/// How what a peer reports of a thing that may be absent is graded by `voices`.
pub open spec fn graded_opt<T: ChainClaim>(
    first: Option<T>,
    asked: Seq<char>,
    readiness: CorroborationReadiness,
    voices: Seq<VoiceView>,
) -> Result<OptAnswer<T>, ErrorView> {
    match first {
        Some(found) => graded_presence(found, asked, found.claim(), readiness, voices),
        None => graded_absence::<T>(asked, readiness, voices),
    }
}

/// What is said by a peer that reports `first`.
pub open spec fn word_for<T: ChainClaim>(first: Option<T>) -> WordView {
    match first {
        Some(found) => WordView::Present(found.claim()),
        None => WordView::Absent,
    }
}

/// Whether a peer is an independent opinion on an answer of the peer at `asked`: discovered, and
/// held elsewhere.
pub open spec fn is_independent<C>(entry: PeerEntry<C>, asked: SocketAddr) -> bool {
    entry.origin == PeerOrigin::Discovered && entry.address != asked
}

/// Whether one of `voices` is of the peer `entry`, and says `word`.
pub open spec fn has_said<C>(entry: PeerEntry<C>, voices: Seq<Voice>, word: WordView) -> bool {
    exists|k: int|
        0 <= k < voices.len() && (#[trigger] voices[k]).address == entry.address && voices[k]@.word
            == word
}

/// Whether two different peers, both independent of the peer at `asked`, have said `word`.
pub open spec fn two_said<C>(
    entries: Seq<PeerEntry<C>>,
    asked: SocketAddr,
    voices: Seq<Voice>,
    word: WordView,
) -> bool {
    exists|i: int, j: int|
        #![trigger entries[i], entries[j]]
        0 <= i < entries.len() && 0 <= j < entries.len() && entries[i].address
            != entries[j].address && is_independent(entries[i], asked) && is_independent(
            entries[j],
            asked,
        ) && has_said(entries[i], voices, word) && has_said(entries[j], voices, word)
}

/// Whether one of `voices` is of the peer `entry`, and its set claims at `height` what `items`
/// claim there.
pub open spec fn holds_the_same<C>(
    entry: PeerEntry<C>,
    voices: Seq<SetVoice>,
    items: Seq<RecordView>,
    height: u32,
) -> bool {
    exists|k: int|
        0 <= k < voices.len() && (#[trigger] voices[k]).address == entry.address
            && voices[k].set is Some && claims_of(
            normalised(records_view((voices[k].set->0).items@), height),
        ).to_set() == claims_of(normalised(items, height)).to_set()
}

/// Whether two different peers, both independent of the peer at `asked`, hold at `height` the set
/// that `items` are there.
pub open spec fn two_hold_the_same<C>(
    entries: Seq<PeerEntry<C>>,
    asked: SocketAddr,
    voices: Seq<SetVoice>,
    items: Seq<RecordView>,
    height: u32,
) -> bool {
    exists|i: int, j: int|
        #![trigger entries[i], entries[j]]
        0 <= i < entries.len() && 0 <= j < entries.len() && entries[i].address
            != entries[j].address && is_independent(entries[i], asked) && is_independent(
            entries[j],
            asked,
        ) && holds_the_same(entries[i], voices, items, height) && holds_the_same(
            entries[j],
            voices,
            items,
            height,
        )
}

/// Where a filter keeps two items, two places hold such an item.
proof fn lemma_two_are_kept<A>(s: Seq<A>, keep: spec_fn(A) -> bool) -> (places: (int, int))
    requires
        s.filter(keep).len() >= 2,
    ensures
        0 <= places.0 < places.1 < s.len(),
        keep(s[places.0]),
        keep(s[places.1]),
    decreases s.len(),
{
    reveal(Seq::filter);
    let init = s.drop_last();
    assert(s =~= init.push(s.last()));
    init.lemma_filter_push(s.last(), keep);
    if init.filter(keep).len() >= 2 {
        lemma_two_are_kept(init, keep)
    } else {
        let kept = init.filter(keep);
        assert(kept.contains(kept[0]));
        init.lemma_filter_contains_rev(keep, kept[0]);
        init.lemma_filter_pred(keep, 0);
        let i = choose|i: int| 0 <= i < init.len() && init[i] == kept[0];
        (i, s.len() - 1)
    }
}

/// A voice that counts is of a peer of the pool that is independent of the one that was asked.
proof fn lemma_heard_is_independent<C, V: Speaker>(
    pool: PoolView<C>,
    asked: SocketAddr,
    others: Seq<SocketAddr>,
    voices: Seq<V>,
    at: int,
) -> (i: int)
    requires
        others == addresses_of(pool.entries.filter(corroborates(asked))),
        0 <= at < heard(others, voices).len(),
    ensures
        0 <= i < pool.entries.len(),
        pool.entries[i].address == heard(others, voices)[at].speaker(),
        is_independent(pool.entries[i], asked),
{
    law_heard_voices_speak_for_others(others, voices);
    let address = heard(others, voices)[at].speaker();
    let independent = pool.entries.filter(corroborates(asked));
    let k = choose|k: int| 0 <= k < others.len() && others[k] == address;
    assert(independent[k].address == address);
    pool.entries.lemma_filter_pred(corroborates(asked), k);
    assert(independent.contains(independent[k]));
    pool.entries.lemma_filter_contains_rev(corroborates(asked), independent[k]);
    choose|i: int| 0 <= i < pool.entries.len() && pool.entries[i] == independent[k]
}

/// An answer is reported as established among the peers, be it a presence or an absence, only if
/// two different peers of the pool said the same as the peer that was asked: both discovered, and
/// neither of them that peer.
pub proof fn law_established_answer_rests_on_two_independent_peers<C, T: ChainClaim>(
    pool: PoolView<C>,
    asked: SocketAddr,
    others: Seq<SocketAddr>,
    first: Option<T>,
    name: Seq<char>,
    readiness: CorroborationReadiness,
    voices: Seq<Voice>,
)
    requires
        others == addresses_of(pool.entries.filter(corroborates(asked))),
    ensures
        graded_opt(first, name, readiness, voices_view(heard(others, voices))) matches Ok(answer)
            ==> (answer is Found || answer is CorroboratedAbsent) ==> two_said(
            pool.entries,
            asked,
            voices,
            word_for(first),
        ),
{
    let kept = heard(others, voices);
    let graded = graded_opt(first, name, readiness, voices_view(kept));
    let word = word_for(first);
    if graded is Ok && (graded->Ok_0 is Found || graded->Ok_0 is CorroboratedAbsent) {
        let (a, b) = lemma_two_are_kept(voices_view(kept), says(word));
        law_heard_voices_speak_for_others(others, voices);
        let i = lemma_heard_is_independent(pool, asked, others, voices, a);
        let j = lemma_heard_is_independent(pool, asked, others, voices, b);
        assert(speakers(kept)[a] != speakers(kept)[b]);
        assert(voices.contains(kept[a]) && voices.contains(kept[b]));
        let k = choose|k: int| 0 <= k < voices.len() && voices[k] == kept[a];
        let l = choose|l: int| 0 <= l < voices.len() && voices[l] == kept[b];
        assert(voices[k].address == pool.entries[i].address && voices[k]@.word == word);
        assert(voices[l].address == pool.entries[j].address && voices[l]@.word == word);
        assert(has_said(pool.entries[i], voices, word));
        assert(has_said(pool.entries[j], voices, word));
    }
}

/// A set is reported as established among the peers only if two different peers of the pool hold
/// the same as the peer that was asked, at the height it is reported at: both discovered, and
/// neither of them that peer.
pub proof fn law_established_set_rests_on_two_independent_peers<C>(
    pool: PoolView<C>,
    asked: SocketAddr,
    others: Seq<SocketAddr>,
    items: Seq<RecordView>,
    as_of_height: u32,
    name: Seq<char>,
    readiness: CorroborationReadiness,
    voices: Seq<SetVoice>,
    projection: SetProjection,
)
    requires
        others == addresses_of(pool.entries.filter(corroborates(asked))),
    ensures
        graded_set(
            name,
            readiness,
            items,
            as_of_height,
            set_voices_view(heard(others, voices)),
            projection,
        ) matches Ok(grade) ==> grade.corroborated ==> two_hold_the_same(
            pool.entries,
            asked,
            voices,
            items,
            grade.as_of_height,
        ),
{
    let kept = heard(others, voices);
    let views = set_voices_view(kept);
    let graded = graded_set(name, readiness, items, as_of_height, views, projection);
    if graded is Ok && graded->Ok_0.corroborated {
        let height = graded->Ok_0.as_of_height;
        let (a, b) = lemma_two_are_kept(views, sent_a_set());
        law_graded_set_is_held_by_all(
            name,
            readiness,
            items,
            as_of_height,
            views,
            projection,
            a,
        );
        law_graded_set_is_held_by_all(
            name,
            readiness,
            items,
            as_of_height,
            views,
            projection,
            b,
        );
        law_heard_voices_speak_for_others(others, voices);
        let i = lemma_heard_is_independent(pool, asked, others, voices, a);
        let j = lemma_heard_is_independent(pool, asked, others, voices, b);
        assert(speakers(kept)[a] != speakers(kept)[b]);
        assert(voices.contains(kept[a]) && voices.contains(kept[b]));
        let k = choose|k: int| 0 <= k < voices.len() && voices[k] == kept[a];
        let l = choose|l: int| 0 <= l < voices.len() && voices[l] == kept[b];
        assert(views[a] == kept[a]@ && views[b] == kept[b]@);
        assert(voices[k].address == pool.entries[i].address);
        assert(voices[l].address == pool.entries[j].address);
        assert(holds_the_same(pool.entries[i], voices, items, height));
        assert(holds_the_same(pool.entries[j], voices, items, height));
    }
}

/// A block, as a result.
pub open spec fn fetched(reply: Reply<FullBlock>) -> Result<FullBlock, ErrorView> {
    taken(reply, "block request timed out"@, "block request rejected"@)
}

/// A block, as a result.
fn fetch_full_block(reply: Reply<FullBlock>) -> (block: Result<FullBlock, ChiaQueryError>)
    ensures
        match block {
            Ok(b) => fetched(reply) == Ok::<FullBlock, ErrorView>(b),
            Err(e) => fetched(reply) == Err::<FullBlock, ErrorView>(e@),
        },
{
    take(reply, "block request timed out", "block request rejected")
}

/// Two different peers of the pool, both discovered and neither of them the one that was asked,
/// establish an answer by saying the same, as long as no peer that was asked besides contradicts
/// it. Peers that did not answer change nothing.
pub proof fn law_two_independent_peers_establish_an_answer<C, T: ChainClaim>(
    pool: PoolView<C>,
    asked: SocketAddr,
    others: Seq<SocketAddr>,
    first: Option<T>,
    name: Seq<char>,
    voices: Seq<Voice>,
)
    requires
        pool.entries.len() <= usize::MAX,
        others == addresses_of(pool.entries.filter(corroborates(asked))),
        forall|k: int, l: int|
            0 <= k < l < voices.len() ==> (#[trigger] voices[k]).address != (
            #[trigger] voices[l]).address,
        forall|k: int|
            0 <= k < voices.len() ==> (#[trigger] voices[k]).word@ is Failed || voices[k].word@
                == word_for(first),
        two_said(pool.entries, asked, voices, word_for(first)),
    ensures
        graded_opt(
            first,
            name,
            readiness_for(pool.entries, asked),
            voices_view(heard(others, voices)),
        ) == Ok::<OptAnswer<T>, ErrorView>(
            match first {
                Some(found) => OptAnswer::Found(found),
                None => OptAnswer::CorroboratedAbsent,
            },
        ),
{
    let entries = pool.entries;
    let word = word_for(first);
    let (i, j) = choose|i: int, j: int|
        #![trigger entries[i], entries[j]]
        0 <= i < entries.len() && 0 <= j < entries.len() && entries[i].address
            != entries[j].address && is_independent(entries[i], asked) && is_independent(
            entries[j],
            asked,
        ) && has_said(entries[i], voices, word) && has_said(entries[j], voices, word);
    super::pool::law_two_independent_peers_arm_the_pool(entries, asked);
    if i < j {
        assert(entries[i].address != asked && entries[j].address != asked);
    } else {
        assert(entries[j].address != asked && entries[i].address != asked);
    }
    let kept = heard(others, voices);
    let views = voices_view(kept);
    let k = choose|k: int|
        0 <= k < voices.len() && (#[trigger] voices[k]).address == entries[i].address
            && voices[k]@.word == word;
    let l = choose|l: int|
        0 <= l < voices.len() && (#[trigger] voices[l]).address == entries[j].address
            && voices[l]@.word == word;
    lemma_asked_peers_are_heard(pool, asked, others, voices, i, k);
    lemma_asked_peers_are_heard(pool, asked, others, voices, j, l);
    law_heard_voices_speak_for_others(others, voices);
    let a = choose|a: int| 0 <= a < kept.len() && kept[a] == voices[k];
    let b = choose|b: int| 0 <= b < kept.len() && kept[b] == voices[l];
    assert(views[a].word == word && views[b].word == word);
    assert(a != b);
    assert forall|m: int| 0 <= m < views.len() implies (#[trigger] views[m]).word is Failed
        || views[m].word == word by {
        assert(voices.contains(kept[m]));
        let n = choose|n: int| 0 <= n < voices.len() && voices[n] == kept[m];
        assert(voices[n].word@ is Failed || voices[n].word@ == word);
    }
    let readiness = readiness_for(entries, asked);
    assert(readiness is Armed);
    assert(if a < b {
        views[a].word == word && views[b].word == word
    } else {
        views[b].word == word && views[a].word == word
    });
    match first {
        Some(found) => {
            super::corroboration::law_presence_is_corroborated_exactly_by_two_voices(
                found,
                name,
                found.claim(),
                readiness,
                views,
            );
        },
        None => {
            super::corroboration::law_absence_is_corroborated_exactly_by_two_voices::<T>(
                name,
                readiness,
                views,
            );
        },
    }
}

/// What an independent peer of the pool answers is heard, where no peer answers twice.
proof fn lemma_asked_peers_are_heard<C, V: Speaker>(
    pool: PoolView<C>,
    asked: SocketAddr,
    others: Seq<SocketAddr>,
    voices: Seq<V>,
    i: int,
    k: int,
)
    requires
        others == addresses_of(pool.entries.filter(corroborates(asked))),
        forall|k: int, l: int|
            0 <= k < l < voices.len() ==> (#[trigger] voices[k]).speaker() != (
            #[trigger] voices[l]).speaker(),
        0 <= i < pool.entries.len(),
        is_independent(pool.entries[i], asked),
        0 <= k < voices.len(),
        voices[k].speaker() == pool.entries[i].address,
    ensures
        heard(others, voices).contains(voices[k]),
    decreases voices.len(),
{
    let init = voices.drop_last();
    let last = voices.last();
    assert(voices =~= init.push(last));
    super::corroboration::law_a_peers_first_answer_counts(others, init, last);
    if k < init.len() {
        assert forall|m: int, l: int| 0 <= m < l < init.len() implies (
        #[trigger] init[m]).speaker() != (#[trigger] init[l]).speaker() by {
            assert(init[m] == voices[m] && init[l] == voices[l]);
        }
        assert(init[k] == voices[k]);
        lemma_asked_peers_are_heard(pool, asked, others, init, i, k);
        let before = heard(others, init);
        let a = choose|a: int| 0 <= a < before.len() && before[a] == voices[k];
        assert(heard(others, voices)[a] == voices[k]);
    } else {
        let keep = corroborates::<C>(asked);
        let independent = pool.entries.filter(keep);
        pool.entries.lemma_filter_contains(keep, i);
        let n = choose|n: int| 0 <= n < independent.len() && independent[n] == pool.entries[i];
        assert(others[n] == pool.entries[i].address);
        assert forall|m: int| 0 <= m < init.len() implies (#[trigger] init[m]).speaker()
            != last.speaker() by {
            assert(init[m] == voices[m]);
            assert(voices[m].speaker() != voices[k].speaker());
        }
        let before = heard(others, init);
        assert(heard(others, voices)[before.len() as int] == last);
    }
}

/// A network is described by its name, its address prefix and its genesis challenge, the same one
/// that signatures are made over.
pub proof fn law_a_network_is_described_by_its_own_constants<C>(
    backend: PeerBackend<C>,
    info: NetworkInfo,
    data: String,
    challenge: Bytes32,
)
    requires
        call_ensures(PeerBackend::<C>::network_info, (&backend,), info),
        call_ensures(PeerBackend::<C>::aggsig_additional_data, (&backend,), data),
        call_ensures(PeerBackend::<C>::genesis_challenge, (&backend,), challenge),
    ensures
        backend.network is Mainnet ==> info.network_name@ == "mainnet"@ && info.network_prefix@
            == "xch"@,
        backend.network is Testnet11 ==> info.network_name@ == "testnet11"@ && info.network_prefix@
            == "txch"@,
        info.genesis_challenge@ == "0x"@ + hex_of(challenge@),
        data@ == info.genesis_challenge@,
{
}

/// A read costs a peer its place exactly if it failed, and what it came to is handed on as it is.
pub proof fn law_a_failed_read_costs_the_peer_its_place<C, T>(
    backend: &mut PeerBackend<C>,
    address: SocketAddr,
    outcome: Result<T, ChiaQueryError>,
    same: Result<T, ChiaQueryError>,
    entry: PeerEntry<C>,
)
    requires
        call_ensures(PeerBackend::<C>::keep_or_eject::<T>, (backend, address, outcome), same),
    ensures
        same == outcome,
        final(backend).network == old(backend).network,
        final(backend).pool@.entries.contains(entry) <==> old(backend).pool@.entries.contains(entry)
            && (outcome is Ok || entry.address != address),
{
    super::pool::law_only_the_ejected_address_is_dropped(old(backend).pool@, address, entry);
}

/// A question is put to the peer in turn, and whether its answer can be corroborated is settled by
/// the peers held then: exactly if two discovered ones are held at other addresses.
pub proof fn law_a_question_is_put_to_the_peer_in_turn<C>(
    backend: &mut PeerBackend<C>,
    question: Result<Question, ChiaQueryError>,
)
    requires
        old(backend).pool@.entries.len() <= usize::MAX,
        call_ensures(PeerBackend::<C>::put, (backend,), question),
    ensures
        question is Ok <==> old(backend).pool@.entries.len() > 0,
        question matches Ok(q) ==> {
            let entries = old(backend).pool@.entries;
            &&& q.asked == entries[old(backend).pool@.next_idx as int % entries.len() as int].address
            &&& q.readiness is Armed <==> exists|i: int, j: int|
                0 <= i < j < entries.len() && (#[trigger] entries[i]).address != q.asked
                    && entries[i].origin == PeerOrigin::Discovered && (
                #[trigger] entries[j]).address != q.asked && entries[j].origin
                    == PeerOrigin::Discovered
        },
        question is Err ==> question->Err_0@ == ErrorView::PeerConnection("no peers available"@),
        final(backend).pool@.entries == old(backend).pool@.entries,
{
    if let Ok(q) = question {
        super::pool::law_two_independent_peers_arm_the_pool(old(backend).pool@.entries, q.asked);
    }
}

/// Two different discovered peers that say the same as the peer that was asked settle its answer,
/// where every voice is another peer's and none contradicts it.
pub proof fn law_two_independent_voices_settle_an_answer<C, T: ChainClaim>(
    pool: PoolView<C>,
    asked: SocketAddr,
    backend: &mut PeerBackend<C>,
    name: &str,
    round: Round<Option<T>>,
    voices: Vec<Voice>,
    answer: Result<OptAnswer<T>, ChiaQueryError>,
)
    requires
        pool.entries.len() <= usize::MAX,
        round.readiness == readiness_for(pool.entries, asked),
        round.others@ == addresses_of(pool.entries.filter(corroborates(asked))),
        forall|k: int, l: int|
            0 <= k < l < voices@.len() ==> (#[trigger] voices@[k]).address != (
            #[trigger] voices@[l]).address,
        forall|k: int|
            0 <= k < voices@.len() ==> (#[trigger] voices@[k]).word@ is Failed || voices@[k].word@
                == word_for(round.first),
        two_said(pool.entries, asked, voices@, word_for(round.first)),
        call_ensures(
            PeerBackend::<C>::read_opt_corroborated::<T>,
            (backend, name, round, voices),
            answer,
        ),
    ensures
        answer is Ok,
        round.first matches Some(found) ==> answer->Ok_0 == OptAnswer::Found(found),
        round.first is None ==> answer->Ok_0 is CorroboratedAbsent,
{
    law_two_independent_peers_establish_an_answer(
        pool,
        asked,
        round.others@,
        round.first,
        name@,
        voices@,
    );
}

/// Of the peers a question was put to, each answering once, exactly those that did not answer lose
/// their place, whatever the answer is graded.
pub proof fn law_only_silent_peers_lose_their_place<C, T: ChainClaim>(
    backend: &mut PeerBackend<C>,
    name: &str,
    round: Round<Option<T>>,
    voices: Vec<Voice>,
    answer: Result<OptAnswer<T>, ChiaQueryError>,
    entry: PeerEntry<C>,
)
    requires
        forall|k: int, l: int|
            0 <= k < l < voices@.len() ==> (#[trigger] voices@[k]).address != (
            #[trigger] voices@[l]).address,
        forall|k: int|
            0 <= k < voices@.len() ==> round.others@.contains((#[trigger] voices@[k]).address),
        call_ensures(
            PeerBackend::<C>::read_opt_corroborated::<T>,
            (backend, name, round, voices),
            answer,
        ),
    ensures
        final(backend).pool@.entries.contains(entry) <==> old(backend).pool@.entries.contains(entry)
            && !exists|k: int|
            0 <= k < voices@.len() && (#[trigger] voices@[k]).address == entry.address
                && voices@[k].word@ is Failed,
        final(backend).network == old(backend).network,
{
    assert forall|k: int, l: int|
        0 <= k < speakers(voices@).len() && 0 <= l < speakers(voices@).len() && k != l implies
        speakers(voices@)[k] != speakers(voices@)[l] by {
        if k < l {
            assert(voices@[k].address != voices@[l].address);
        } else {
            assert(voices@[l].address != voices@[k].address);
        }
    }
    super::corroboration::law_every_voice_of_a_round_counts(round.others@, voices@);
    let views = voices_view(voices@);
    super::corroboration::law_silence_is_told_by_its_peer(views, Seq::empty(), entry.address);
    super::pool::law_only_the_ejected_addresses_are_dropped(
        old(backend).pool@,
        silent_addresses(views),
        entry,
    );
    if exists|k: int|
        0 <= k < voices@.len() && (#[trigger] voices@[k]).address == entry.address
            && voices@[k].word@ is Failed {
        let k = choose|k: int|
            0 <= k < voices@.len() && (#[trigger] voices@[k]).address == entry.address
                && voices@[k].word@ is Failed;
        assert(views[k].address == entry.address && views[k].word is Failed);
    }
    if exists|k: int|
        0 <= k < views.len() && (#[trigger] views[k]).address == entry.address
            && views[k].word is Failed {
        let k = choose|k: int|
            0 <= k < views.len() && (#[trigger] views[k]).address == entry.address
                && views[k].word is Failed;
        assert(voices@[k].address == entry.address && voices@[k].word@ is Failed);
    }
}

/// Of the peers that were asked for a set, each answering once, exactly those that sent none lose
/// their place.
pub proof fn law_only_peers_that_sent_no_set_lose_their_place<C>(
    backend: &mut PeerBackend<C>,
    name: &str,
    round: Round<HeightedSet<CoinRecord>>,
    voices: Vec<SetVoice>,
    projection: SetProjection,
    answer: Result<SetAnswer<CoinRecord>, ChiaQueryError>,
    entry: PeerEntry<C>,
)
    requires
        forall|k: int, l: int|
            0 <= k < l < voices@.len() ==> (#[trigger] voices@[k]).address != (
            #[trigger] voices@[l]).address,
        forall|k: int|
            0 <= k < voices@.len() ==> round.others@.contains((#[trigger] voices@[k]).address),
        call_ensures(
            PeerBackend::<C>::read_set_corroborated,
            (backend, name, round, voices, projection),
            answer,
        ),
    ensures
        final(backend).pool@.entries.contains(entry) <==> old(backend).pool@.entries.contains(entry)
            && !exists|k: int|
            0 <= k < voices@.len() && (#[trigger] voices@[k]).address == entry.address
                && voices@[k].set is None,
        final(backend).network == old(backend).network,
{
    assert forall|k: int, l: int|
        0 <= k < speakers(voices@).len() && 0 <= l < speakers(voices@).len() && k != l implies
        speakers(voices@)[k] != speakers(voices@)[l] by {
        if k < l {
            assert(voices@[k].address != voices@[l].address);
        } else {
            assert(voices@[l].address != voices@[k].address);
        }
    }
    super::corroboration::law_every_voice_of_a_round_counts(round.others@, voices@);
    let views = set_voices_view(voices@);
    super::corroboration::law_silence_is_told_by_its_peer(Seq::empty(), views, entry.address);
    super::pool::law_only_the_ejected_addresses_are_dropped(
        old(backend).pool@,
        silent_set_addresses(views),
        entry,
    );
    if exists|k: int|
        0 <= k < voices@.len() && (#[trigger] voices@[k]).address == entry.address
            && voices@[k].set is None {
        let k = choose|k: int|
            0 <= k < voices@.len() && (#[trigger] voices@[k]).address == entry.address
                && voices@[k].set is None;
        assert(views[k].address == entry.address && views[k].set is None);
    }
    if exists|k: int|
        0 <= k < views.len() && (#[trigger] views[k]).address == entry.address && views[k].set is None {
        let k = choose|k: int|
            0 <= k < views.len() && (#[trigger] views[k]).address == entry.address
                && views[k].set is None;
        assert(voices@[k].address == entry.address && voices@[k].set is None);
    }
}

/// A round is opened with the first answer as it was given, and with all the discovered peers at other
/// addresses to be asked besides; a first answer that failed opens none.
pub proof fn law_a_round_asks_every_other_discovered_peer<C, T>(
    backend: &mut PeerBackend<C>,
    asked: SocketAddr,
    first: Result<T, ChiaQueryError>,
    round: Result<Round<T>, ChiaQueryError>,
    address: SocketAddr,
)
    requires
        call_ensures(PeerBackend::<C>::open_round::<T>, (backend, asked, first), round),
    ensures
        round is Ok <==> first is Ok,
        round is Ok ==> round->Ok_0.first == first->Ok_0,
        round is Err ==> round->Err_0 == first->Err_0,
        round is Ok ==> (round->Ok_0.others@.contains(address) <==> address != asked && exists|i: int|
            0 <= i < old(backend).pool@.entries.len() && (
            #[trigger] old(backend).pool@.entries[i]).address == address
                && old(backend).pool@.entries[i].origin is Discovered),
{
    let entries = old(backend).pool@.entries;
    let keep = corroborates::<C>(asked);
    let kept = entries.filter(keep);
    if round is Ok {
        let others = round->Ok_0.others@;
        if others.contains(address) {
            let k = choose|k: int| 0 <= k < others.len() && others[k] == address;
            assert(kept[k].address == address);
            entries.lemma_filter_pred(keep, k);
            assert(kept.contains(kept[k]));
            entries.lemma_filter_contains_rev(keep, kept[k]);
            let i = choose|i: int| 0 <= i < entries.len() && entries[i] == kept[k];
            assert(entries[i].address == address);
        }
        if address != asked && exists|i: int|
            0 <= i < entries.len() && (#[trigger] entries[i]).address == address
                && entries[i].origin is Discovered {
            let i = choose|i: int|
                0 <= i < entries.len() && (#[trigger] entries[i]).address == address
                    && entries[i].origin is Discovered;
            entries.lemma_filter_contains(keep, i);
            let k = choose|k: int| 0 <= k < kept.len() && kept[k] == entries[i];
            assert(others[k] == address);
        }
    }
}

/// An id that does not read fails like any other read and costs the peer its place; one that reads is
/// asked for as it reads.
pub proof fn law_a_requested_id_must_read<C>(
    backend: &mut PeerBackend<C>,
    address: SocketAddr,
    text: &str,
    id: Result<Bytes32, ChiaQueryError>,
    entry: PeerEntry<C>,
)
    requires
        call_ensures(PeerBackend::<C>::requested_id, (backend, address, text), id),
    ensures
        id is Ok <==> read_bytes32(text@) is Ok,
        id is Ok ==> id->Ok_0@ == read_bytes32(text@)->Ok_0,
        final(backend).pool@.entries.contains(entry) <==> old(backend).pool@.entries.contains(entry)
            && (id is Ok || entry.address != address),
{
    super::pool::law_only_the_ejected_address_is_dropped(old(backend).pool@, address, entry);
}

/// A coin, a block record and an acknowledgement are told exactly if the peer answered with one, and
/// a peer that did not loses its place.
pub proof fn law_one_peers_word_is_told_or_costs_it_its_place<C>(
    for_coin: &mut PeerBackend<C>,
    for_block: &mut PeerBackend<C>,
    for_push: &mut PeerBackend<C>,
    address: SocketAddr,
    states: Reply<Vec<CoinState>>,
    coin: Result<CoinRecord, ChiaQueryError>,
    header: Reply<BlockRecord>,
    block: Result<BlockRecord, ChiaQueryError>,
    ack: Response<(u8, Option<String>)>,
    status: Result<TxStatus, ChiaQueryError>,
    entry: PeerEntry<C>,
)
    requires
        call_ensures(
            PeerBackend::<C>::try_get_coin_record_by_name,
            (for_coin, address, states),
            coin,
        ),
        call_ensures(
            PeerBackend::<C>::try_get_block_record_by_height,
            (for_block, address, header),
            block,
        ),
        call_ensures(PeerBackend::<C>::try_push_tx, (for_push, address, ack), status),
    ensures
        coin is Ok <==> states is Answered && states->Answered_0@.len() > 0,
        block is Ok <==> header is Answered,
        block is Ok ==> block->Ok_0 == header->Answered_0,
        status is Ok <==> ack is Answered,
        status is Ok ==> (status->Ok_0.inclusion is Admitted <==> (ack->Answered_0).0 == 1),
        status is Ok ==> status->Ok_0.error == (ack->Answered_0).1,
        final(for_coin).pool@.entries.contains(entry) <==> old(for_coin).pool@.entries.contains(
            entry,
        ) && (coin is Ok || entry.address != address),
        final(for_block).pool@.entries.contains(entry) <==> old(for_block).pool@.entries.contains(
            entry,
        ) && (block is Ok || entry.address != address),
        final(for_push).pool@.entries.contains(entry) <==> old(for_push).pool@.entries.contains(
            entry,
        ) && (status is Ok || entry.address != address),
{
    super::pool::law_only_the_ejected_address_is_dropped(old(for_coin).pool@, address, entry);
    super::pool::law_only_the_ejected_address_is_dropped(old(for_block).pool@, address, entry);
    super::pool::law_only_the_ejected_address_is_dropped(old(for_push).pool@, address, entry);
}

/// A block is read for its effects and its spends exactly if the peer sent it, and a peer from whose
/// block they cannot be told loses its place.
pub proof fn law_a_block_is_read_or_costs_the_peer_its_place<C>(
    for_effects: &mut PeerBackend<C>,
    for_spends: &mut PeerBackend<C>,
    address: SocketAddr,
    height: u32,
    reply: Reply<FullBlock>,
    effects: Result<AdditionsAndRemovals, ChiaQueryError>,
    spends: Result<Vec<CoinSpend>, ChiaQueryError>,
    entry: PeerEntry<C>,
)
    requires
        call_ensures(
            PeerBackend::<C>::try_get_additions_and_removals_from_block,
            (for_effects, address, height, reply),
            effects,
        ),
        call_ensures(
            PeerBackend::<C>::try_get_block_spends_by_height,
            (for_spends, address, reply),
            spends,
        ),
    ensures
        !(reply is Answered) ==> effects is Err && spends is Err && effects->Err_0@
            == spends->Err_0@,
        reply is Rejected ==> effects->Err_0@ == ErrorView::PeerRejection("block request rejected"@),
        reply is TimedOut ==> effects->Err_0@ == ErrorView::PeerConnection(
            "block request timed out"@,
        ),
        reply matches Reply::Answered(block) ==> block.transactions_generator is None
            ==> effects is Ok && effects->Ok_0.removals@.len() == 0 && spends is Ok
            && spends->Ok_0@.len() == 0,
        final(for_effects).pool@.entries.contains(entry) <==> old(
            for_effects,
        ).pool@.entries.contains(entry) && (effects is Ok || entry.address != address),
        final(for_spends).pool@.entries.contains(entry) <==> old(for_spends).pool@.entries.contains(
            entry,
        ) && (spends is Ok || entry.address != address),
{
    super::pool::law_only_the_ejected_address_is_dropped(old(for_effects).pool@, address, entry);
    super::pool::law_only_the_ejected_address_is_dropped(old(for_spends).pool@, address, entry);
    if let Reply::Answered(block) = reply {
        if block.transactions_generator is None {
            assert(records_view(effects->Ok_0.removals@).len() == effects->Ok_0.removals@.len());
            assert(crate::types::spends_view(spends->Ok_0@).len() == spends->Ok_0@.len());
        }
    }
}

} // verus!
