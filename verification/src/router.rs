//! Which source answers: the peers first, then coinset.

use vstd::prelude::*;

use crate::address::SocketAddr;
use crate::claim::ChainClaim;
use crate::mempool_refusal::{is_final, is_intrinsic};
use crate::peer::backend::{
    graded_opt, law_established_answer_rests_on_two_independent_peers,
    law_established_set_rests_on_two_independent_peers, two_hold_the_same, two_said, word_for,
};
use crate::peer::corroboration::{
    grade_of, graded_set, heard, set_voices_view, voices_view, word_of, OptAnswer, SetGrade,
    SetVoice, Voice,
};
use crate::peer::pool::{addresses_of, corroborates, CorroborationReadiness, PoolView};
use crate::peer::set_agreement::{
    claims_of, contradiction, contradicts, fingerprint, law_agreement_is_set_equality,
    normalise_at, normalised, project, wanted, SetAnswer, SetProjection,
};
use crate::types::{
    records_view, ChiaQueryError, CoinRecord, ErrorView, RecordView, TxStatus,
};

verus! {

/// How many peers a read is tried on before coinset is asked.
pub const PEER_ATTEMPTS: usize = 2;

/// What to do about a read.
pub enum RouteStep {
    /// Ask a peer that has not been asked yet.
    AskPeer(Route),
    /// Ask coinset.
    AskCoinset(Route),
    /// Give up.
    Fail(ChiaQueryError),
}

/// What to do about a push that a peer answered.
pub enum PushStep {
    /// Report this answer.
    Report(TxStatus),
    /// Push it to a peer that has not been asked yet.
    AskPeer(Route),
}

/// How a refusal is named: by its reason, or by its status where none is stated.
pub open spec fn refusal(status: TxStatus) -> Seq<char> {
    match status.error {
        Some(reason) => reason@,
        None => status.status@,
    }
}

/// A read on its way: how many peers have failed it, and how the last one did.
pub struct Route {
    failed: usize,
    last: Option<ChiaQueryError>,
    coinset_fallback_enabled: bool,
}

impl Route {
    /// How many peers have failed the read.
    pub closed spec fn failed(&self) -> nat {
        self.failed as nat
    }

    /// How the last peer failed it.
    pub closed spec fn last(&self) -> Option<ErrorView> {
        match self.last {
            Some(e) => Some(e@),
            None => None,
        }
    }

    /// Whether coinset may be asked.
    pub closed spec fn may_fall_back(&self) -> bool {
        self.coinset_fallback_enabled
    }

    /// No more peers have failed the read than it is tried on, and if any has, how is known.
    pub closed spec fn wf(&self) -> bool {
        &&& self.failed <= PEER_ATTEMPTS
        &&& self.failed > 0 <==> self.last is Some
    }

    /// A read that no peer has been asked for.
    pub fn start(coinset_fallback_enabled: bool) -> (route: Self)
        ensures
            route.wf(),
            route.failed() == 0,
            route.last() is None,
            route.may_fall_back() == coinset_fallback_enabled,
    {
        Route { failed: 0, last: None, coinset_fallback_enabled }
    }

    /// What to do after a peer failed the read: ask another, as long as it may be tried on one,
    /// then coinset, and without coinset fail as the last peer did. Peers that contradict each
    /// other fail it at once: nobody settles that for them.
    pub fn peer_failed(self, error: ChiaQueryError) -> (step: RouteStep)
        requires
            self.wf(),
            self.failed() < PEER_ATTEMPTS,
        ensures
            match step {
                RouteStep::AskPeer(route) => {
                    &&& self.failed() + 1 < PEER_ATTEMPTS && !(error is SourcesDisagree)
                    &&& route.wf() && route.failed() == self.failed() + 1
                    &&& route.last() == Some(error@)
                    &&& route.may_fall_back() == self.may_fall_back()
                },
                RouteStep::AskCoinset(route) => {
                    &&& self.failed() + 1 == PEER_ATTEMPTS && self.may_fall_back()
                    &&& !(error is SourcesDisagree)
                    &&& route.wf() && route.failed() == PEER_ATTEMPTS
                    &&& route.last() == Some(error@)
                },
                RouteStep::Fail(e) => {
                    &&& error is SourcesDisagree || (self.failed() + 1 == PEER_ATTEMPTS
                        && !self.may_fall_back())
                    &&& e == error
                },
            },
    {
        let failed: usize = self.failed + 1;
        let coinset_fallback_enabled = self.coinset_fallback_enabled;
        if let ChiaQueryError::SourcesDisagree(_) = &error {
            return RouteStep::Fail(error);
        }
        if failed < PEER_ATTEMPTS {
            RouteStep::AskPeer(Route { failed, last: Some(error), coinset_fallback_enabled })
        } else if coinset_fallback_enabled {
            RouteStep::AskCoinset(Route { failed, last: Some(error), coinset_fallback_enabled })
        } else {
            RouteStep::Fail(error)
        }
    }

    /// What to do after a peer answered a push: report an answer that no other peer could change,
    /// and take any other to one more peer, as long as the push may be tried on one.
    pub fn pushed(self, status: TxStatus) -> (step: PushStep)
        requires
            self.wf(),
            self.failed() < PEER_ATTEMPTS,
        ensures
            match step {
                PushStep::Report(reported) => {
                    &&& reported == status
                    &&& self.failed() + 1 == PEER_ATTEMPTS || status.inclusion is Admitted || (
                    status.error is Some && is_intrinsic(status.error->0@))
                },
                PushStep::AskPeer(route) => {
                    &&& self.failed() + 1 < PEER_ATTEMPTS
                    &&& !(status.inclusion is Admitted)
                    &&& !(status.error is Some && is_intrinsic(status.error->0@))
                    &&& route.wf() && route.failed() == self.failed() + 1
                    &&& route.last() == Some(ErrorView::PeerRejection(refusal(status)))
                    &&& route.may_fall_back() == self.may_fall_back()
                },
            },
    {
        let failed: usize = self.failed + 1;
        if failed == PEER_ATTEMPTS || is_final(&status) {
            return PushStep::Report(status);
        }
        let reason = match status.error {
            Some(reason) => reason,
            None => status.status,
        };
        PushStep::AskPeer(
            Route {
                failed,
                last: Some(ChiaQueryError::PeerRejection(reason)),
                coinset_fallback_enabled: self.coinset_fallback_enabled,
            },
        )
    }

    /// The error of a read that coinset failed as well.
    pub fn coinset_failed(self, error: ChiaQueryError) -> (failure: ChiaQueryError)
        requires
            self.wf(),
            self.failed() == PEER_ATTEMPTS,
        ensures
            failure@ == (ErrorView::AllSourcesFailed {
                peer: self.last()->0.text(),
                coinset: error@.text(),
            }),
    {
        let peer = match &self.last {
            Some(e) => e.message(),
            None => String::new(),
        };
        ChiaQueryError::AllSourcesFailed { peer, coinset: error.message() }
    }
}

/// Refuses a read that only coinset can answer where coinset may not be asked.
pub fn require_coinset(coinset_fallback_enabled: bool, endpoint: &str) -> (allowed: Result<
    (),
    ChiaQueryError,
>)
    ensures
        match allowed {
            Ok(()) => coinset_fallback_enabled,
            Err(e) => !coinset_fallback_enabled && e@ == ErrorView::UnsupportedWithoutCoinset(
                endpoint@,
            ),
        },
{
    if coinset_fallback_enabled {
        Ok(())
    } else {
        Err(ChiaQueryError::UnsupportedWithoutCoinset(String::from_str(endpoint)))
    }
}

/// What coinset says of a thing that may be absent.
pub enum SecondSource {
    /// Nothing: it may not be asked, or did not answer.
    Unavailable,
    Absent,
    /// It has the thing, and claims this of it.
    Present(String),
}

/// Whether `second` is what coinset says by `outcome`.
pub open spec fn is_heard<T: ChainClaim>(
    second: SecondSource,
    outcome: Result<Option<T>, ChiaQueryError>,
) -> bool {
    match outcome {
        Ok(Some(found)) => second matches SecondSource::Present(claim) && claim@ == found.claim(),
        Ok(None) => second is Absent,
        Err(_) => second is Unavailable,
    }
}

impl SecondSource {
    /// What came back of asking coinset. A failure says nothing either way.
    pub fn heard<T: ChainClaim>(outcome: &Result<Option<T>, ChiaQueryError>) -> (second: Self)
        ensures
            is_heard(second, *outcome),
    {
        match outcome {
            Ok(Some(found)) => SecondSource::Present(found.chain_claim()),
            Ok(None) => SecondSource::Absent,
            Err(_) => SecondSource::Unavailable,
        }
    }
}

/// Whether coinset is to be asked about an answer: it may be, and the peers have not settled it.
pub fn wants_second<T>(answer: &OptAnswer<T>, coinset_fallback_enabled: bool) -> (wanted: bool)
    ensures
        wanted == (coinset_fallback_enabled && (*answer is UncorroboratedFound
            || *answer is UncorroboratedAbsent)),
{
    match answer {
        OptAnswer::UncorroboratedFound(_) | OptAnswer::UncorroboratedAbsent => {
            coinset_fallback_enabled
        },
        _ => false,
    }
}

/// Whether coinset is to be asked about a set: it may be, and the peers have not settled it.
pub fn set_wants_second(answer: &SetAnswer<CoinRecord>, coinset_fallback_enabled: bool) -> (wanted:
    bool)
    ensures
        wanted == (coinset_fallback_enabled && *answer is Uncorroborated),
{
    match answer {
        SetAnswer::Uncorroborated { .. } => coinset_fallback_enabled,
        _ => false,
    }
}

/// What an answer claims, or what was asked for where it is an absence.
pub open spec fn claimed<T: ChainClaim>(answer: OptAnswer<T>, asked: Seq<char>) -> Seq<char> {
    match answer {
        OptAnswer::Found(value) => value.claim(),
        OptAnswer::UncorroboratedFound(value) => value.claim(),
        OptAnswer::CorroboratedAbsent => asked,
        OptAnswer::UncorroboratedAbsent => asked,
    }
}

/// What an answer claims, or what was asked for where it is an absence.
pub fn claim_of<T: ChainClaim>(answer: &OptAnswer<T>, asked: &str) -> (claim: String)
    ensures
        claim@ == claimed(*answer, asked@),
{
    match answer {
        OptAnswer::Found(value) => value.chain_claim(),
        OptAnswer::UncorroboratedFound(value) => value.chain_claim(),
        _ => String::from_str(asked),
    }
}

/// The height a coin was spent at, for a source to be asked for its spend. A coin that is unknown
/// or unspent has none.
pub fn spent_at(record: &Option<CoinRecord>) -> (height: Option<u32>)
    ensures
        height == (match *record {
            Some(r) => if r.spent {
                Some(r.spent_block_index)
            } else {
                None
            },
            None => None,
        }),
{
    match record {
        Some(record) => if record.spent {
            Some(record.spent_block_index)
        } else {
            None
        },
        None => None,
    }
}

/// Takes what a read must come up with. An absence is an error, which says `rejected`.
pub fn required<T>(found: Option<T>, rejected: &str) -> (taken: Result<T, ChiaQueryError>)
    ensures
        match (taken, found) {
            (Ok(t), Some(value)) => t == value,
            (Err(e), None) => e@ == ErrorView::PeerRejection(rejected@),
            _ => false,
        },
{
    match found {
        Some(value) => Ok(value),
        None => Err(ChiaQueryError::PeerRejection(String::from_str(rejected))),
    }
}

/// What one source reports, before another is asked.
pub fn one_voice<T>(found: Option<T>) -> (answer: OptAnswer<T>)
    ensures
        answer == (match found {
            Some(value) => OptAnswer::UncorroboratedFound(value),
            None => OptAnswer::UncorroboratedAbsent,
        }),
{
    match found {
        Some(value) => OptAnswer::UncorroboratedFound(value),
        None => OptAnswer::UncorroboratedAbsent,
    }
}

/// How an answer that one source vouches for is settled by a second.
pub open spec fn settled<T>(
    answer: OptAnswer<T>,
    claim: Seq<char>,
    second: SecondSource,
) -> Result<Option<T>, ErrorView> {
    match answer {
        OptAnswer::Found(value) => Ok(Some(value)),
        OptAnswer::CorroboratedAbsent => Ok(None),
        OptAnswer::UncorroboratedFound(value) => match second {
            SecondSource::Unavailable => Err(ErrorView::UncorroboratedPresence(claim)),
            SecondSource::Absent => Err(
                ErrorView::SourcesDisagree("peers report present, coinset reports absent"@),
            ),
            SecondSource::Present(other) => if other@ == claim {
                Ok(Some(value))
            } else {
                Err(
                    ErrorView::SourcesDisagree(
                        "peers claim `"@ + claim + "`, coinset claims `"@ + other@ + "`"@,
                    ),
                )
            },
        },
        OptAnswer::UncorroboratedAbsent => match second {
            SecondSource::Unavailable => Err(ErrorView::UncorroboratedAbsence(claim)),
            SecondSource::Absent => Ok(None),
            SecondSource::Present(_) => Err(
                ErrorView::SourcesDisagree("peers report absent, coinset reports present"@),
            ),
        },
    }
}

/// Settles an answer: what the peers have corroborated stands, and what one of them vouches for
/// needs coinset to say the same. `claim` is what the answer claims, or what was asked for where
/// it is an absence.
fn settle<T>(answer: OptAnswer<T>, claim: &str, second: SecondSource) -> (outcome: Result<
    Option<T>,
    ChiaQueryError,
>)
    ensures
        match outcome {
            Ok(o) => settled(answer, claim@, second) == Ok::<Option<T>, ErrorView>(o),
            Err(e) => settled(answer, claim@, second) == Err::<Option<T>, ErrorView>(e@),
        },
{
    match answer {
        OptAnswer::Found(value) => Ok(Some(value)),
        OptAnswer::CorroboratedAbsent => Ok(None),
        OptAnswer::UncorroboratedFound(value) => match second {
            SecondSource::Unavailable => Err(
                ChiaQueryError::UncorroboratedPresence(String::from_str(claim)),
            ),
            SecondSource::Absent => Err(
                ChiaQueryError::SourcesDisagree(
                    String::from_str("peers report present, coinset reports absent"),
                ),
            ),
            SecondSource::Present(other) => if other == String::from_str(claim) {
                Ok(Some(value))
            } else {
                Err(
                    ChiaQueryError::SourcesDisagree(
                        String::from_str("peers claim `").concat(claim).concat(
                            "`, coinset claims `",
                        ).concat(other.as_str()).concat("`"),
                    ),
                )
            },
        },
        OptAnswer::UncorroboratedAbsent => match second {
            SecondSource::Unavailable => Err(
                ChiaQueryError::UncorroboratedAbsence(String::from_str(claim)),
            ),
            SecondSource::Absent => Ok(None),
            SecondSource::Present(_) => Err(
                ChiaQueryError::SourcesDisagree(
                    String::from_str("peers report absent, coinset reports present"),
                ),
            ),
        },
    }
}

/// Settles an answer by what it claims itself: what the peers have corroborated stands, and what one
/// of them vouches for needs coinset to claim the same. An absence is named by what was `asked`.
pub fn settle_claimed<T: ChainClaim>(
    answer: OptAnswer<T>,
    asked: &str,
    second: SecondSource,
) -> (outcome: Result<Option<T>, ChiaQueryError>)
    ensures
        match outcome {
            Ok(o) => settled(answer, claimed(answer, asked@), second) == Ok::<
                Option<T>,
                ErrorView,
            >(o),
            Err(e) => settled(answer, claimed(answer, asked@), second) == Err::<
                Option<T>,
                ErrorView,
            >(e@),
        },
{
    let claim = claim_of(&answer, asked);
    settle(answer, claim.as_str(), second)
}

/// What the caller wants to see of the set that coinset holds, as it stood at `height`.
pub open spec fn seen_at(
    records: Seq<RecordView>,
    height: u32,
    projection: SetProjection,
) -> Seq<RecordView> {
    normalised(records, height).filter(wanted(projection))
}

/// How a graded set is settled by the set that coinset holds, where it holds one.
pub open spec fn settled_set(
    answer: SetGrade,
    second: Option<Seq<RecordView>>,
    projection: SetProjection,
) -> Result<Seq<RecordView>, ErrorView> {
    if answer.corroborated {
        Ok(answer.items)
    } else {
        match second {
            None => Err(
                ErrorView::UncorroboratedPresence("no second source vouches for the set"@),
            ),
            Some(other) => match contradicts(
                "peers"@,
                claims_of(answer.items),
                "coinset"@,
                claims_of(seen_at(other, answer.as_of_height, projection)),
            ) {
                Some(detail) => Err(ErrorView::SourcesDisagree(detail)),
                None => Ok(answer.items),
            },
        }
    }
}

/// Settles a set: what the peers have corroborated stands, and what one of them vouches for needs
/// coinset to hold the same, compared at the height the peer's answer holds at. `second` is all
/// that coinset has of the set, spent coins included, if it answered.
pub fn settle_set(
    answer: SetAnswer<CoinRecord>,
    second: Option<Vec<CoinRecord>>,
    projection: SetProjection,
) -> (outcome: Result<Vec<CoinRecord>, ChiaQueryError>)
    ensures
        ({
            let other = match second {
                Some(records) => Some(records_view(records@)),
                None => None,
            };
            match outcome {
                Ok(o) => settled_set(grade_of(answer), other, projection) == Ok::<
                    Seq<RecordView>,
                    ErrorView,
                >(records_view(o@)),
                Err(e) => settled_set(grade_of(answer), other, projection) == Err::<
                    Seq<RecordView>,
                    ErrorView,
                >(e@),
            }
        }),
{
    match answer {
        SetAnswer::Corroborated { items, as_of_height: _ } => Ok(items),
        SetAnswer::Uncorroborated { items, as_of_height } => match second {
            None => Err(
                ChiaQueryError::UncorroboratedPresence(
                    String::from_str("no second source vouches for the set"),
                ),
            ),
            Some(records) => {
                let other = project(normalise_at(records.as_slice(), as_of_height), projection);
                let claims = fingerprint(items.as_slice());
                let others = fingerprint(other.as_slice());
                match contradiction("peers", claims.as_slice(), "coinset", others.as_slice()) {
                    Some(detail) => Err(ChiaQueryError::SourcesDisagree(detail)),
                    None => Ok(items),
                }
            },
        },
    }
}

/// What is settled is what the answer holds, and either the peers graded it corroborated among
/// themselves, or coinset claims the same of it as the answer does, or is as absent as it is.
pub proof fn law_settled_answer_is_graded_or_claimed_by_coinset<T: ChainClaim>(
    answer: OptAnswer<T>,
    asked: Seq<char>,
    second: SecondSource,
)
    requires
        settled(answer, claimed(answer, asked), second) is Ok,
    ensures
        ({
            let outcome = settled(answer, claimed(answer, asked), second)->Ok_0;
            match answer {
                OptAnswer::Found(value) => outcome == Some(value),
                OptAnswer::CorroboratedAbsent => outcome is None,
                OptAnswer::UncorroboratedFound(value) => outcome == Some(value) && (
                second matches SecondSource::Present(other) && other@ == value.claim()),
                OptAnswer::UncorroboratedAbsent => outcome is None && second is Absent,
            }
        }),
{
}

/// A settled answer rests on two independent sources besides the peer that was asked, or on that
/// peer and coinset: two different discovered peers said the same as it did, or coinset did. What is
/// reported is what that peer reported.
pub proof fn law_settled_answer_rests_on_two_sources<C, T: ChainClaim>(
    pool: PoolView<C>,
    asked_peer: SocketAddr,
    others: Seq<SocketAddr>,
    first: Option<T>,
    name: Seq<char>,
    readiness: CorroborationReadiness,
    voices: Seq<Voice>,
    asked: Seq<char>,
    second: SecondSource,
    coinset: Result<Option<T>, ChiaQueryError>,
)
    requires
        others == addresses_of(pool.entries.filter(corroborates(asked_peer))),
        graded_opt(first, name, readiness, voices_view(heard(others, voices))) is Ok,
        ({
            let answer = graded_opt(
                first,
                name,
                readiness,
                voices_view(heard(others, voices)),
            )->Ok_0;
            settled(answer, claimed(answer, asked), second) is Ok
        }),
        second is Unavailable || is_heard(second, coinset),
    ensures
        ({
            let answer = graded_opt(
                first,
                name,
                readiness,
                voices_view(heard(others, voices)),
            )->Ok_0;
            &&& settled(answer, claimed(answer, asked), second)->Ok_0 == first
            &&& two_said(pool.entries, asked_peer, voices, word_for(first)) || word_of(coinset)
                == word_for(first)
        }),
{
    law_established_answer_rests_on_two_independent_peers(
        pool,
        asked_peer,
        others,
        first,
        name,
        readiness,
        voices,
    );
}

/// A settled set is what the answer shows, and either the peers graded it corroborated among
/// themselves, or coinset claims the same of the same coins.
pub proof fn law_settled_set_is_graded_or_claimed_by_coinset(
    answer: SetGrade,
    second: Option<Seq<RecordView>>,
    projection: SetProjection,
)
    requires
        settled_set(answer, second, projection) is Ok,
    ensures
        settled_set(answer, second, projection) == Ok::<Seq<RecordView>, ErrorView>(answer.items),
        answer.corroborated || (second is Some && claims_of(answer.items).to_set() == claims_of(
            seen_at(second->0, answer.as_of_height, projection),
        ).to_set()),
{
    if !answer.corroborated {
        law_agreement_is_set_equality(
            "peers"@,
            claims_of(answer.items),
            "coinset"@,
            claims_of(seen_at(second->0, answer.as_of_height, projection)),
        );
    }
}

/// A settled set rests on two independent sources besides the peer that was asked, or on that peer
/// and coinset: two different discovered peers hold the same as it does at the height it is reported
/// at, or coinset claims the same of what is reported.
pub proof fn law_settled_set_rests_on_two_sources<C>(
    pool: PoolView<C>,
    asked_peer: SocketAddr,
    others: Seq<SocketAddr>,
    items: Seq<RecordView>,
    as_of_height: u32,
    name: Seq<char>,
    readiness: CorroborationReadiness,
    voices: Seq<SetVoice>,
    second: Option<Seq<RecordView>>,
    projection: SetProjection,
)
    requires
        others == addresses_of(pool.entries.filter(corroborates(asked_peer))),
        ({
            let graded = graded_set(
                name,
                readiness,
                items,
                as_of_height,
                set_voices_view(heard(others, voices)),
                projection,
            );
            graded is Ok && settled_set(graded->Ok_0, second, projection) is Ok
        }),
    ensures
        ({
            let grade = graded_set(
                name,
                readiness,
                items,
                as_of_height,
                set_voices_view(heard(others, voices)),
                projection,
            )->Ok_0;
            let height = grade.as_of_height;
            &&& settled_set(grade, second, projection) == Ok::<Seq<RecordView>, ErrorView>(
                seen_at(items, height, projection),
            )
            &&& two_hold_the_same(pool.entries, asked_peer, voices, items, height) || (
            second is Some && claims_of(seen_at(items, height, projection)).to_set() == claims_of(
                seen_at(second->0, height, projection),
            ).to_set())
        }),
{
    law_established_set_rests_on_two_independent_peers(
        pool,
        asked_peer,
        others,
        items,
        as_of_height,
        name,
        readiness,
        voices,
        projection,
    );
    let grade = graded_set(
        name,
        readiness,
        items,
        as_of_height,
        set_voices_view(heard(others, voices)),
        projection,
    )->Ok_0;
    law_settled_set_is_graded_or_claimed_by_coinset(grade, second, projection);
}

/// What one peer vouches for is settled by what coinset says, and by nothing else: the same is
/// success, anything else a disagreement, and silence leaves it uncorroborated. What the peers have
/// corroborated stands whatever coinset says.
pub proof fn law_coinset_settles_what_one_peer_vouches_for<T: ChainClaim>(
    answer: OptAnswer<T>,
    asked: Seq<char>,
    second: SecondSource,
    coinset: Result<Option<T>, ChiaQueryError>,
)
    requires
        is_heard(second, coinset),
    ensures
        ({
            let outcome = settled(answer, claimed(answer, asked), second);
            match (answer, coinset) {
                (OptAnswer::Found(value), _) => outcome == Ok::<Option<T>, ErrorView>(Some(value)),
                (OptAnswer::CorroboratedAbsent, _) => outcome == Ok::<Option<T>, ErrorView>(None),
                (OptAnswer::UncorroboratedFound(value), Ok(Some(other))) => {
                    &&& outcome == Ok::<Option<T>, ErrorView>(Some(value)) <==> other.claim()
                        == value.claim()
                    &&& other.claim() != value.claim() ==> outcome is Err && outcome->Err_0
                        == ErrorView::SourcesDisagree(
                        "peers claim `"@ + value.claim() + "`, coinset claims `"@ + other.claim()
                            + "`"@,
                    )
                },
                (OptAnswer::UncorroboratedFound(value), Ok(None)) => outcome is Err
                    && outcome->Err_0 == ErrorView::SourcesDisagree(
                    "peers report present, coinset reports absent"@,
                ),
                (OptAnswer::UncorroboratedFound(value), Err(_)) => outcome is Err && outcome->Err_0
                    == ErrorView::UncorroboratedPresence(value.claim()),
                (OptAnswer::UncorroboratedAbsent, Ok(None)) => outcome == Ok::<
                    Option<T>,
                    ErrorView,
                >(None),
                (OptAnswer::UncorroboratedAbsent, Ok(Some(_))) => outcome is Err && outcome->Err_0
                    == ErrorView::SourcesDisagree("peers report absent, coinset reports present"@),
                (OptAnswer::UncorroboratedAbsent, Err(_)) => outcome is Err && outcome->Err_0
                    == ErrorView::UncorroboratedAbsence(asked),
            }
        }),
{
}

/// A set that one peer vouches for is settled exactly if coinset claims the same of it at the same
/// height; where coinset holds another it is a disagreement, and where it is silent the set stays
/// uncorroborated. A corroborated set stands.
pub proof fn law_coinset_settles_a_set_one_peer_vouches_for(
    answer: SetGrade,
    second: Option<Seq<RecordView>>,
    projection: SetProjection,
)
    ensures
        ({
            let outcome = settled_set(answer, second, projection);
            &&& answer.corroborated ==> outcome == Ok::<Seq<RecordView>, ErrorView>(answer.items)
            &&& !answer.corroborated && second is None ==> outcome is Err && outcome->Err_0
                == ErrorView::UncorroboratedPresence("no second source vouches for the set"@)
            &&& !answer.corroborated && second is Some ==> {
                let same = claims_of(answer.items).to_set() == claims_of(
                    normalised(second->0, answer.as_of_height).filter(wanted(projection)),
                ).to_set();
                &&& same ==> outcome == Ok::<Seq<RecordView>, ErrorView>(answer.items)
                &&& !same ==> outcome is Err && outcome->Err_0 is SourcesDisagree
            }
        }),
{
    if second is Some {
        law_agreement_is_set_equality(
            "peers"@,
            claims_of(answer.items),
            "coinset"@,
            claims_of(seen_at(second->0, answer.as_of_height, projection)),
        );
    }
}

/// A refusal goes by its stated reason, and by its status only where no reason is stated.
pub proof fn law_a_refusal_goes_by_its_reason(status: TxStatus)
    ensures
        status.error is Some ==> refusal(status) == status.error->0@,
        status.error is None ==> refusal(status) == status.status@,
{
}

/// A read goes to two peers, one after the other, then to coinset if that may be asked, and then
/// fails as the last peer did. Peers that contradict each other end it at once.
pub proof fn law_a_read_goes_from_peer_to_peer_to_coinset(
    route: Route,
    error: ChiaQueryError,
    step: RouteStep,
)
    requires
        route.failed() < 2,
        call_ensures(Route::peer_failed, (route, error), step),
    ensures
        error is SourcesDisagree || (route.failed() == 1 && !route.may_fall_back()) <==> step is Fail,
        step matches RouteStep::Fail(e) ==> e == error,
        route.failed() == 0 && !(error is SourcesDisagree) ==> step is AskPeer
            && step->AskPeer_0.failed() == 1,
        route.failed() == 1 && !(error is SourcesDisagree) && route.may_fall_back()
            ==> step is AskCoinset && step->AskCoinset_0.failed() == 2,
        step matches RouteStep::AskPeer(next) ==> next.last() == Some(error@)
            && next.may_fall_back() == route.may_fall_back(),
        step matches RouteStep::AskCoinset(next) ==> next.last() == Some(error@),
{
}

/// A push is reported by the first peer that admits it or refuses it for what it is, and by the
/// second whatever it says. It never goes to coinset.
pub proof fn law_a_push_is_reported_by_one_of_two_peers(
    route: Route,
    status: TxStatus,
    step: PushStep,
)
    requires
        route.failed() < 2,
        call_ensures(Route::pushed, (route, status), step),
    ensures
        step is Report <==> route.failed() == 1 || status.inclusion is Admitted || (
        status.error is Some && is_intrinsic(status.error->0@)),
        step matches PushStep::Report(reported) ==> reported == status,
        step matches PushStep::AskPeer(next) ==> next.failed() == 1 && next.last() == Some(
            ErrorView::PeerRejection(
                match status.error {
                    Some(reason) => reason@,
                    None => status.status@,
                },
            ),
        ) && next.may_fall_back() == route.may_fall_back(),
{
}

/// A read that coinset failed as well tells how the last peer failed it, and how coinset did.
pub proof fn law_a_failed_read_tells_both_failures(
    route: Route,
    error: ChiaQueryError,
    failure: ChiaQueryError,
)
    requires
        call_ensures(Route::coinset_failed, (route, error), failure),
    ensures
        failure is AllSourcesFailed,
        failure@.text() == "all sources failed: peers: "@ + route.last()->0.text() + "; coinset: "@
            + error@.text(),
{
}

/// Coinset is asked for a second opinion exactly if it may be, and if the peers have not settled the
/// answer among themselves.
pub proof fn law_coinset_is_asked_only_about_what_is_open<T>(
    answer: OptAnswer<T>,
    set: SetAnswer<CoinRecord>,
    enabled: bool,
    wanted: bool,
    set_wanted: bool,
)
    requires
        call_ensures(wants_second::<T>, (&answer, enabled), wanted),
        call_ensures(set_wants_second, (&set, enabled), set_wanted),
    ensures
        answer is Found || answer is CorroboratedAbsent ==> !wanted,
        answer is UncorroboratedFound || answer is UncorroboratedAbsent ==> wanted == enabled,
        set is Corroborated ==> !set_wanted,
        set is Uncorroborated ==> set_wanted == enabled,
{
}

/// What one source reports counts as one voice, what must be there and is not is an error, and what
/// only coinset can answer is refused without it.
pub proof fn law_one_source_is_one_voice<T>(
    found: Option<T>,
    answer: OptAnswer<T>,
    words: &str,
    taken: Result<T, ChiaQueryError>,
    enabled: bool,
    allowed: Result<(), ChiaQueryError>,
)
    requires
        call_ensures(one_voice::<T>, (found,), answer),
        call_ensures(required::<T>, (found, words), taken),
        call_ensures(require_coinset, (enabled, words), allowed),
    ensures
        found matches Some(value) ==> answer == OptAnswer::UncorroboratedFound(value),
        found is None ==> answer is UncorroboratedAbsent,
        taken is Ok <==> found is Some,
        taken is Ok ==> taken->Ok_0 == found->0,
        taken is Err ==> taken->Err_0@ == ErrorView::PeerRejection(words@),
        allowed is Ok <==> enabled,
        allowed is Err ==> allowed->Err_0@ == ErrorView::UnsupportedWithoutCoinset(words@),
{
}

/// A source is asked for a spend at the height the record says, and only of a coin that is spent.
pub proof fn law_only_a_spent_coin_has_a_height_to_ask_for(
    record: Option<CoinRecord>,
    height: Option<u32>,
)
    requires
        call_ensures(spent_at, (&record,), height),
    ensures
        height is Some <==> record is Some && (record->0).spent,
        height is Some ==> height->0 == (record->0).spent_block_index,
{
}

} // verus!
