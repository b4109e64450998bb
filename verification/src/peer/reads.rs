//! What each kind of peer reply amounts to.
//!
//! A read is a request and a judgement of what came back. The caller sends; these functions judge.

use vstd::prelude::*;

use crate::hexadecimal::{hex32, hex_of, law_hex_reads_back, parse_bytes32, prefixed, read_bytes32};
use crate::protocol::{Bytes32, Coin, CoinState, PuzzleSolution};
use crate::types::{
    records_view, AdditionsAndRemovals, BlockRecord, ChiaQueryError, CoinRecord, CoinSpend,
    CoinView, ErrorView, RecordView, SpendView,
};

use super::puzzle::{program_hash, reveal_check, verify_reveal_against_puzzle_hash};
use super::set_agreement::HeightedSet;
use super::translate::{
    additions_removals_to_response, coin_state_to_record, coin_states_to_records, created_records,
    listed, make_coin_spend, record_of, records_of, sent, spent_records,
};

verus! {

/// What came back of a request.
pub enum Reply<T> {
    /// Nothing, in the time allowed.
    TimedOut,
    /// The connection failed, with this text.
    Failed(String),
    /// The peer refused the request.
    Rejected,
    Answered(T),
}

/// A reply as a result, with `timed_out` and `rejected` as the texts of those two outcomes.
pub open spec fn taken<T>(
    reply: Reply<T>,
    timed_out: Seq<char>,
    rejected: Seq<char>,
) -> Result<T, ErrorView> {
    match reply {
        Reply::TimedOut => Err(ErrorView::PeerConnection(timed_out)),
        Reply::Failed(text) => Err(ErrorView::PeerConnection(text@)),
        Reply::Rejected => Err(ErrorView::PeerRejection(rejected)),
        Reply::Answered(value) => Ok(value),
    }
}

/// A reply as a result.
pub fn take<T>(reply: Reply<T>, timed_out: &str, rejected: &str) -> (outcome: Result<
    T,
    ChiaQueryError,
>)
    ensures
        match outcome {
            Ok(value) => taken(reply, timed_out@, rejected@) == Ok::<T, ErrorView>(value),
            Err(e) => taken(reply, timed_out@, rejected@) == Err::<T, ErrorView>(e@),
        },
{
    match reply {
        Reply::TimedOut => Err(ChiaQueryError::PeerConnection(String::from_str(timed_out))),
        Reply::Failed(text) => Err(ChiaQueryError::PeerConnection(text)),
        Reply::Rejected => Err(ChiaQueryError::PeerRejection(String::from_str(rejected))),
        Reply::Answered(value) => Ok(value),
    }
}

/// What came back of a request that a peer cannot refuse.
pub enum Response<T> {
    /// Nothing, in the time allowed.
    TimedOut,
    /// The connection failed, with this text.
    Failed(String),
    Answered(T),
}

/// A response as a result.
pub open spec fn received<T>(response: Response<T>) -> Result<T, ErrorView> {
    match response {
        Response::TimedOut => Err(ErrorView::PeerConnection("request timed out"@)),
        Response::Failed(text) => Err(ErrorView::PeerConnection(text@)),
        Response::Answered(value) => Ok(value),
    }
}

/// A response as a result.
pub fn receive<T>(response: Response<T>) -> (outcome: Result<T, ChiaQueryError>)
    ensures
        match outcome {
            Ok(value) => received(response) == Ok::<T, ErrorView>(value),
            Err(e) => received(response) == Err::<T, ErrorView>(e@),
        },
{
    match response {
        Response::TimedOut => Err(
            ChiaQueryError::PeerConnection(String::from_str("request timed out")),
        ),
        Response::Failed(text) => Err(ChiaQueryError::PeerConnection(text)),
        Response::Answered(value) => Ok(value),
    }
}

/// What a reply says of one coin.
pub open spec fn coin_read(reply: Reply<Vec<CoinState>>) -> Result<Option<RecordView>, ErrorView> {
    match taken(reply, "request timed out"@, "coin state request rejected"@) {
        Ok(states) => Ok(
            if states@.len() > 0 {
                Some(record_of(states@[0]))
            } else {
                None
            },
        ),
        Err(e) => Err(e),
    }
}

/// A coin, where a peer that does not know it merely says so.
pub fn coin_record_opt(reply: Reply<Vec<CoinState>>) -> (record: Result<
    Option<CoinRecord>,
    ChiaQueryError,
>)
    ensures
        match record {
            Ok(Some(r)) => coin_read(reply) == Ok::<Option<RecordView>, ErrorView>(Some(r@)),
            Ok(None) => coin_read(reply) == Ok::<Option<RecordView>, ErrorView>(None),
            Err(e) => coin_read(reply) == Err::<Option<RecordView>, ErrorView>(e@),
        },
{
    let states = match take(reply, "request timed out", "coin state request rejected") {
        Ok(states) => states,
        Err(e) => return Err(e),
    };
    if states.len() > 0 {
        Ok(Some(coin_state_to_record(&states[0])))
    } else {
        Ok(None)
    }
}

/// A coin that the peer must know.
pub fn coin_record(reply: Reply<Vec<CoinState>>) -> (record: Result<CoinRecord, ChiaQueryError>)
    ensures
        match record {
            Ok(r) => coin_read(reply) == Ok::<Option<RecordView>, ErrorView>(Some(r@)),
            Err(e) => match coin_read(reply) {
                Ok(known) => known is None && e@ == ErrorView::PeerRejection("coin not found"@),
                Err(failure) => e@ == failure,
            },
        },
{
    match coin_record_opt(reply) {
        Ok(Some(record)) => Ok(record),
        Ok(None) => Err(ChiaQueryError::PeerRejection(String::from_str("coin not found"))),
        Err(e) => Err(e),
    }
}

/// The records of a batch of coins, as one peer sends them.
pub fn coin_records(reply: Reply<Vec<CoinState>>) -> (records: Result<
    Vec<CoinRecord>,
    ChiaQueryError,
>)
    ensures
        match (records, taken(reply, "request timed out"@, "coin state request rejected"@)) {
            (Ok(r), Ok(states)) => records_view(r@) == records_of(states@),
            (Err(e), Err(failure)) => e@ == failure,
            _ => false,
        },
{
    match take(reply, "request timed out", "coin state request rejected") {
        Ok(states) => Ok(coin_states_to_records(states.as_slice())),
        Err(e) => Err(e),
    }
}

/// The children of a coin, as one peer sends them.
pub fn children(response: Response<Vec<CoinState>>) -> (records: Result<
    Vec<CoinRecord>,
    ChiaQueryError,
>)
    ensures
        match (records, received(response)) {
            (Ok(r), Ok(states)) => records_view(r@) == records_of(states@),
            (Err(e), Err(failure)) => e@ == failure,
            _ => false,
        },
{
    match receive(response) {
        Ok(states) => Ok(coin_states_to_records(states.as_slice())),
        Err(e) => Err(e),
    }
}

/// Holds records that carry no height of their own to the peak their peer announced.
pub fn anchor_to_peak(records: Result<Vec<CoinRecord>, ChiaQueryError>, announced: Option<u32>) -> (
    set: Result<HeightedSet<CoinRecord>, ChiaQueryError>)
    ensures
        match (set, records) {
            (Ok(s), Ok(r)) => s.items == r && announced == Some(s.as_of_height),
            (Err(e), Ok(_)) => announced is None && e@ == ErrorView::PeerConnection(
                "peer has announced no peak, so its answer cannot be held to a height"@,
            ),
            (Err(e), Err(failure)) => e == failure,
            _ => false,
        },
{
    let items = match records {
        Ok(items) => items,
        Err(e) => return Err(e),
    };
    match peer_as_of(announced) {
        Ok(as_of_height) => Ok(HeightedSet { items, as_of_height }),
        Err(e) => Err(e),
    }
}

/// The coin whose spend is to be asked for next, as far as a reply tells.
pub open spec fn known_state(reply: Reply<Vec<CoinState>>) -> Result<Option<CoinState>, ErrorView> {
    match taken(reply, "request timed out"@, "coin state rejected"@) {
        Ok(states) => Ok(
            if states@.len() > 0 {
                Some(states@[0])
            } else {
                None
            },
        ),
        Err(e) => Err(e),
    }
}

/// The coin a reply is about, if the peer knows it.
fn known(reply: Reply<Vec<CoinState>>) -> (state: Result<Option<CoinState>, ChiaQueryError>)
    ensures
        match state {
            Ok(s) => known_state(reply) == Ok::<Option<CoinState>, ErrorView>(s),
            Err(e) => known_state(reply) == Err::<Option<CoinState>, ErrorView>(e@),
        },
{
    let states = match take(reply, "request timed out", "coin state rejected") {
        Ok(states) => states,
        Err(e) => return Err(e),
    };
    if states.len() > 0 {
        Ok(Some(states[0]))
    } else {
        Ok(None)
    }
}

/// The coin to ask the spend of, and the height to ask for, where there must be one.
pub fn spent_coin(reply: Reply<Vec<CoinState>>) -> (spend: Result<(Coin, u32), ChiaQueryError>)
    ensures
        match (spend, known_state(reply)) {
            (Ok(s), Ok(Some(state))) => s.0 == state.coin && state.spent_height == Some(s.1),
            (Err(e), Ok(None)) => e@ == ErrorView::PeerRejection("coin not found"@),
            (Err(e), Ok(Some(state))) => state.spent_height is None && e@
                == ErrorView::PeerRejection("coin is not spent"@),
            (Err(e), Err(failure)) => e@ == failure,
            _ => false,
        },
{
    match known(reply) {
        Ok(Some(state)) => match state.spent_height {
            Some(height) => Ok((state.coin, height)),
            None => Err(ChiaQueryError::PeerRejection(String::from_str("coin is not spent"))),
        },
        Ok(None) => Err(ChiaQueryError::PeerRejection(String::from_str("coin not found"))),
        Err(e) => Err(e),
    }
}

/// What a peer sends as the spend of the coin `id`, written `coin_id` by the caller.
///
/// A peer that refuses has no such spend on its word. One that answers about another coin is
/// refuted: it could otherwise answer every question with the one spend it holds.
pub open spec fn spend_read(
    id: Bytes32,
    coin_id: Seq<char>,
    reply: Reply<PuzzleSolution>,
) -> Result<Option<PuzzleSolution>, ErrorView> {
    match reply {
        Reply::TimedOut => Err(ErrorView::PeerConnection("request timed out"@)),
        Reply::Failed(text) => Err(ErrorView::PeerConnection(text@)),
        Reply::Rejected => Ok(None),
        Reply::Answered(solution) => if solution.coin_name == id {
            Ok(Some(solution))
        } else {
            Err(
                ErrorView::PeerRejection(
                    "peer answered about coin "@ + prefixed(solution.coin_name@)
                        + " when asked about "@ + coin_id,
                ),
            )
        },
    }
}

/// Binds a spend to the coin it was asked for.
pub fn bound_solution(id: &Bytes32, coin_id: &str, reply: Reply<PuzzleSolution>) -> (solution:
    Result<Option<PuzzleSolution>, ChiaQueryError>)
    ensures
        match solution {
            Ok(s) => spend_read(*id, coin_id@, reply) == Ok::<Option<PuzzleSolution>, ErrorView>(s),
            Err(e) => spend_read(*id, coin_id@, reply) == Err::<Option<PuzzleSolution>, ErrorView>(
                e@,
            ),
        },
{
    match reply {
        Reply::TimedOut => Err(
            ChiaQueryError::PeerConnection(String::from_str("request timed out")),
        ),
        Reply::Failed(text) => Err(ChiaQueryError::PeerConnection(text)),
        Reply::Rejected => Ok(None),
        Reply::Answered(solution) => if solution.coin_name == *id {
            Ok(Some(solution))
        } else {
            let other = hex32(&solution.coin_name);
            let message = String::from_str("peer answered about coin ").concat(
                other.as_str(),
            ).concat(" when asked about ").concat(coin_id);
            Err(ChiaQueryError::PeerRejection(message))
        },
    }
}

/// The spend of `coin` with the program and solution a peer sent.
pub open spec fn spend_of(coin: Coin, solution: PuzzleSolution) -> SpendView {
    SpendView {
        coin: CoinView::of(coin),
        puzzle_reveal: prefixed(solution.puzzle@),
        solution: prefixed(solution.solution@),
    }
}

/// What the spend of the genuine `coin` comes to: the reply bound to the coin, and the reveal
/// checked against the coin's own puzzle hash.
pub open spec fn spend_outcome(
    coin: Coin,
    id: Bytes32,
    coin_id: Seq<char>,
    reply: Reply<PuzzleSolution>,
) -> Result<Option<SpendView>, ErrorView> {
    match spend_read(id, coin_id, reply) {
        Err(e) => Err(e),
        Ok(None) => Ok(None),
        Ok(Some(solution)) => match reveal_check(spend_of(coin, solution)) {
            Err(e) => Err(e),
            Ok(()) => Ok(Some(spend_of(coin, solution))),
        },
    }
}

/// The spend of the genuine `coin`, with its reveal checked.
pub fn coin_spend_opt(
    coin: &Coin,
    id: &Bytes32,
    coin_id: &str,
    reply: Reply<PuzzleSolution>,
) -> (spend: Result<Option<CoinSpend>, ChiaQueryError>)
    ensures
        match spend {
            Ok(Some(s)) => spend_outcome(*coin, *id, coin_id@, reply) == Ok::<
                Option<SpendView>,
                ErrorView,
            >(Some(s@)),
            Ok(None) => spend_outcome(*coin, *id, coin_id@, reply) == Ok::<
                Option<SpendView>,
                ErrorView,
            >(None),
            Err(e) => spend_outcome(*coin, *id, coin_id@, reply) == Err::<
                Option<SpendView>,
                ErrorView,
            >(e@),
        },
{
    let solution = match bound_solution(id, coin_id, reply) {
        Ok(Some(solution)) => solution,
        Ok(None) => return Ok(None),
        Err(e) => return Err(e),
    };
    let spend = make_coin_spend(coin, solution.puzzle.as_slice(), solution.solution.as_slice());
    match verify_reveal_against_puzzle_hash(&spend) {
        Ok(()) => Ok(Some(spend)),
        Err(e) => Err(e),
    }
}

/// The spend of the genuine `coin`, where there must be one.
pub fn coin_spend(coin: &Coin, id: &Bytes32, coin_id: &str, reply: Reply<PuzzleSolution>) -> (
    spend: Result<CoinSpend, ChiaQueryError>)
    ensures
        match (spend, spend_outcome(*coin, *id, coin_id@, reply)) {
            (Ok(s), Ok(Some(view))) => s@ == view,
            (Err(e), Ok(None)) => e@ == ErrorView::PeerRejection("puzzle solution rejected"@),
            (Err(e), Err(failure)) => e@ == failure,
            _ => false,
        },
{
    match coin_spend_opt(coin, id, coin_id, reply) {
        Ok(Some(spend)) => Ok(spend),
        Ok(None) => Err(
            ChiaQueryError::PeerRejection(String::from_str("puzzle solution rejected")),
        ),
        Err(e) => Err(e),
    }
}

/// A read of a coin's spend. The coin is asked for first, and its spend after it: at the height the
/// caller names, or else at the one the peer says it was spent at.
pub struct SpendRead {
    id: Bytes32,
    coin_id: String,
    height: Option<u32>,
}

/// A read of a coin's spend that has found the coin.
pub struct SolutionRead {
    coin: Coin,
    id: Bytes32,
    coin_id: String,
    height: u32,
}

/// What comes after the coin was asked for.
pub enum SpendStep {
    /// Its spend is to be asked for.
    Ask(SolutionRead),
    /// The read is over.
    Done(Result<Option<CoinSpend>, ChiaQueryError>),
}

impl SpendRead {
    /// The coin that is asked for.
    pub closed spec fn spec_id(&self) -> Bytes32 {
        self.id
    }

    /// How the caller writes it.
    pub closed spec fn name(&self) -> Seq<char> {
        self.coin_id@
    }

    /// The height the caller names, if one is named.
    pub closed spec fn height(&self) -> Option<u32> {
        self.height
    }

    /// A read of the spend of `coin_id`, at `height` if one is named.
    pub fn start(coin_id: &str, height: Option<u32>) -> (read: Result<Self, ChiaQueryError>)
        ensures
            match read {
                Ok(r) => {
                    &&& read_bytes32(coin_id@) == Ok::<Seq<u8>, ErrorView>(r.spec_id()@)
                    &&& r.name() == coin_id@
                    &&& r.height() == height
                },
                Err(e) => read_bytes32(coin_id@) == Err::<Seq<u8>, ErrorView>(e@),
            },
    {
        match parse_bytes32(coin_id) {
            Ok(id) => Ok(SpendRead { id, coin_id: String::from_str(coin_id), height }),
            Err(e) => Err(e),
        }
    }

    /// The coin that is asked for.
    pub fn id(&self) -> (id: Bytes32)
        ensures
            id == self.spec_id(),
    {
        self.id
    }

    /// Takes the state of the coin. A coin that the peer does not know, or that is not spent where
    /// no height is named, has no spend on that peer's word.
    pub fn found(self, reply: Reply<Vec<CoinState>>) -> (step: SpendStep)
        ensures
            match (step, known_state(reply)) {
                (SpendStep::Ask(next), Ok(Some(state))) => {
                    &&& next.coin() == state.coin
                    &&& next.spec_id() == self.spec_id() && next.name() == self.name()
                    &&& self.height() is Some ==> self.height() == Some(next.spec_height())
                    &&& self.height() is None ==> state.spent_height == Some(next.spec_height())
                },
                (SpendStep::Done(Ok(None)), Ok(Some(state))) => self.height() is None
                    && state.spent_height is None,
                (SpendStep::Done(Ok(None)), Ok(None)) => true,
                (SpendStep::Done(Err(e)), Err(failure)) => e@ == failure,
                _ => false,
            },
    {
        let state = match known(reply) {
            Ok(Some(state)) => state,
            Ok(None) => return SpendStep::Done(Ok(None)),
            Err(e) => return SpendStep::Done(Err(e)),
        };
        let height: u32 = match self.height {
            Some(height) => height,
            None => match state.spent_height {
                Some(height) => height,
                None => return SpendStep::Done(Ok(None)),
            },
        };
        SpendStep::Ask(
            SolutionRead { coin: state.coin, id: self.id, coin_id: self.coin_id, height },
        )
    }
}

/// Whether `read` is the read of the spend of the coin `id`, written `coin_id` by the caller, that
/// a reply about the coin leads to: a coin that the peer knows, at the height it was spent at. Else
/// it says why there is none.
pub open spec fn leads_to(
    id: Bytes32,
    coin_id: Seq<char>,
    reply: Reply<Vec<CoinState>>,
    read: Result<SolutionRead, ChiaQueryError>,
) -> bool {
    match (read, known_state(reply)) {
        (Ok(r), Ok(Some(state))) => {
            &&& r.coin() == state.coin
            &&& r.spec_id() == id && r.name() == coin_id
            &&& state.spent_height == Some(r.spec_height())
        },
        (Err(e), Ok(None)) => e@ == ErrorView::PeerRejection("coin not found"@),
        (Err(e), Ok(Some(state))) => state.spent_height is None && e@ == ErrorView::PeerRejection(
            "coin is not spent"@,
        ),
        (Err(e), Err(failure)) => e@ == failure,
        _ => false,
    }
}

/// Whether `spend` is what a read comes to where there must be a spend.
pub open spec fn is_due_spend(
    read: SolutionRead,
    reply: Reply<PuzzleSolution>,
    spend: Result<CoinSpend, ChiaQueryError>,
) -> bool {
    match (spend, spend_outcome(read.coin(), read.spec_id(), read.name(), reply)) {
        (Ok(s), Ok(Some(view))) => s@ == view,
        (Err(e), Ok(None)) => e@ == ErrorView::PeerRejection("puzzle solution rejected"@),
        (Err(e), Err(failure)) => e@ == failure,
        _ => false,
    }
}

impl SolutionRead {
    /// The coin, as the peer sent it.
    pub closed spec fn coin(&self) -> Coin {
        self.coin
    }

    /// A read of the spend of the coin a reply is about, which must be known and spent.
    pub fn start(id: Bytes32, coin_id: &str, reply: Reply<Vec<CoinState>>) -> (read: Result<
        Self,
        ChiaQueryError,
    >)
        ensures
            leads_to(id, coin_id@, reply, read),
    {
        match spent_coin(reply) {
            Ok((coin, height)) => Ok(
                SolutionRead { coin, id, coin_id: String::from_str(coin_id), height },
            ),
            Err(e) => Err(e),
        }
    }

    /// Takes the spend where there must be one.
    pub fn finish_due(self, reply: Reply<PuzzleSolution>) -> (spend: Result<
        CoinSpend,
        ChiaQueryError,
    >)
        ensures
            is_due_spend(self, reply, spend),
    {
        coin_spend(&self.coin, &self.id, self.coin_id.as_str(), reply)
    }

    /// The coin that was asked for.
    pub closed spec fn spec_id(&self) -> Bytes32 {
        self.id
    }

    /// How the caller writes it.
    pub closed spec fn name(&self) -> Seq<char> {
        self.coin_id@
    }

    /// The height its spend is asked for at.
    pub closed spec fn spec_height(&self) -> u32 {
        self.height
    }

    /// The coin whose spend is asked for.
    pub fn id(&self) -> (id: Bytes32)
        ensures
            id == self.spec_id(),
    {
        self.id
    }

    /// The height its spend is asked for at.
    pub fn height(&self) -> (height: u32)
        ensures
            height == self.spec_height(),
    {
        self.height
    }

    /// Takes the spend: of the coin that was asked for, and with its reveal checked.
    pub fn finish(self, reply: Reply<PuzzleSolution>) -> (spend: Result<
        Option<CoinSpend>,
        ChiaQueryError,
    >)
        ensures
            match (spend, spend_outcome(self.coin(), self.spec_id(), self.name(), reply)) {
                (Ok(Some(s)), Ok(Some(view))) => s@ == view,
                (Ok(None), Ok(None)) => true,
                (Err(e), Err(failure)) => e@ == failure,
                _ => false,
            },
    {
        coin_spend_opt(&self.coin, &self.id, self.coin_id.as_str(), reply)
    }
}

/// A block record, where a peer that refuses merely has no such block.
pub fn block_record_opt(reply: Reply<BlockRecord>) -> (record: Result<
    Option<BlockRecord>,
    ChiaQueryError,
>)
    ensures
        match (record, reply) {
            (Ok(Some(r)), Reply::Answered(sent)) => r == sent,
            (Ok(None), Reply::Rejected) => true,
            (Err(e), Reply::TimedOut) => e@ == ErrorView::PeerConnection("request timed out"@),
            (Err(e), Reply::Failed(text)) => e@ == ErrorView::PeerConnection(text@),
            _ => false,
        },
{
    match reply {
        Reply::TimedOut => Err(
            ChiaQueryError::PeerConnection(String::from_str("request timed out")),
        ),
        Reply::Failed(text) => Err(ChiaQueryError::PeerConnection(text)),
        Reply::Rejected => Ok(None),
        Reply::Answered(record) => Ok(Some(record)),
    }
}

/// A block record that the peer must have.
pub fn block_record(reply: Reply<BlockRecord>) -> (record: Result<BlockRecord, ChiaQueryError>)
    ensures
        match record {
            Ok(r) => taken(reply, "request timed out"@, "header request rejected"@) == Ok::<
                BlockRecord,
                ErrorView,
            >(r),
            Err(e) => taken(reply, "request timed out"@, "header request rejected"@) == Err::<
                BlockRecord,
                ErrorView,
            >(e@),
        },
{
    match block_record_opt(reply) {
        Ok(Some(record)) => Ok(record),
        Ok(None) => Err(ChiaQueryError::PeerRejection(String::from_str("header request rejected"))),
        Err(e) => Err(e),
    }
}

/// A read of one thing per height, from a height up to another.
pub struct RangeRead<T> {
    read: Vec<T>,
    start: u32,
    end: u32,
}

impl<T> RangeRead<T> {
    /// What has been read, in order of height.
    pub closed spec fn read(&self) -> Seq<T> {
        self.read@
    }

    /// The first height.
    pub closed spec fn from(&self) -> u32 {
        self.start
    }

    /// The height after the last.
    pub closed spec fn to(&self) -> u32 {
        self.end
    }

    /// No more has been read than there are heights.
    pub open spec fn wf(&self) -> bool {
        self.from() + self.read().len() <= self.to()
    }

    /// A read of everything from `start` up to `end`.
    pub fn start(start: u32, end: u32) -> (range: Self)
        requires
            start <= end,
        ensures
            range.wf(),
            range.read() == Seq::<T>::empty(),
            range.from() == start,
            range.to() == end,
    {
        RangeRead { read: Vec::new(), start, end }
    }

    /// The height to read next, if any is left.
    pub fn next(&self) -> (height: Option<u32>)
        requires
            self.wf(),
        ensures
            match height {
                Some(h) => h == self.from() + self.read().len() && h < self.to(),
                None => self.from() + self.read().len() == self.to(),
            },
    {
        let height: u32 = self.start + self.read.len() as u32;
        if height < self.end {
            Some(height)
        } else {
            None
        }
    }

    /// Takes what the next height came to. The first failure ends the read.
    pub fn take(self, outcome: Result<T, ChiaQueryError>) -> (range: Result<Self, ChiaQueryError>)
        requires
            self.wf(),
            self.from() + self.read().len() < self.to(),
        ensures
            match (range, outcome) {
                (Ok(r), Ok(value)) => {
                    &&& r.wf()
                    &&& r.read() == self.read().push(value)
                    &&& r.from() == self.from() && r.to() == self.to()
                },
                (Err(e), Err(failure)) => e == failure,
                _ => false,
            },
    {
        match outcome {
            Ok(value) => {
                let RangeRead { mut read, start, end } = self;
                read.push(value);
                Ok(RangeRead { read, start, end })
            },
            Err(e) => Err(e),
        }
    }

    /// Everything that was read, in order of height.
    pub fn finish(self) -> (read: Vec<T>)
        ensures
            read@ == self.read(),
    {
        self.read
    }
}

/// Whether `response` is what two replies list of a block, or which of them failed and how.
pub open spec fn is_listing(
    additions: Reply<Vec<(Bytes32, Vec<Coin>)>>,
    removals: Reply<Vec<(Bytes32, Option<Coin>)>>,
    height: u32,
    response: Result<AdditionsAndRemovals, ChiaQueryError>,
) -> bool {
    match (
        response,
        taken(additions, "additions request timed out"@, "additions rejected"@),
        taken(removals, "removals request timed out"@, "removals rejected"@),
    ) {
        (Ok(r), Ok(added), Ok(removed)) => records_view(r.additions@) == created_records(
            listed(added@),
            height,
            false,
            0,
        ) && records_view(r.removals@) == spent_records(sent(removed@), height),
        (Err(e), Err(failure), _) => e@ == failure,
        (Err(e), Ok(_), Err(failure)) => e@ == failure,
        _ => false,
    }
}

/// What a block added and removed, from the replies to two requests sent together. A failure of
/// the additions is reported before one of the removals.
pub fn additions_and_removals(
    additions: Reply<Vec<(Bytes32, Vec<Coin>)>>,
    removals: Reply<Vec<(Bytes32, Option<Coin>)>>,
    height: u32,
) -> (response: Result<AdditionsAndRemovals, ChiaQueryError>)
    ensures
        is_listing(additions, removals, height, response),
{
    let added = match take(additions, "additions request timed out", "additions rejected") {
        Ok(added) => added,
        Err(e) => return Err(e),
    };
    let removed = match take(removals, "removals request timed out", "removals rejected") {
        Ok(removed) => removed,
        Err(e) => return Err(e),
    };
    Ok(additions_removals_to_response(added.as_slice(), removed.as_slice(), height))
}

/// The as-of height of a peer whose reply carries none: the peak it announced.
pub fn peer_as_of(announced: Option<u32>) -> (as_of: Result<u32, ChiaQueryError>)
    ensures
        match as_of {
            Ok(height) => announced == Some(height),
            Err(e) => announced is None && e@ == ErrorView::PeerConnection(
                "peer has announced no peak, so its answer cannot be held to a height"@,
            ),
        },
{
    match announced {
        Some(height) => Ok(height),
        None => Err(
            ChiaQueryError::PeerConnection(
                String::from_str(
                    "peer has announced no peak, so its answer cannot be held to a height",
                ),
            ),
        ),
    }
}

/// A spend that is answered is about the coin that was asked for, and its puzzle is the one the
/// coin was locked with.
pub proof fn law_answered_spend_unlocks_its_coin(
    coin: Coin,
    id: Bytes32,
    coin_id: Seq<char>,
    reply: Reply<PuzzleSolution>,
)
    requires
        spend_outcome(coin, id, coin_id, reply) matches Ok(Some(_)),
    ensures
        reply is Answered,
        reply->Answered_0.coin_name == id,
        program_hash(reply->Answered_0.puzzle@) == Ok::<Seq<u8>, Seq<char>>(coin.puzzle_hash@),
{
    let solution = reply->Answered_0;
    law_hex_reads_back(coin.puzzle_hash@);
    law_hex_reads_back(solution.puzzle@);
}

/// What two peer replies list of a block stands as created at its height and unspent, or as spent at
/// its height: the coins of every group in order, and of the ids those that come with a coin.
pub proof fn law_listed_additions_are_new_and_removals_are_spent(
    added: Vec<(Bytes32, Vec<Coin>)>,
    removed: Vec<(Bytes32, Option<Coin>)>,
    height: u32,
    told: AdditionsAndRemovals,
)
    requires
        is_listing(Reply::Answered(added), Reply::Answered(removed), height, Ok(told)),
    ensures
        told.additions@.len() == listed(added@).len(),
        forall|i: int|
            0 <= i < told.additions@.len() ==> {
                let record = (#[trigger] told.additions@[i])@;
                let coin = listed(added@)[i];
                &&& !record.spent && record.spent_block_index == 0
                &&& record.confirmed_block_index == height
                &&& !record.coinbase && record.timestamp == 0
                &&& record.coin.parent_coin_info == "0x"@ + hex_of(coin.parent_coin_info@)
                &&& record.coin.puzzle_hash == "0x"@ + hex_of(coin.puzzle_hash@)
                &&& record.coin.amount == coin.amount
            },
        told.removals@.len() == sent(removed@).len(),
        forall|i: int|
            0 <= i < told.removals@.len() ==> {
                let record = (#[trigger] told.removals@[i])@;
                let coin = sent(removed@)[i];
                &&& record.spent && record.spent_block_index == height
                &&& record.confirmed_block_index == 0 && !record.coinbase && record.timestamp == 0
                &&& record.coin.parent_coin_info == "0x"@ + hex_of(coin.parent_coin_info@)
                &&& record.coin.puzzle_hash == "0x"@ + hex_of(coin.puzzle_hash@)
                &&& record.coin.amount == coin.amount
            },
{
    assert(records_view(told.additions@).len() == told.additions@.len());
    assert(records_view(told.removals@).len() == told.removals@.len());
    assert forall|i: int| 0 <= i < told.additions@.len() implies (#[trigger] told.additions@[i])@
        == records_view(told.additions@)[i] by {
    }
    assert forall|i: int| 0 <= i < told.removals@.len() implies (#[trigger] told.removals@[i])@
        == records_view(told.removals@)[i] by {
    }
}

/// Only an answer is taken, and as it was sent. A silence and a broken connection are faults of the
/// connection, a refusal is the peer's.
pub proof fn law_only_an_answer_is_taken<T>(
    reply: Reply<T>,
    response: Response<T>,
    timed_out: Seq<char>,
    rejected: Seq<char>,
)
    ensures
        ({
            let read = taken(reply, timed_out, rejected);
            &&& read is Ok <==> reply is Answered
            &&& reply is Answered ==> read->Ok_0 == reply->Answered_0
            &&& reply is Rejected <==> read is Err && read->Err_0 is PeerRejection
            &&& reply is Rejected ==> read->Err_0->PeerRejection_0 == rejected
            &&& reply is TimedOut || reply is Failed <==> read is Err && read->Err_0 is PeerConnection
            &&& reply is TimedOut ==> read->Err_0->PeerConnection_0 == timed_out
            &&& reply is Failed ==> read->Err_0->PeerConnection_0 == reply->Failed_0@
        }),
        ({
            let read = received(response);
            &&& read is Ok <==> response is Answered
            &&& response is Answered ==> read->Ok_0 == response->Answered_0
            &&& read is Err ==> read->Err_0 is PeerConnection
            &&& response is TimedOut ==> read->Err_0->PeerConnection_0 == "request timed out"@
            &&& response is Failed ==> read->Err_0->PeerConnection_0 == response->Failed_0@
        }),
{
}

/// A coin is read from the first state that is sent, and is absent exactly if none is sent. A peer
/// that fails or refuses has said nothing of it.
pub proof fn law_a_coin_is_read_from_the_first_state(reply: Reply<Vec<CoinState>>)
    ensures
        coin_read(reply) is Ok <==> reply is Answered,
        known_state(reply) is Ok <==> reply is Answered,
        reply matches Reply::Answered(states) ==> {
            &&& coin_read(reply)->Ok_0 is None <==> states@.len() == 0
            &&& known_state(reply)->Ok_0 is None <==> states@.len() == 0
            &&& states@.len() > 0 ==> {
                let record = coin_read(reply)->Ok_0->0;
                let first = states@[0];
                &&& known_state(reply)->Ok_0 == Some(first)
                &&& record.spent <==> first.spent_height is Some
                &&& record.spent_block_index == (match first.spent_height {
                    Some(height) => height,
                    None => 0,
                })
                &&& record.confirmed_block_index == (match first.created_height {
                    Some(height) => height,
                    None => 0,
                })
                &&& record.coin.parent_coin_info == "0x"@ + hex_of(first.coin.parent_coin_info@)
                &&& record.coin.puzzle_hash == "0x"@ + hex_of(first.coin.puzzle_hash@)
                &&& record.coin.amount == first.coin.amount
            }
        },
        reply is Rejected ==> coin_read(reply)->Err_0 == ErrorView::PeerRejection(
            "coin state request rejected"@,
        ) && known_state(reply)->Err_0 == ErrorView::PeerRejection("coin state rejected"@),
        reply is TimedOut ==> coin_read(reply)->Err_0 == ErrorView::PeerConnection(
            "request timed out"@,
        ) && known_state(reply)->Err_0 == ErrorView::PeerConnection("request timed out"@),
        reply matches Reply::Failed(text) ==> coin_read(reply)->Err_0 == ErrorView::PeerConnection(
            text@,
        ) && known_state(reply)->Err_0 == ErrorView::PeerConnection(text@),
{
}

/// A spend is accepted exactly if it is sent for the coin that was asked for and its puzzle hashes
/// to the puzzle hash of that coin; it is then told as it was sent. A refusal means that there is
/// none. A spend of another coin, or one whose puzzle cannot be the coin's, is the peer's fault.
pub proof fn law_exactly_the_coins_own_spend_is_accepted(
    coin: Coin,
    id: Bytes32,
    coin_id: Seq<char>,
    reply: Reply<PuzzleSolution>,
)
    ensures
        ({
            let outcome = spend_outcome(coin, id, coin_id, reply);
            &&& outcome == Ok::<Option<SpendView>, ErrorView>(None) <==> reply is Rejected
            &&& reply is TimedOut || reply is Failed ==> outcome is Err
                && outcome->Err_0 is PeerConnection
            &&& reply matches Reply::Answered(sent) ==> {
                let hash = program_hash(sent.puzzle@);
                let genuine = sent.coin_name == id && hash == Ok::<Seq<u8>, Seq<char>>(
                    coin.puzzle_hash@,
                );
                &&& genuine ==> outcome is Ok && outcome->Ok_0 is Some
                &&& genuine ==> {
                    let spend = outcome->Ok_0->0;
                    &&& spend.coin.parent_coin_info == "0x"@ + hex_of(coin.parent_coin_info@)
                    &&& spend.coin.puzzle_hash == "0x"@ + hex_of(coin.puzzle_hash@)
                    &&& spend.coin.amount == coin.amount
                    &&& spend.puzzle_reveal == "0x"@ + hex_of(sent.puzzle@)
                    &&& spend.solution == "0x"@ + hex_of(sent.solution@)
                }
                &&& !genuine ==> outcome is Err && outcome->Err_0 is PeerRejection
                &&& sent.coin_name != id ==> outcome->Err_0->PeerRejection_0
                    == "peer answered about coin "@ + ("0x"@ + hex_of(sent.coin_name@))
                    + " when asked about "@ + coin_id
            }
        }),
{
    if let Reply::Answered(sent) = reply {
        law_hex_reads_back(coin.puzzle_hash@);
        law_hex_reads_back(sent.puzzle@);
        assert(read_hex_is(coin.puzzle_hash@) && read_hex_is(sent.puzzle@));
    }
}

/// Whether what is written of `bytes` reads as `bytes`.
spec fn read_hex_is(bytes: Seq<u8>) -> bool {
    crate::hexadecimal::read_hex(prefixed(bytes)) == Ok::<Seq<u8>, ErrorView>(bytes)
}

/// The spend of a coin is asked for exactly if the peer knows the coin and says that it is spent:
/// the coin it sent first, under the id that was asked for, at the height it was spent at.
pub proof fn law_only_a_spent_coin_leads_to_its_spend(
    id: Bytes32,
    coin_id: Seq<char>,
    reply: Reply<Vec<CoinState>>,
    read: Result<SolutionRead, ChiaQueryError>,
)
    requires
        leads_to(id, coin_id, reply, read),
    ensures
        read is Ok <==> reply is Answered && reply->Answered_0@.len() > 0
            && reply->Answered_0@[0].spent_height is Some,
        read matches Ok(r) ==> {
            let first = reply->Answered_0@[0];
            &&& r.coin() == first.coin
            &&& r.spec_id() == id
            &&& r.name() == coin_id
            &&& Some(r.spec_height()) == first.spent_height
        },
        read is Err && reply is Answered ==> read->Err_0@ is PeerRejection,
        reply is TimedOut || reply is Failed ==> read->Err_0@ is PeerConnection,
{
}

/// Where there must be a spend, it is given exactly if it is the coin's own, and told as it was
/// sent; nothing else that is sent passes for it, and neither does a refusal.
pub proof fn law_a_due_spend_is_the_coins_own(
    read: SolutionRead,
    reply: Reply<PuzzleSolution>,
    spend: Result<CoinSpend, ChiaQueryError>,
)
    requires
        is_due_spend(read, reply, spend),
    ensures
        spend is Ok <==> reply is Answered && reply->Answered_0.coin_name == read.spec_id()
            && program_hash(reply->Answered_0.puzzle@) == Ok::<Seq<u8>, Seq<char>>(
            read.coin().puzzle_hash@,
        ),
        spend matches Ok(s) ==> s@.puzzle_reveal == "0x"@ + hex_of(reply->Answered_0.puzzle@)
            && s@.solution == "0x"@ + hex_of(reply->Answered_0.solution@) && s@.coin.amount
            == read.coin().amount && s@.coin.parent_coin_info == "0x"@ + hex_of(
            read.coin().parent_coin_info@,
        ) && s@.coin.puzzle_hash == "0x"@ + hex_of(read.coin().puzzle_hash@),
        reply is Rejected ==> spend->Err_0@ == ErrorView::PeerRejection(
            "puzzle solution rejected"@,
        ),
{
    law_exactly_the_coins_own_spend_is_accepted(
        read.coin(),
        read.spec_id(),
        read.name(),
        reply,
    );
}

/// What a block added and removed is listed exactly if both replies answer. Where both fail, the
/// additions are what is reported.
pub proof fn law_a_listing_needs_both_replies(
    additions: Reply<Vec<(Bytes32, Vec<Coin>)>>,
    removals: Reply<Vec<(Bytes32, Option<Coin>)>>,
    height: u32,
    response: Result<AdditionsAndRemovals, ChiaQueryError>,
)
    requires
        is_listing(additions, removals, height, response),
    ensures
        response is Ok <==> additions is Answered && removals is Answered,
        additions is Rejected ==> response->Err_0@ == ErrorView::PeerRejection(
            "additions rejected"@,
        ),
        additions is TimedOut ==> response->Err_0@ == ErrorView::PeerConnection(
            "additions request timed out"@,
        ),
        additions matches Reply::Failed(text) ==> response->Err_0@ == ErrorView::PeerConnection(
            text@,
        ),
        additions is Answered && removals is Rejected ==> response->Err_0@
            == ErrorView::PeerRejection("removals rejected"@),
        additions is Answered && removals is TimedOut ==> response->Err_0@
            == ErrorView::PeerConnection("removals request timed out"@),
        additions is Answered ==> (removals matches Reply::Failed(text) ==> response->Err_0@
            == ErrorView::PeerConnection(text@)),
{
}

/// A coin that must be known is told exactly if the peer sent a state, and that it was not found is
/// told exactly if it sent none.
pub proof fn law_an_unknown_coin_is_not_found(
    reply: Reply<Vec<CoinState>>,
    record: Result<CoinRecord, ChiaQueryError>,
    optional: Result<Option<CoinRecord>, ChiaQueryError>,
)
    requires
        call_ensures(coin_record, (reply,), record),
        call_ensures(coin_record_opt, (reply,), optional),
    ensures
        record is Ok <==> reply is Answered && reply->Answered_0@.len() > 0,
        optional is Ok <==> reply is Answered,
        optional is Ok ==> (optional->Ok_0 is None <==> reply->Answered_0@.len() == 0),
        reply is Answered && reply->Answered_0@.len() == 0 ==> record->Err_0@
            == ErrorView::PeerRejection("coin not found"@),
        record is Ok ==> record->Ok_0@.coin.amount == reply->Answered_0@[0].coin.amount
            && record->Ok_0.spent == (reply->Answered_0@[0].spent_height is Some),
        optional is Err ==> record->Err_0@ == optional->Err_0@,
{
}

/// Coins that are asked for together, and the children of a coin, come back one record for each state
/// that was sent.
pub proof fn law_every_state_sent_comes_back(
    reply: Reply<Vec<CoinState>>,
    records: Result<Vec<CoinRecord>, ChiaQueryError>,
    response: Response<Vec<CoinState>>,
    offspring: Result<Vec<CoinRecord>, ChiaQueryError>,
)
    requires
        call_ensures(coin_records, (reply,), records),
        call_ensures(children, (response,), offspring),
    ensures
        records is Ok <==> reply is Answered,
        records is Ok ==> records->Ok_0@.len() == reply->Answered_0@.len() && forall|i: int|
            0 <= i < records->Ok_0@.len() ==> (#[trigger] records->Ok_0@[i]).coin.amount
                == reply->Answered_0@[i].coin.amount && records->Ok_0@[i].spent == (
            reply->Answered_0@[i].spent_height is Some),
        offspring is Ok <==> response is Answered,
        offspring is Ok ==> offspring->Ok_0@.len() == response->Answered_0@.len() && forall|i: int|
            0 <= i < offspring->Ok_0@.len() ==> (#[trigger] offspring->Ok_0@[i]).coin.amount
                == response->Answered_0@[i].coin.amount && offspring->Ok_0@[i].spent == (
            response->Answered_0@[i].spent_height is Some),
{
    if records is Ok && reply is Answered {
        let views = records_view(records->Ok_0@);
        assert(views.len() == records->Ok_0@.len());
        assert forall|i: int| 0 <= i < records->Ok_0@.len() implies (
        #[trigger] records->Ok_0@[i]).coin.amount == reply->Answered_0@[i].coin.amount
            && records->Ok_0@[i].spent == (reply->Answered_0@[i].spent_height is Some) by {
            assert(views[i] == records->Ok_0@[i]@);
        }
    }
    if offspring is Ok && response is Answered {
        let views = records_view(offspring->Ok_0@);
        assert(views.len() == offspring->Ok_0@.len());
        assert forall|i: int| 0 <= i < offspring->Ok_0@.len() implies (
        #[trigger] offspring->Ok_0@[i]).coin.amount == response->Answered_0@[i].coin.amount
            && offspring->Ok_0@[i].spent == (response->Answered_0@[i].spent_height is Some) by {
            assert(views[i] == offspring->Ok_0@[i]@);
        }
    }
}

/// Records that carry no height are held to the peak their peer announced, as they are; a peer that
/// announced none cannot be held to any.
pub proof fn law_records_are_held_to_an_announced_peak(
    records: Result<Vec<CoinRecord>, ChiaQueryError>,
    announced: Option<u32>,
    set: Result<HeightedSet<CoinRecord>, ChiaQueryError>,
)
    requires
        call_ensures(anchor_to_peak, (records, announced), set),
    ensures
        set is Ok <==> records is Ok && announced is Some,
        set is Ok ==> set->Ok_0.items == records->Ok_0 && set->Ok_0.as_of_height == announced->0,
        records is Err ==> set->Err_0 == records->Err_0,
        records is Ok && announced is None ==> set->Err_0@ is PeerConnection,
{
}

/// A block record is what was sent; a refusal means that there is none, and is an error only where
/// there must be one.
pub proof fn law_a_refused_block_is_absent(
    reply: Reply<BlockRecord>,
    optional: Result<Option<BlockRecord>, ChiaQueryError>,
    due: Result<BlockRecord, ChiaQueryError>,
)
    requires
        call_ensures(block_record_opt, (reply,), optional),
        call_ensures(block_record, (reply,), due),
    ensures
        optional is Ok <==> reply is Answered || reply is Rejected,
        reply is Rejected ==> optional->Ok_0 is None && due->Err_0@ == ErrorView::PeerRejection(
            "header request rejected"@,
        ),
        reply matches Reply::Answered(sent) ==> optional->Ok_0 == Some(sent) && due is Ok && due->Ok_0
            == sent,
        due is Ok <==> reply is Answered,
        reply is TimedOut || reply is Failed ==> optional->Err_0@ is PeerConnection
            && due->Err_0@ is PeerConnection,
{
}

/// The spend of a coin is asked for at the height the caller names, or else at the one the peer says
/// it was spent at. A coin the peer does not know, or says is unspent where no height is named, has
/// no spend.
pub proof fn law_a_spend_is_asked_for_at_its_height(
    read: SpendRead,
    reply: Reply<Vec<CoinState>>,
    step: SpendStep,
)
    requires
        call_ensures(SpendRead::found, (read, reply), step),
    ensures
        ({
            let known = reply is Answered && reply->Answered_0@.len() > 0;
            let state = reply->Answered_0@[0];
            let asks = known && (read.height() is Some || state.spent_height is Some);
            &&& step is Ask <==> asks
            &&& step matches SpendStep::Ask(next) ==> {
                &&& next.coin() == state.coin
                &&& next.spec_id() == read.spec_id()
                &&& next.name() == read.name()
                &&& read.height() matches Some(height) ==> next.spec_height() == height
                &&& read.height() is None ==> next.spec_height() == state.spent_height->0
            }
            &&& reply is Answered && !asks ==> step->Done_0 is Ok && step->Done_0->Ok_0 is None
            &&& !(reply is Answered) ==> step->Done_0 is Err
        }),
{
}

/// A range is read height by height from its first height up to its last: each height once and in
/// order, and none beyond the end.
pub proof fn law_a_range_is_read_height_by_height<T>(
    range: RangeRead<T>,
    height: Option<u32>,
    outcome: Result<T, ChiaQueryError>,
    after: Result<RangeRead<T>, ChiaQueryError>,
)
    requires
        range.wf(),
        call_ensures(RangeRead::<T>::next, (&range,), height),
        call_ensures(RangeRead::<T>::take, (range, outcome), after),
    ensures
        height is Some <==> range.from() + range.read().len() < range.to(),
        height matches Some(h) ==> h == range.from() + range.read().len(),
        after is Ok <==> outcome is Ok,
        after is Err ==> after->Err_0 == outcome->Err_0,
        after is Ok ==> after->Ok_0.read() == range.read().push(outcome->Ok_0)
            && after->Ok_0.from() == range.from() && after->Ok_0.to() == range.to(),
{
}

} // verus!
