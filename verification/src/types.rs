//! What queries answer with. Hashes and byte strings are `0x`-prefixed hex.

use vstd::prelude::*;

use crate::hexadecimal::{hex32, prefixed};
use crate::json::Value;
use crate::protocol;

verus! {

/// Why a query could not be answered.
#[derive(Debug, PartialEq, Eq)]
pub enum ChiaQueryError {
    /// A peer refused the request, or its answer was refused.
    PeerRejection(String),
    /// A peer could not be reached, or did not answer in time.
    PeerConnection(String),
    /// coinset answered with an error.
    CoinsetApiError(String),
    /// coinset could not be reached.
    CoinsetHttp(String),
    /// Neither the peers nor coinset answered.
    AllSourcesFailed { peer: String, coinset: String },
    /// The request itself is malformed.
    InvalidRequest(String),
    /// The TLS identity could not be established.
    TlsError(String),
    /// No peer was found.
    PeerDiscoveryFailed,
    /// The endpoint needs coinset, which is disabled.
    UnsupportedWithoutCoinset(String),
    /// Two sources contradict each other.
    SourcesDisagree(String),
    /// Only one source vouches for what it reports present.
    UncorroboratedPresence(String),
    /// Only one source vouches for what it reports absent.
    UncorroboratedAbsence(String),
}

/// [`ChiaQueryError`] with its texts as characters.
#[verifier::ext_equal]
pub enum ErrorView {
    PeerRejection(Seq<char>),
    PeerConnection(Seq<char>),
    CoinsetApiError(Seq<char>),
    CoinsetHttp(Seq<char>),
    AllSourcesFailed { peer: Seq<char>, coinset: Seq<char> },
    InvalidRequest(Seq<char>),
    TlsError(Seq<char>),
    PeerDiscoveryFailed,
    UnsupportedWithoutCoinset(Seq<char>),
    SourcesDisagree(Seq<char>),
    UncorroboratedPresence(Seq<char>),
    UncorroboratedAbsence(Seq<char>),
}

impl View for ChiaQueryError {
    type V = ErrorView;

    open spec fn view(&self) -> ErrorView {
        match *self {
            ChiaQueryError::PeerRejection(text) => ErrorView::PeerRejection(text@),
            ChiaQueryError::PeerConnection(text) => ErrorView::PeerConnection(text@),
            ChiaQueryError::CoinsetApiError(text) => ErrorView::CoinsetApiError(text@),
            ChiaQueryError::CoinsetHttp(text) => ErrorView::CoinsetHttp(text@),
            ChiaQueryError::AllSourcesFailed { peer, coinset } => ErrorView::AllSourcesFailed {
                peer: peer@,
                coinset: coinset@,
            },
            ChiaQueryError::InvalidRequest(text) => ErrorView::InvalidRequest(text@),
            ChiaQueryError::TlsError(text) => ErrorView::TlsError(text@),
            ChiaQueryError::PeerDiscoveryFailed => ErrorView::PeerDiscoveryFailed,
            ChiaQueryError::UnsupportedWithoutCoinset(text) => ErrorView::UnsupportedWithoutCoinset(
                text@,
            ),
            ChiaQueryError::SourcesDisagree(text) => ErrorView::SourcesDisagree(text@),
            ChiaQueryError::UncorroboratedPresence(text) => ErrorView::UncorroboratedPresence(
                text@,
            ),
            ChiaQueryError::UncorroboratedAbsence(text) => ErrorView::UncorroboratedAbsence(text@),
        }
    }
}

impl ErrorView {
    /// The message shown for the error.
    pub open spec fn text(self) -> Seq<char> {
        match self {
            ErrorView::PeerRejection(m) => "peer rejected the request: "@ + m,
            ErrorView::PeerConnection(m) => "peer connection failed: "@ + m,
            ErrorView::CoinsetApiError(m) => "coinset answered with an error: "@ + m,
            ErrorView::CoinsetHttp(m) => "coinset could not be reached: "@ + m,
            ErrorView::AllSourcesFailed { peer, coinset } => "all sources failed: peers: "@ + peer
                + "; coinset: "@ + coinset,
            ErrorView::InvalidRequest(m) => "invalid request: "@ + m,
            ErrorView::TlsError(m) => "TLS error: "@ + m,
            ErrorView::PeerDiscoveryFailed => "peer discovery failed"@,
            ErrorView::UnsupportedWithoutCoinset(m) => "not supported without coinset: "@ + m,
            ErrorView::SourcesDisagree(m) => "sources disagree: "@ + m,
            ErrorView::UncorroboratedPresence(m) => "uncorroborated presence: "@ + m,
            ErrorView::UncorroboratedAbsence(m) => "uncorroborated absence: "@ + m,
        }
    }
}

impl ChiaQueryError {
    /// The message shown for the error.
    pub fn message(&self) -> (message: String)
        ensures
            message@ == self@.text(),
    {
        match self {
            ChiaQueryError::PeerRejection(m) => String::from_str(
                "peer rejected the request: ",
            ).concat(m.as_str()),
            ChiaQueryError::PeerConnection(m) => String::from_str(
                "peer connection failed: ",
            ).concat(m.as_str()),
            ChiaQueryError::CoinsetApiError(m) => String::from_str(
                "coinset answered with an error: ",
            ).concat(m.as_str()),
            ChiaQueryError::CoinsetHttp(m) => String::from_str(
                "coinset could not be reached: ",
            ).concat(m.as_str()),
            ChiaQueryError::AllSourcesFailed { peer, coinset } => String::from_str(
                "all sources failed: peers: ",
            ).concat(peer.as_str()).concat("; coinset: ").concat(coinset.as_str()),
            ChiaQueryError::InvalidRequest(m) => String::from_str("invalid request: ").concat(
                m.as_str(),
            ),
            ChiaQueryError::TlsError(m) => String::from_str("TLS error: ").concat(m.as_str()),
            ChiaQueryError::PeerDiscoveryFailed => String::from_str("peer discovery failed"),
            ChiaQueryError::UnsupportedWithoutCoinset(m) => String::from_str(
                "not supported without coinset: ",
            ).concat(m.as_str()),
            ChiaQueryError::SourcesDisagree(m) => String::from_str("sources disagree: ").concat(
                m.as_str(),
            ),
            ChiaQueryError::UncorroboratedPresence(m) => String::from_str(
                "uncorroborated presence: ",
            ).concat(m.as_str()),
            ChiaQueryError::UncorroboratedAbsence(m) => String::from_str(
                "uncorroborated absence: ",
            ).concat(m.as_str()),
        }
    }
}

/// What became of a transaction in the mempool that was asked.
#[derive(Clone, Copy, Debug, PartialEq, Eq, Structural)]
pub enum MempoolInclusion {
    Admitted,
    NotAdmitted,
    Failed,
    Unknown,
}

impl MempoolInclusion {
    /// Whether the transaction is in the mempool.
    pub fn is_admitted(&self) -> (admitted: bool)
        ensures
            admitted == (*self is Admitted),
    {
        match self {
            MempoolInclusion::Admitted => true,
            _ => false,
        }
    }
}

/// The answer to a pushed transaction.
#[derive(Debug, PartialEq, Eq)]
pub struct TxStatus {
    pub status: String,
    pub success: bool,
    pub inclusion: MempoolInclusion,
    pub error: Option<String>,
}

/// A coin, in hex.
#[derive(Debug, PartialEq, Eq)]
pub struct Coin {
    pub parent_coin_info: String,
    pub puzzle_hash: String,
    pub amount: u64,
}

/// [`Coin`] with its texts as characters.
#[verifier::ext_equal]
pub struct CoinView {
    pub parent_coin_info: Seq<char>,
    pub puzzle_hash: Seq<char>,
    pub amount: u64,
}

impl View for Coin {
    type V = CoinView;

    open spec fn view(&self) -> CoinView {
        CoinView {
            parent_coin_info: self.parent_coin_info@,
            puzzle_hash: self.puzzle_hash@,
            amount: self.amount,
        }
    }
}

impl CoinView {
    /// `coin` written in hex.
    pub open spec fn of(coin: protocol::Coin) -> CoinView {
        CoinView {
            parent_coin_info: prefixed(coin.parent_coin_info@),
            puzzle_hash: prefixed(coin.puzzle_hash@),
            amount: coin.amount,
        }
    }
}

impl Coin {
    /// Writes `coin` in hex.
    pub fn from_protocol(coin: &protocol::Coin) -> (written: Self)
        ensures
            written@ == CoinView::of(*coin),
    {
        Coin {
            parent_coin_info: hex32(&coin.parent_coin_info),
            puzzle_hash: hex32(&coin.puzzle_hash),
            amount: coin.amount,
        }
    }

    /// Another copy of the coin.
    pub fn duplicate(&self) -> (copy: Self)
        ensures
            copy@ == self@,
    {
        Coin {
            parent_coin_info: self.parent_coin_info.clone(),
            puzzle_hash: self.puzzle_hash.clone(),
            amount: self.amount,
        }
    }
}

/// A coin and what is known of it.
#[derive(Debug, PartialEq, Eq)]
pub struct CoinRecord {
    pub coin: Coin,
    pub confirmed_block_index: u32,
    /// Zero while the coin is unspent.
    pub spent_block_index: u32,
    pub spent: bool,
    pub coinbase: bool,
    pub timestamp: u64,
}

/// [`CoinRecord`] with its texts as characters.
#[verifier::ext_equal]
pub struct RecordView {
    pub coin: CoinView,
    pub confirmed_block_index: u32,
    pub spent_block_index: u32,
    pub spent: bool,
    pub coinbase: bool,
    pub timestamp: u64,
}

impl View for CoinRecord {
    type V = RecordView;

    open spec fn view(&self) -> RecordView {
        RecordView {
            coin: self.coin@,
            confirmed_block_index: self.confirmed_block_index,
            spent_block_index: self.spent_block_index,
            spent: self.spent,
            coinbase: self.coinbase,
            timestamp: self.timestamp,
        }
    }
}

/// The views of `records`, in order.
pub open spec fn records_view(records: Seq<CoinRecord>) -> Seq<RecordView> {
    records.map_values(|r: CoinRecord| r@)
}

impl CoinRecord {
    /// Another copy of the record.
    pub fn duplicate(&self) -> (copy: Self)
        ensures
            copy@ == self@,
    {
        CoinRecord {
            coin: self.coin.duplicate(),
            confirmed_block_index: self.confirmed_block_index,
            spent_block_index: self.spent_block_index,
            spent: self.spent,
            coinbase: self.coinbase,
            timestamp: self.timestamp,
        }
    }
}

/// A spend of a coin, in hex.
#[derive(Debug, PartialEq, Eq)]
pub struct CoinSpend {
    pub coin: Coin,
    pub puzzle_reveal: String,
    pub solution: String,
}

/// [`CoinSpend`] with its texts as characters.
#[verifier::ext_equal]
pub struct SpendView {
    pub coin: CoinView,
    pub puzzle_reveal: Seq<char>,
    pub solution: Seq<char>,
}

impl View for CoinSpend {
    type V = SpendView;

    open spec fn view(&self) -> SpendView {
        SpendView {
            coin: self.coin@,
            puzzle_reveal: self.puzzle_reveal@,
            solution: self.solution@,
        }
    }
}

/// The views of `spends`, in order.
pub open spec fn spends_view(spends: Seq<CoinSpend>) -> Seq<SpendView> {
    spends.map_values(|s: CoinSpend| s@)
}

/// Spends that stand or fall together.
#[derive(Debug, PartialEq, Eq)]
pub struct SpendBundle {
    pub coin_spends: Vec<CoinSpend>,
    pub aggregated_signature: String,
}

/// One condition a puzzle put out, in hex.
#[derive(Debug, PartialEq, Eq)]
pub struct Condition {
    pub opcode: String,
    pub vars: Vec<String>,
}

/// The characters of each of `texts`, in order.
pub open spec fn texts_view(texts: Seq<String>) -> Seq<Seq<char>> {
    texts.map_values(|t: String| t@)
}

/// [`Condition`] with its texts as characters.
#[verifier::ext_equal]
pub struct ConditionView {
    pub opcode: Seq<char>,
    pub vars: Seq<Seq<char>>,
}

impl View for Condition {
    type V = ConditionView;

    open spec fn view(&self) -> ConditionView {
        ConditionView { opcode: self.opcode@, vars: texts_view(self.vars@) }
    }
}

/// The views of `conditions`, in order.
pub open spec fn conditions_view(conditions: Seq<Condition>) -> Seq<ConditionView> {
    conditions.map_values(|c: Condition| c@)
}

/// A spend with the conditions it put out.
#[derive(Debug, PartialEq, Eq)]
pub struct CoinSpendWithConditions {
    pub coin_spend: CoinSpend,
    pub conditions: Vec<Condition>,
}

/// [`CoinSpendWithConditions`] with its texts as characters.
#[verifier::ext_equal]
pub struct ConditionedView {
    pub coin_spend: SpendView,
    pub conditions: Seq<ConditionView>,
}

impl View for CoinSpendWithConditions {
    type V = ConditionedView;

    open spec fn view(&self) -> ConditionedView {
        ConditionedView {
            coin_spend: self.coin_spend@,
            conditions: conditions_view(self.conditions@),
        }
    }
}

/// The views of `spends`, in order.
pub open spec fn conditioned_view(spends: Seq<CoinSpendWithConditions>) -> Seq<ConditionedView> {
    spends.map_values(|s: CoinSpendWithConditions| s@)
}

/// What a block added and removed.
#[derive(Debug, PartialEq, Eq)]
pub struct AdditionsAndRemovals {
    pub additions: Vec<CoinRecord>,
    pub removals: Vec<CoinRecord>,
}

/// A block as its headers tell it.
#[derive(Debug, PartialEq, Eq)]
pub struct BlockRecord {
    pub header_hash: String,
    pub height: u32,
    pub weight: u64,
    pub prev_hash: String,
    pub total_iters: u64,
    pub signage_point_index: u8,
    pub farmer_puzzle_hash: String,
    pub pool_puzzle_hash: String,
    /// Only a transaction block carries one.
    pub timestamp: Option<u64>,
    pub fees: Option<u64>,
    /// What else the source says of the block.
    pub extra: Value,
}

/// The network a client reads.
#[derive(Debug, PartialEq, Eq)]
pub struct NetworkInfo {
    pub network_name: String,
    pub network_prefix: String,
    pub genesis_challenge: String,
}

/// An error's message says which source failed and how, in the source's own words.
pub proof fn law_an_error_says_what_failed(m: Seq<char>, other: Seq<char>)
    ensures
        ErrorView::PeerRejection(m).text() == "peer rejected the request: "@ + m,
        ErrorView::PeerConnection(m).text() == "peer connection failed: "@ + m,
        ErrorView::CoinsetApiError(m).text() == "coinset answered with an error: "@ + m,
        ErrorView::CoinsetHttp(m).text() == "coinset could not be reached: "@ + m,
        (ErrorView::AllSourcesFailed { peer: m, coinset: other }).text()
            == "all sources failed: peers: "@ + m + "; coinset: "@ + other,
        ErrorView::InvalidRequest(m).text() == "invalid request: "@ + m,
        ErrorView::TlsError(m).text() == "TLS error: "@ + m,
        ErrorView::PeerDiscoveryFailed.text() == "peer discovery failed"@,
        ErrorView::UnsupportedWithoutCoinset(m).text() == "not supported without coinset: "@ + m,
        ErrorView::SourcesDisagree(m).text() == "sources disagree: "@ + m,
        ErrorView::UncorroboratedPresence(m).text() == "uncorroborated presence: "@ + m,
        ErrorView::UncorroboratedAbsence(m).text() == "uncorroborated absence: "@ + m,
{
}

/// A coin is written with each of its parts in prefixed hex, and its amount as it is.
pub proof fn law_a_coin_is_written_in_hex(coin: protocol::Coin)
    ensures
        CoinView::of(coin).parent_coin_info == "0x"@ + crate::hexadecimal::hex_of(
            coin.parent_coin_info@,
        ),
        CoinView::of(coin).puzzle_hash == "0x"@ + crate::hexadecimal::hex_of(coin.puzzle_hash@),
        CoinView::of(coin).amount == coin.amount,
{
}

} // verus!
