//! Reads of the Chia chain over a pool of untrusted peers, with a fallback to coinset.
//!
//! The library decides; the caller dials, sends and waits. Durations and instants are
//! nanoseconds.

pub mod address;
pub mod claim;
pub mod clvm;
pub mod coinset;
pub mod collections;
pub mod drift;
pub mod drift_monitor;
pub mod hexadecimal;
pub mod json;
pub mod mempool_refusal;
pub mod peer;
pub mod protocol;
pub mod provider_registry;
pub mod router;
pub mod text;
pub mod types;
pub mod wire;

use vstd::prelude::*;

use peer::plurality::default_max_peers;
use peer::pool::PeerRequirement;
use provider_registry::independence_group_for;
use types::{ChiaQueryError, CoinRecord};

verus! {

/// The chain a client reads.
#[derive(Clone, Copy, Debug, PartialEq, Eq, Structural)]
pub enum NetworkType {
    Mainnet,
    Testnet11,
}

impl NetworkType {
    /// The name peers know the network by.
    pub open spec fn spec_network_id(self) -> Seq<char> {
        match self {
            NetworkType::Mainnet => "mainnet"@,
            NetworkType::Testnet11 => "testnet11"@,
        }
    }

    /// The name peers know the network by.
    pub fn network_id(self) -> (id: &'static str)
        ensures
            id@ == self.spec_network_id(),
    {
        match self {
            NetworkType::Mainnet => "mainnet",
            NetworkType::Testnet11 => "testnet11",
        }
    }
}

/// Where the TLS identity shown to peers comes from.
#[derive(Debug, PartialEq, Eq)]
pub enum TlsIdentity {
    /// A fresh self-signed certificate, held in memory.
    Generated,
    /// An existing certificate and key.
    Files { cert_path: String, key_path: String },
}

/// How a client is set up.
#[derive(Debug, PartialEq, Eq)]
pub struct ChiaQueryConfig {
    pub network: NetworkType,
    /// How many peer sessions the pool holds.
    pub max_peers: usize,
    pub coinset_base_url: String,
    pub coinset_fallback_enabled: bool,
    pub tls_identity: TlsIdentity,
    pub peer_connect_timeout: u128,
    pub peer_request_timeout: u128,
    pub coinset_request_timeout: u128,
}

impl Default for ChiaQueryConfig {
    fn default() -> (config: Self)
        ensures
            config.network == NetworkType::Mainnet,
            config.max_peers == peer::plurality::PRIORITY_SLOTS + 1 + peer::plurality::QUORUM_SAMPLE
                + 1,
            config.coinset_base_url@ == "https://api.coinset.org"@,
            config.coinset_fallback_enabled,
            config.tls_identity is Generated,
            config.peer_connect_timeout == 8_000_000_000,
            config.peer_request_timeout == 30_000_000_000,
            config.coinset_request_timeout == 30_000_000_000,
    {
        ChiaQueryConfig {
            network: NetworkType::Mainnet,
            max_peers: default_max_peers(),
            coinset_base_url: String::from_str("https://api.coinset.org"),
            coinset_fallback_enabled: true,
            tls_identity: TlsIdentity::Generated,
            peer_connect_timeout: 8_000_000_000,
            peer_request_timeout: 30_000_000_000,
            coinset_request_timeout: 30_000_000_000,
        }
    }
}

/// What to do after one poll for a confirmation.
pub enum WaitStep {
    /// The coin is confirmed.
    Confirmed(CoinRecord),
    /// No poll can be made before the deadline.
    GiveUp(ChiaQueryError),
    /// Sleep for the poll interval and ask again.
    Sleep,
}

/// A client's settings and what follows from them.
pub struct ChiaQuery {
    pub config: ChiaQueryConfig,
}

impl ChiaQuery {
    /// A client set up by `config`.
    pub fn new(config: ChiaQueryConfig) -> (client: Self)
        ensures
            client.config == config,
    {
        ChiaQuery { config }
    }

    /// The group this client must be registered under, by what it can reach.
    pub fn independence_group(&self) -> (group: &'static str)
        ensures
            group@ == (if self.config.coinset_fallback_enabled {
                provider_registry::COINSET_INDEPENDENCE_GROUP@
            } else {
                provider_registry::CHIA_PEERS_INDEPENDENCE_GROUP@
            }),
    {
        independence_group_for(self.config.coinset_fallback_enabled)
    }

    /// Whether the client is of use without a peer: it is, if it can fall back to coinset.
    pub fn peer_requirement(&self) -> (requirement: PeerRequirement)
        ensures
            requirement == (if self.config.coinset_fallback_enabled {
                PeerRequirement::Optional
            } else {
                PeerRequirement::Required
            }),
    {
        if self.config.coinset_fallback_enabled {
            PeerRequirement::Optional
        } else {
            PeerRequirement::Required
        }
    }

    /// What to do after a poll for `coin_id`'s confirmation.
    ///
    /// An answer that the coin is unknown or unconfirmed, and any failure, is a reason to ask
    /// again, as long as another poll fits before `deadline`. `allowed` is how the whole wait is
    /// named in the message when it does not.
    pub fn wait_for_confirmation(
        coin_id: &str,
        answer: Result<CoinRecord, ChiaQueryError>,
        now: u128,
        poll_interval: u128,
        deadline: u128,
        allowed: &str,
    ) -> (step: WaitStep)
        ensures
            match step {
                WaitStep::Confirmed(record) => answer == Ok::<CoinRecord, ChiaQueryError>(record)
                    && record.confirmed_block_index > 0,
                WaitStep::GiveUp(error) => {
                    &&& !(answer is Ok && answer->Ok_0.confirmed_block_index > 0)
                    &&& now + poll_interval > deadline
                    &&& error matches ChiaQueryError::PeerConnection(message) && message@
                        == "coin "@ + coin_id@ + " not confirmed within "@ + allowed@
                },
                WaitStep::Sleep => {
                    &&& !(answer is Ok && answer->Ok_0.confirmed_block_index > 0)
                    &&& now + poll_interval <= deadline
                },
            },
    {
        if let Ok(record) = answer {
            if record.confirmed_block_index > 0 {
                return WaitStep::Confirmed(record);
            }
        }
        if now > deadline || poll_interval > deadline - now {
            let message = String::from_str("coin ").concat(coin_id).concat(
                " not confirmed within ",
            ).concat(allowed);
            WaitStep::GiveUp(ChiaQueryError::PeerConnection(message))
        } else {
            WaitStep::Sleep
        }
    }
}

/// A peak the pool has observed: the raw height, or nothing while no peer has announced one.
pub fn observed_peak(raw: u32) -> (peak: Option<u32>)
    ensures
        peak == (if raw == 0 { None::<u32> } else { Some(raw) }),
{
    if raw != 0 {
        Some(raw)
    } else {
        None
    }
}

/// The chain's peak: what coinset answered, or else what the peers support.
pub fn chain_peak(coinset: Option<Option<u32>>, raw: u32) -> (peak: Option<u32>)
    ensures
        peak == (match coinset {
            Some(answered) => answered,
            None => if raw == 0 {
                None
            } else {
                Some(raw)
            },
        }),
{
    match coinset {
        Some(answered) => answered,
        None => observed_peak(raw),
    }
}

/// A wait ends with the record as soon as the coin is confirmed, asks again as long as another poll
/// fits before the deadline, and gives up otherwise. A failed poll is no reason to give up.
pub proof fn law_a_wait_ends_with_a_confirmation_or_at_its_deadline(
    coin_id: &str,
    answer: Result<CoinRecord, ChiaQueryError>,
    now: u128,
    poll_interval: u128,
    deadline: u128,
    allowed: &str,
    step: WaitStep,
)
    requires
        call_ensures(
            ChiaQuery::wait_for_confirmation,
            (coin_id, answer, now, poll_interval, deadline, allowed),
            step,
        ),
    ensures
        step is Confirmed <==> answer is Ok && answer->Ok_0.confirmed_block_index > 0,
        step matches WaitStep::Confirmed(record) ==> record == answer->Ok_0,
        !(step is Confirmed) ==> (step is Sleep <==> now + poll_interval <= deadline),
        step matches WaitStep::GiveUp(e) ==> e@ == types::ErrorView::PeerConnection(
            "coin "@ + coin_id@ + " not confirmed within "@ + allowed@,
        ),
{
}

/// The chain's peak is what coinset answered, even that it has none, and only where coinset was not
/// heard what the peers support. Zero is no peak.
pub proof fn law_coinset_has_the_first_word_on_the_peak(
    coinset: Option<Option<u32>>,
    raw: u32,
    peak: Option<u32>,
    observed: Option<u32>,
)
    requires
        call_ensures(chain_peak, (coinset, raw), peak),
        call_ensures(observed_peak, (raw,), observed),
    ensures
        coinset matches Some(answered) ==> peak == answered,
        coinset is None ==> peak == observed,
        observed is None <==> raw == 0,
        raw > 0 ==> observed == Some(raw),
{
}

/// A client needs a peer exactly if it cannot fall back to coinset, and is grouped with coinset's
/// other readers exactly if it can.
pub proof fn law_a_client_without_coinset_needs_a_peer(
    client: ChiaQuery,
    requirement: PeerRequirement,
    group: &'static str,
)
    requires
        call_ensures(ChiaQuery::peer_requirement, (&client,), requirement),
        call_ensures(ChiaQuery::independence_group, (&client,), group),
    ensures
        requirement is Required <==> !client.config.coinset_fallback_enabled,
        client.config.coinset_fallback_enabled ==> group@ == "coinset.org"@,
        !client.config.coinset_fallback_enabled ==> group@ == "chia-peers"@,
{
}

} // verus!
