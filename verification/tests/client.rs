use chia_query::observed_peak;
use chia_query::peer::pool::PeerRequirement;
use chia_query::provider_registry::{CHIA_PEERS_INDEPENDENCE_GROUP, COINSET_INDEPENDENCE_GROUP};
use chia_query::types::{ChiaQueryError, Coin, CoinRecord};
use chia_query::{ChiaQuery, ChiaQueryConfig, NetworkType, TlsIdentity, WaitStep};

#[test]
fn an_unobserved_peak_is_unknown_and_a_real_height_survives() {
    assert_eq!(observed_peak(0), None);
    assert_eq!(observed_peak(1), Some(1));
    assert_eq!(observed_peak(9_139_211), Some(9_139_211));
}

fn client(coinset_fallback_enabled: bool) -> ChiaQuery {
    ChiaQuery::new(ChiaQueryConfig {
        coinset_base_url: "http://127.0.0.1:1".to_string(),
        coinset_fallback_enabled,
        ..ChiaQueryConfig::default()
    })
}

#[test]
fn the_group_is_read_from_the_routers_own_fallback_setting() {
    assert_eq!(client(false).independence_group(), CHIA_PEERS_INDEPENDENCE_GROUP);
    assert_eq!(client(true).independence_group(), COINSET_INDEPENDENCE_GROUP);
    assert_ne!(
        client(true).independence_group(),
        client(false).independence_group()
    );
}

#[test]
fn a_peer_is_required_only_without_the_fallback() {
    assert_eq!(client(false).peer_requirement(), PeerRequirement::Required);
    assert_eq!(client(true).peer_requirement(), PeerRequirement::Optional);
}

#[test]
fn the_default_configuration_is_mainnet_with_the_fallback() {
    let config = ChiaQueryConfig::default();
    assert_eq!(config.network, NetworkType::Mainnet);
    assert_eq!(config.max_peers, 8);
    assert_eq!(config.coinset_base_url, "https://api.coinset.org");
    assert!(config.coinset_fallback_enabled);
    assert_eq!(config.tls_identity, TlsIdentity::Generated);
    assert_eq!(config.peer_connect_timeout, 8_000_000_000);
    assert_eq!(config.peer_request_timeout, 30_000_000_000);
    assert_eq!(config.coinset_request_timeout, 30_000_000_000);
    assert_eq!(NetworkType::Mainnet.network_id(), "mainnet");
    assert_eq!(NetworkType::Testnet11.network_id(), "testnet11");
}

fn record(confirmed_block_index: u32) -> CoinRecord {
    CoinRecord {
        coin: Coin {
            parent_coin_info: "0x01".into(),
            puzzle_hash: "0x02".into(),
            amount: 1,
        },
        confirmed_block_index,
        spent_block_index: 0,
        spent: false,
        coinbase: false,
        timestamp: 0,
    }
}

#[test]
fn a_confirmed_coin_ends_the_wait() {
    match ChiaQuery::wait_for_confirmation("0xab", Ok(record(7)), 99, 5, 10, "10ns") {
        WaitStep::Confirmed(found) => assert_eq!(found.confirmed_block_index, 7),
        _ => panic!("a confirmed coin ends the wait even past the deadline"),
    }
}

#[test]
fn an_unconfirmed_coin_and_a_failure_are_polled_again_while_there_is_time() {
    for answer in [
        Ok(record(0)),
        Err(ChiaQueryError::PeerRejection("coin not found".into())),
        Err(ChiaQueryError::PeerConnection("request timed out".into())),
    ] {
        let step = ChiaQuery::wait_for_confirmation("0xab", answer, 5, 5, 10, "10ns");
        assert!(matches!(step, WaitStep::Sleep));
    }
    match ChiaQuery::wait_for_confirmation("0xab", Ok(record(0)), 6, 5, 10, "300s") {
        WaitStep::GiveUp(error) => assert_eq!(
            error,
            ChiaQueryError::PeerConnection("coin 0xab not confirmed within 300s".into())
        ),
        _ => panic!("no poll fits before the deadline"),
    }
}
