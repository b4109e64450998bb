use chia_query::peer::light_client::error::{ChainSourceError, LightClientError};

#[test]
fn timeout_variant_maps_to_timeout() {
    assert_eq!(
        LightClientError::Timeout.into_chain_source_error(),
        ChainSourceError::Timeout
    );
}

#[test]
fn timed_out_transport_message_maps_to_timeout() {
    let mapped =
        LightClientError::Transport("request timed out".into()).into_chain_source_error();
    assert_eq!(mapped, ChainSourceError::Timeout);
}

#[test]
fn plain_transport_maps_to_transport_never_absence() {
    let mapped = LightClientError::Transport("socket reset".into()).into_chain_source_error();
    assert_eq!(mapped, ChainSourceError::Transport("socket reset".into()));
}

#[test]
fn rejected_maps_to_transport() {
    let mapped = LightClientError::Rejected("reorg".into()).into_chain_source_error();
    assert!(matches!(mapped, ChainSourceError::Transport(_)));
}

#[test]
fn malformed_maps_to_malformed() {
    let mapped = LightClientError::Malformed("bad bytes".into()).into_chain_source_error();
    assert!(matches!(mapped, ChainSourceError::Malformed(_)));
}

#[test]
fn not_connected_and_discovery_map_to_transport() {
    assert!(matches!(
        LightClientError::NotConnected.into_chain_source_error(),
        ChainSourceError::Transport(_)
    ));
    assert!(matches!(
        LightClientError::PeerDiscoveryFailed.into_chain_source_error(),
        ChainSourceError::Transport(_)
    ));
}
