use chia_query::peer::light_client::cache::CoinStateCache;
use chia_query::peer::light_client::client::{ProviderInfo, ProviderKind};
use chia_query::peer::light_client::error::{ChainSourceError, LightClientError};
use chia_query::peer::light_client::fetcher::CoinStateFetcher;
use chia_query::peer::light_client::provider::LightClientProvider;
use chia_query::protocol::{Bytes32, Coin, CoinState, CoinStateFilters};

/// A fetcher that answers as it is told to.
#[derive(Default)]
struct MockFetcher {
    coin_states: Vec<CoinState>,
    puzzle_states: Vec<CoinState>,
    children: Vec<CoinState>,
    fail: Option<LightClientError>,
    reveal: Option<(Vec<u8>, Vec<u8>)>,
}

fn again(error: &LightClientError) -> LightClientError {
    match error {
        LightClientError::Transport(m) => LightClientError::Transport(m.clone()),
        LightClientError::Rejected(m) => LightClientError::Rejected(m.clone()),
        LightClientError::Malformed(m) => LightClientError::Malformed(m.clone()),
        LightClientError::Timeout => LightClientError::Timeout,
        LightClientError::PeerDiscoveryFailed => LightClientError::PeerDiscoveryFailed,
        LightClientError::NotConnected => LightClientError::NotConnected,
    }
}

impl MockFetcher {
    fn answer(&self, states: &[CoinState]) -> Result<Vec<CoinState>, LightClientError> {
        match &self.fail {
            Some(e) => Err(again(e)),
            None => Ok(states.to_vec()),
        }
    }
}

impl CoinStateFetcher for MockFetcher {
    fn coin_states(
        &self,
        _coin_ids: Vec<Bytes32>,
        subscribe: bool,
    ) -> Result<Vec<CoinState>, LightClientError> {
        assert!(!subscribe, "a read must not arm a subscription");
        self.answer(&self.coin_states)
    }

    fn puzzle_states(
        &self,
        _puzzle_hashes: Vec<Bytes32>,
        _filters: CoinStateFilters,
        subscribe: bool,
    ) -> Result<Vec<CoinState>, LightClientError> {
        assert!(!subscribe, "a read must not arm a subscription");
        self.answer(&self.puzzle_states)
    }

    fn children(&self, _coin_id: Bytes32) -> Result<Vec<CoinState>, LightClientError> {
        self.answer(&self.children)
    }

    fn puzzle_and_solution(
        &self,
        _coin_id: Bytes32,
        _height: u32,
    ) -> Result<(Vec<u8>, Vec<u8>), LightClientError> {
        if let Some(e) = &self.fail {
            return Err(again(e));
        }
        match &self.reveal {
            Some(found) => Ok(found.clone()),
            None => Err(LightClientError::Rejected("no reveal".into())),
        }
    }
}

/// A puzzle, and the hash a coin locked with it has.
fn reveal_and_matching_puzzle_hash() -> (Vec<u8>, Bytes32) {
    let puzzle = vec![1u8];
    let hash = clvm_utils::tree_hash_from_bytes(&puzzle).expect("a program");
    (puzzle, Bytes32::new(hash.to_bytes()))
}

fn info() -> ProviderInfo {
    ProviderInfo {
        id: "chia-query-light-client-test",
        kind: ProviderKind::Custom,
        priority: 20,
        trustless: false,
    }
}

fn provider_with(fetcher: MockFetcher) -> (CoinStateCache, LightClientProvider<MockFetcher>) {
    provider_with_peak(fetcher, None)
}

fn provider_with_peak(
    fetcher: MockFetcher,
    peak: Option<u32>,
) -> (CoinStateCache, LightClientProvider<MockFetcher>) {
    let mut cache = CoinStateCache::new();
    if let Some(height) = peak {
        cache.set_peak(height, Bytes32::new([0xAB; 32]));
    }
    (cache, LightClientProvider::new(fetcher, info()))
}

fn coin(seed: u8) -> Coin {
    Coin {
        parent_coin_info: Bytes32::new([seed; 32]),
        puzzle_hash: Bytes32::new([seed ^ 1; 32]),
        amount: 1,
    }
}

#[test]
fn coin_record_returns_some_for_a_known_coin() {
    let c = coin(7);
    let id = c.coin_id();
    let fetcher = MockFetcher {
        coin_states: vec![CoinState {
            coin: c,
            created_height: Some(100),
            spent_height: None,
        }],
        ..Default::default()
    };
    let (cache, provider) = provider_with(fetcher);
    let record = provider.coin_record(&cache, id).expect("read ok");
    assert!(record.is_some());
    assert_eq!(record.unwrap().confirmed_height, Some(100));
}

#[test]
fn live_fetched_coin_above_peak_reports_clamped_confirmed_height() {
    let c = coin(11);
    let id = c.coin_id();
    let fetcher = MockFetcher {
        coin_states: vec![CoinState {
            coin: c,
            created_height: Some(1_000_001),
            spent_height: None,
        }],
        ..Default::default()
    };
    let (cache, provider) = provider_with_peak(fetcher, Some(1_000_000));
    let record = provider.coin_record(&cache, id)
        .expect("read ok")
        .expect("coin present, never omitted");
    assert_eq!(
        record.confirmed_height,
        Some(1_000_000),
        "an above-peak live coin must clamp to the peak (0 confirmations), never overstate"
    );
}

#[test]
fn live_fetched_coin_at_or_below_peak_is_unaffected() {
    let c = coin(12);
    let id = c.coin_id();
    let fetcher = MockFetcher {
        coin_states: vec![CoinState {
            coin: c,
            created_height: Some(900_000),
            spent_height: None,
        }],
        ..Default::default()
    };
    let (cache, provider) = provider_with_peak(fetcher, Some(1_000_000));
    let record = provider.coin_record(&cache, id)
        .expect("read ok")
        .expect("coin present");
    assert_eq!(record.confirmed_height, Some(900_000));
}

#[test]
fn discovery_reads_clamp_above_peak_confirmed_height() {
    let fetcher = MockFetcher {
        puzzle_states: vec![CoinState {
            coin: coin(13),
            created_height: Some(2_000_000),
            spent_height: Some(2_000_000),
        }],
        children: vec![CoinState {
            coin: coin(14),
            created_height: Some(2_000_000),
            spent_height: Some(2_000_000),
        }],
        ..Default::default()
    };
    let (cache, provider) = provider_with_peak(fetcher, Some(1_000_000));
    let ph = Bytes32::new([8; 32]);
    let parent = Bytes32::new([9; 32]);
    let by_ph = provider.coin_records_by_puzzle_hash(&cache, ph, true).unwrap();
    assert_eq!(by_ph[0].confirmed_height, Some(1_000_000));
    assert_eq!(by_ph[0].spent_height, Some(1_000_000));
    let by_parent = provider.coin_records_by_parent(&cache, parent).unwrap();
    assert_eq!(by_parent[0].confirmed_height, Some(1_000_000));
    assert_eq!(by_parent[0].spent_height, Some(1_000_000));
}

#[test]
fn live_fetched_coin_spent_above_peak_reports_clamped_spent_height() {
    let c = coin(15);
    let id = c.coin_id();
    let fetcher = MockFetcher {
        coin_states: vec![CoinState {
            coin: c,
            created_height: Some(999_999),
            spent_height: Some(1_000_001),
        }],
        ..Default::default()
    };
    let (cache, provider) = provider_with_peak(fetcher, Some(1_000_000));
    let record = provider.coin_record(&cache, id)
        .expect("read ok")
        .expect("coin present, never omitted");
    assert_eq!(
        record.spent_height,
        Some(1_000_000),
        "an above-peak spent coin must clamp spent_height to the peak (0 spend-depth), never overstate"
    );
    assert!(
        record.is_spent(),
        "the coin IS spent — clamping the reported height must never drop the spent flag"
    );
}

#[test]
fn live_fetched_coin_spent_at_or_below_peak_is_unaffected() {
    let c = coin(16);
    let id = c.coin_id();
    let fetcher = MockFetcher {
        coin_states: vec![CoinState {
            coin: c,
            created_height: Some(800_000),
            spent_height: Some(900_000),
        }],
        ..Default::default()
    };
    let (cache, provider) = provider_with_peak(fetcher, Some(1_000_000));
    let record = provider.coin_record(&cache, id)
        .expect("read ok")
        .expect("coin present");
    assert_eq!(record.spent_height, Some(900_000));
}

#[test]
fn coin_spend_of_coin_spent_above_peak_still_identified_as_spent() {
    let (puzzle, ph) = reveal_and_matching_puzzle_hash();
    let c = Coin {
        parent_coin_info: Bytes32::new([17; 32]),
        puzzle_hash: ph,
        amount: 1,
    };
    let id = c.coin_id();
    let fetcher = MockFetcher {
        coin_states: vec![CoinState {
            coin: c,
            created_height: Some(999_999),
            spent_height: Some(1_000_001),
        }],
        reveal: Some((puzzle, vec![2u8])),
        ..Default::default()
    };
    let (cache, provider) = provider_with_peak(fetcher, Some(1_000_000));
    let spend = provider.coin_spend(&cache, id)
        .unwrap()
        .expect("a coin spent above the lagged peak is still spent");
    assert_eq!(spend.coin, c);
}

#[test]
fn coin_record_returns_none_for_provable_absence() {
    let (cache, provider) = provider_with(MockFetcher::default());
    let id = coin(9).coin_id();
    let record = provider.coin_record(&cache, id).expect("read ok");
    assert_eq!(record, None);
}

#[test]
fn transport_failure_is_err_never_false_absence() {
    let fetcher = MockFetcher {
        fail: Some(LightClientError::Transport("socket reset".into())),
        ..Default::default()
    };
    let (cache, provider) = provider_with(fetcher);
    let id = coin(3).coin_id();
    let result = provider.coin_record(&cache, id);
    assert!(
        matches!(result, Err(ChainSourceError::Transport(_))),
        "a transport failure MUST be Err, never Ok(None): {result:?}"
    );
}

#[test]
fn coin_spend_of_unspent_coin_is_none() {
    let c = coin(4);
    let id = c.coin_id();
    let fetcher = MockFetcher {
        coin_states: vec![CoinState {
            coin: c,
            created_height: Some(10),
            spent_height: None,
        }],
        ..Default::default()
    };
    let (cache, provider) = provider_with(fetcher);
    assert_eq!(provider.coin_spend(&cache, id).unwrap(), None);
}

#[test]
fn coin_spend_of_spent_coin_assembles_from_real_coin() {
    let (puzzle, ph) = reveal_and_matching_puzzle_hash();
    let c = Coin {
        parent_coin_info: Bytes32::new([5; 32]),
        puzzle_hash: ph,
        amount: 1,
    };
    let id = c.coin_id();
    let fetcher = MockFetcher {
        coin_states: vec![CoinState {
            coin: c,
            created_height: Some(10),
            spent_height: Some(20),
        }],
        reveal: Some((puzzle, vec![2u8])),
        ..Default::default()
    };
    let (cache, provider) = provider_with(fetcher);
    let spend = provider.coin_spend(&cache, id)
        .unwrap()
        .expect("spend");
    assert_eq!(spend.coin, c);
}

#[test]
fn coin_spend_of_spent_coin_with_rejected_reveal_is_err_never_none() {
    let c = coin(6);
    let id = c.coin_id();
    let fetcher = MockFetcher {
        coin_states: vec![CoinState {
            coin: c,
            created_height: Some(10),
            spent_height: Some(20),
        }],
        reveal: None,
        ..Default::default()
    };
    let (cache, provider) = provider_with(fetcher);
    let result = provider.coin_spend(&cache, id);
    assert!(
        matches!(result, Err(ChainSourceError::Transport(_))),
        "a rejected reveal for a spent coin must be Err, never Ok(None): {result:?}"
    );
}

#[test]
fn coin_spend_rejects_a_reveal_that_does_not_hash_to_the_coin() {
    let c = coin(8);
    let id = c.coin_id();
    let fetcher = MockFetcher {
        coin_states: vec![CoinState {
            coin: c,
            created_height: Some(10),
            spent_height: Some(20),
        }],
        reveal: Some((vec![1u8], vec![2u8])),
        ..Default::default()
    };
    let (cache, provider) = provider_with(fetcher);
    let result = provider.coin_spend(&cache, id);
    assert!(
        matches!(result, Err(ChainSourceError::Malformed(_))),
        "a mismatched reveal must be Malformed: {result:?}"
    );
}

#[test]
fn records_by_puzzle_hash_and_parent_map_states() {
    let fetcher = MockFetcher {
        puzzle_states: vec![CoinState {
            coin: coin(1),
            created_height: Some(1),
            spent_height: None,
        }],
        children: vec![CoinState {
            coin: coin(2),
            created_height: Some(2),
            spent_height: None,
        }],
        ..Default::default()
    };
    let (cache, provider) = provider_with(fetcher);
    let ph = Bytes32::new([8; 32]);
    let parent = Bytes32::new([9; 32]);
    assert_eq!(
        provider.coin_records_by_puzzle_hash(&cache, ph, true)
            .unwrap()
            .len(),
        1
    );
    assert_eq!(
        provider.coin_records_by_parent(&cache, parent)
            .unwrap()
            .len(),
        1
    );
}

#[test]
fn lineage_and_timestamp_are_unsupported_not_false_absence() {
    let (_, provider) = provider_with(MockFetcher::default());
    assert!(matches!(
        provider.resolve_singleton_lineage(Bytes32::new([1; 32])),
        ChainSourceError::Unsupported(_)
    ));
    assert!(matches!(
        provider.block_timestamp(1),
        ChainSourceError::Unsupported(_)
    ));
}

#[test]
fn provider_info_is_reported() {
    let (cache, provider) = provider_with(MockFetcher::default());
    assert_eq!(provider.provider_info().priority, 20);
    assert_eq!(provider.peak_height(&cache), None);
}

#[test]
fn a_cached_coin_is_reported_without_asking() {
    let c = coin(21);
    let state = CoinState { coin: c, created_height: Some(10), spent_height: None };
    let fetcher = MockFetcher { fail: Some(LightClientError::Timeout), ..Default::default() };
    let (mut cache, provider) = provider_with(fetcher);
    cache.track_coins(&[c.coin_id()]);
    cache.seed(&[state]);
    assert_eq!(provider.coin_state(&cache, c.coin_id()), Ok(Some(state)));
    assert_eq!(
        provider.coin_state(&cache, coin(22).coin_id()),
        Err(ChainSourceError::Timeout)
    );
}

#[test]
fn only_the_coin_that_was_asked_for_is_reported() {
    let other = CoinState { coin: coin(23), created_height: Some(10), spent_height: None };
    let fetcher = MockFetcher { coin_states: vec![other], ..Default::default() };
    let (cache, provider) = provider_with(fetcher);
    assert_eq!(provider.coin_record(&cache, coin(24).coin_id()), Ok(None));
}
