use chia_query::address::{IpAddr, SocketAddr};
use chia_query::peer::backend::PeerBackend;
use chia_query::peer::connect::PeerOrigin;
use chia_query::peer::frames::{
    FrameSource, FrameSubscription, PoolFrame, SessionEndReason, SessionId,
};
use chia_query::peer::light_client::cache::CoinStateCache;
use chia_query::peer::light_client::client::{
    ChiaLightClient, ProviderKind, Rearm, DEFAULT_PROVIDER_PRIORITY,
};
use chia_query::peer::light_client::drive::{
    apply_frame, follows, AfterFrame, DriveLoop, Turn, Wait,
};
use chia_query::peer::light_client::error::LightClientError;
use chia_query::peer::light_client::fetcher::{
    light_reply, light_response, PagedRead, PagedStep, PooledFetcher, MAX_ACCUMULATED_COIN_STATES,
    MAX_PUZZLE_STATE_PAGES,
};
use chia_query::peer::light_client::outcome::SubmitOutcome;
use chia_query::peer::reads::{Reply, Response};
use chia_query::protocol::{Bytes32, Coin, CoinState, PuzzleStatePage};
use chia_query::wire::NewPeak;
use chia_query::NetworkType;

/// The session that is followed.
const ANCHOR: u8 = 1;
/// Another peer of the same pool.
const IMPOSTOR: u8 = 2;

fn address(octet: u8) -> SocketAddr {
    SocketAddr::new(IpAddr::v4(203, 0, 113, octet), 8444)
}

fn source(octet: u8, session: u64) -> FrameSource {
    FrameSource {
        address: address(octet),
        session: SessionId(session),
    }
}

fn coin(seed: u8) -> Coin {
    Coin {
        parent_coin_info: Bytes32::new([seed; 32]),
        puzzle_hash: Bytes32::new([seed ^ 3; 32]),
        amount: 1,
    }
}

fn hash(seed: u8) -> Bytes32 {
    Bytes32::new([seed; 32])
}

/// A cache that follows `c`, with a peak at `height`.
fn cache_tracking(c: Coin, height: u32, peak_seed: u8) -> CoinStateCache {
    let mut cache = CoinStateCache::new();
    cache.set_peak(height, hash(peak_seed));
    cache.track_coins(&[c.coin_id()]);
    cache
}

#[test]
fn a_frame_from_the_followed_session_is_applied() {
    assert!(
        follows(Some(source(ANCHOR, 1)), source(ANCHOR, 1)),
        "the anchor's own frames must be applied, or the client learns nothing at all"
    );
}

#[test]
fn a_frame_from_another_held_peer_is_ignored() {
    assert!(
        !follows(Some(source(ANCHOR, 1)), source(IMPOSTOR, 2)),
        "an unfollowed peer's push must never be applied"
    );
}

#[test]
fn an_unanchored_client_follows_nothing() {
    assert!(
        !follows(None, source(ANCHOR, 1)),
        "before the first subscription there is no push this client could have asked for"
    );
}

#[test]
fn attribution_is_by_address_not_by_session_id_alone() {
    assert!(!follows(Some(source(ANCHOR, 1)), source(IMPOSTOR, 1)));
}

#[test]
fn attribution_is_by_session_not_by_address_alone() {
    assert!(
        !follows(Some(source(ANCHOR, 2)), source(ANCHOR, 1)),
        "a replaced session at the same address must not speak for its replacement"
    );
}

#[test]
fn a_coin_states_frame_carries_its_own_peak_hash() {
    let c = coin(9);
    let mut cache = cache_tracking(c, 100, 0xAA);

    apply_frame(
        &mut cache,
        PoolFrame::CoinStates {
            height: 200,
            fork_height: 199,
            peak_hash: hash(0xBB),
            items: vec![CoinState {
                coin: c,
                created_height: Some(150),
                spent_height: None,
            }],
        },
    );

    assert_eq!(
        cache.peak(),
        Some((200, hash(0xBB))),
        "the height and the header hash must come from the SAME message"
    );
}

#[test]
fn a_coin_states_frame_untracks_a_spent_coin_while_retaining_its_state() {
    let c = coin(11);
    let id = c.coin_id();
    let mut cache = cache_tracking(c, 100, 0xAA);

    apply_frame(
        &mut cache,
        PoolFrame::CoinStates {
            height: 200,
            fork_height: 199,
            peak_hash: hash(0xBB),
            items: vec![CoinState {
                coin: c,
                created_height: Some(100),
                spent_height: Some(150),
            }],
        },
    );

    assert!(cache.get(id).is_some(), "spent state is retained for reads");
    assert!(!cache.is_subscribed_coin(id), "the spent coin is untracked");
}

#[test]
fn a_peak_frame_advances_the_cache_peak() {
    let mut cache = CoinStateCache::new();
    let after = apply_frame(
        &mut cache,
        PoolFrame::Peak {
            height: 500,
            header_hash: hash(0xCC),
        },
    );
    assert_eq!(after, AfterFrame::Continue);
    assert_eq!(cache.peak(), Some((500, hash(0xCC))));
}

#[test]
fn a_session_ending_asks_for_a_resubscribe() {
    let mut cache = CoinStateCache::new();
    let after = apply_frame(
        &mut cache,
        PoolFrame::SessionEnded {
            reason: SessionEndReason::Disconnected,
        },
    );
    assert_eq!(
        after,
        AfterFrame::Resubscribe,
        "a stream that stopped must not read as a chain with nothing to say"
    );
}

#[test]
fn the_reset_that_opens_a_subscription_does_not_ask_for_a_resubscribe() {
    let mut cache = CoinStateCache::new();
    let after = apply_frame(&mut cache, PoolFrame::Reset);
    assert_eq!(
        after,
        AfterFrame::Continue,
        "this subscription's own opening Reset must not tear down the anchor it just followed"
    );
}

fn backend_holding(peers: &[(u8, PeerOrigin)]) -> PeerBackend<()> {
    let mut backend = PeerBackend::new(NetworkType::Mainnet, peers.len());
    for (octet, origin) in peers {
        assert!(
            backend
                .pool
                .admit_and_follow((), address(*octet), *origin, 0)
                .is_some(),
            "the test pool must admit its own fixture peers"
        );
    }
    backend
}

#[test]
fn the_anchor_is_pinned_once_and_reused() {
    let mut backend = backend_holding(&[(ANCHOR, PeerOrigin::Discovered)]);
    let mut fetcher = PooledFetcher::new();
    let (first, opened) = fetcher.anchor(&mut backend).expect("pin an anchor");
    let (second, reopened) = fetcher.anchor(&mut backend).expect("reuse the anchor");
    assert_eq!(
        first.address, second.address,
        "a second subscribing read must reuse the pinned session"
    );
    assert!(opened.is_some());
    assert!(reopened.is_none());
}

#[test]
fn releasing_another_peers_session_leaves_the_anchor_pinned() {
    let mut backend = backend_holding(&[
        (ANCHOR, PeerOrigin::Discovered),
        (IMPOSTOR, PeerOrigin::Discovered),
    ]);
    let mut fetcher = PooledFetcher::new();
    let pinned = fetcher.anchor(&mut backend).expect("pin an anchor").0.source;
    let other_address = if pinned.address == address(ANCHOR) {
        address(IMPOSTOR)
    } else {
        address(ANCHOR)
    };
    let other = FrameSource {
        address: other_address,
        session: pinned.session,
    };

    fetcher.release_anchor(other);

    assert_eq!(
        fetcher.anchor_source(),
        Some(pinned),
        "another peer's session ending must not tear down a healthy anchor"
    );
}

#[test]
fn a_dead_session_at_the_anchors_address_does_not_unpin_its_replacement() {
    let mut backend = backend_holding(&[(ANCHOR, PeerOrigin::Discovered)]);
    let mut fetcher = PooledFetcher::new();
    let pinned = fetcher.anchor(&mut backend).expect("pin an anchor").0.source;

    let predecessor = FrameSource {
        address: pinned.address,
        session: SessionId(pinned.session.0.wrapping_sub(1)),
    };
    fetcher.release_anchor(predecessor);

    assert_eq!(
        fetcher.anchor_source(),
        Some(pinned),
        "a replaced session must not unpin the connection that replaced it"
    );
}

#[test]
fn releasing_the_anchors_own_session_unpins_it() {
    let mut backend = backend_holding(&[(ANCHOR, PeerOrigin::Discovered)]);
    let mut fetcher = PooledFetcher::new();
    let pinned = fetcher.anchor(&mut backend).expect("pin an anchor").0.source;

    fetcher.release_anchor(pinned);

    assert_eq!(
        fetcher.anchor_source(),
        None,
        "the pinned session is gone, so the next subscribing read must re-anchor"
    );
}

/// Pins an anchor and hands its subscription to `drive`, as a subscribing read does.
fn pin(
    drive: &mut DriveLoop,
    client: &mut ChiaLightClient,
    backend: &mut PeerBackend<()>,
) -> FrameSource {
    let (anchor, opened) = client.fetcher.anchor(backend).expect("pin an anchor");
    assert!(matches!(drive.wait(), Wait::Anchoring | Wait::AnchoringOrFrame));
    let superseded = drive.turn(Turn::Anchored(opened), &mut client.cache, &mut client.fetcher);
    if let Some(subscription) = superseded {
        backend.pool.unsubscribe(subscription);
    }
    anchor.source
}

/// Hands `drive` every frame queued for what it follows.
fn drain(drive: &mut DriveLoop, client: &mut ChiaLightClient, backend: &mut PeerBackend<()>) {
    loop {
        let frame = match &mut drive.followed {
            Some(subscription) => backend.pool.try_recv(subscription),
            None => return,
        };
        match frame {
            Ok(sourced) => {
                drive.turn(Turn::Received(Some(sourced)), &mut client.cache, &mut client.fetcher);
            }
            Err(_) => return,
        }
    }
}

#[test]
fn the_drive_loop_applies_a_frame_from_the_session_it_just_pinned() {
    let mut backend = backend_holding(&[(ANCHOR, PeerOrigin::Discovered)]);
    let mut client = ChiaLightClient::new();
    let mut drive = DriveLoop::new();

    let pinned = pin(&mut drive, &mut client, &mut backend);
    backend.pool.peak_announced(
        pinned,
        NewPeak {
            height: 4242,
            header_hash: hash(0xEE),
        },
    );
    drain(&mut drive, &mut client, &mut backend);

    assert_eq!(
        client.peak(),
        Some((4242, hash(0xEE))),
        "the drive-loop must apply the frames of the session it is anchored to"
    );
}

#[test]
fn a_newly_pinned_anchor_is_followed_while_the_previous_session_is_still_live() {
    let mut backend = backend_holding(&[
        (ANCHOR, PeerOrigin::Discovered),
        (IMPOSTOR, PeerOrigin::Discovered),
    ]);
    let mut client = ChiaLightClient::new();
    let mut drive = DriveLoop::new();

    let first = pin(&mut drive, &mut client, &mut backend);
    client.fetcher.release_anchor_at(first.address);
    let second = pin(&mut drive, &mut client, &mut backend);
    assert_ne!(
        first, second,
        "the fixture must produce TWO concurrently-live sessions"
    );

    backend.pool.peak_announced(
        second,
        NewPeak {
            height: 4242,
            header_hash: hash(0xEE),
        },
    );
    drain(&mut drive, &mut client, &mut backend);

    assert_eq!(
        client.peak(),
        Some((4242, hash(0xEE))),
        "the drive-loop must pick up the newly pinned anchor"
    );
}

#[test]
fn a_frame_of_an_unpinned_session_changes_nothing() {
    let mut backend = backend_holding(&[(ANCHOR, PeerOrigin::Discovered)]);
    let mut client = ChiaLightClient::new();
    let mut drive = DriveLoop::new();

    let pinned = pin(&mut drive, &mut client, &mut backend);
    client.fetcher.release_anchor_at(pinned.address);
    backend.pool.peak_announced(pinned, NewPeak { height: 7, header_hash: hash(1) });
    drain(&mut drive, &mut client, &mut backend);

    assert_eq!(client.peak(), None);
}

#[test]
fn a_followed_session_that_ends_is_unpinned() {
    let mut backend = backend_holding(&[(ANCHOR, PeerOrigin::Discovered)]);
    let mut client = ChiaLightClient::new();
    let mut drive = DriveLoop::new();

    let pinned = pin(&mut drive, &mut client, &mut backend);
    backend.pool.end_session(pinned, SessionEndReason::Disconnected);
    drain(&mut drive, &mut client, &mut backend);
    assert_eq!(client.fetcher.anchor_source(), None);
    assert!(client.needs_rearm());

    let ended = drive.turn(Turn::Received(None), &mut client.cache, &mut client.fetcher);
    assert_eq!(ended.map(|s: FrameSubscription| s.source()), Some(pinned));
    assert_eq!(drive.wait(), Wait::Anchoring);
    drive.turn(Turn::Anchored(None), &mut client.cache, &mut client.fetcher);
    assert_eq!(drive.wait(), Wait::Nothing);
}

#[test]
fn a_failed_read_that_unpins_the_anchor_asks_for_a_rearm() {
    let mut backend = backend_holding(&[(ANCHOR, PeerOrigin::Discovered)]);
    let mut client = ChiaLightClient::new();
    let pinned = client.fetcher.anchor(&mut backend).expect("pin an anchor").0;

    assert!(!client.needs_rearm(), "a freshly pinned anchor is armed");

    client.fetcher.release_anchor_at(pinned.address);

    assert!(
        client.needs_rearm(),
        "the anchor is gone, so the subscription set is armed on no session this client reads from"
    );
}

#[test]
fn releasing_a_peer_that_is_not_the_anchor_does_not_ask_for_a_rearm() {
    let mut backend = backend_holding(&[
        (ANCHOR, PeerOrigin::Discovered),
        (IMPOSTOR, PeerOrigin::Discovered),
    ]);
    let mut client = ChiaLightClient::new();
    let pinned = client.fetcher.anchor(&mut backend).expect("pin an anchor").0;
    let other = if pinned.address == address(ANCHOR) {
        address(IMPOSTOR)
    } else {
        address(ANCHOR)
    };

    client.fetcher.release_anchor_at(other);

    assert!(
        !client.needs_rearm(),
        "a read that failed against a peer this client never pinned leaves the anchor armed"
    );
    assert_eq!(
        client.fetcher.anchor_source(),
        Some(pinned.source),
        "and it leaves the anchor itself alone"
    );
}

#[test]
fn the_provider_kind_tracks_the_anchors_observed_origin() {
    let unanchored = ChiaLightClient::new();
    assert_eq!(
        unanchored.provider_info().kind,
        ProviderKind::Custom,
        "with no session pinned there is no origin to report, so the conservative kind stands"
    );

    let mut backend = backend_holding(&[(ANCHOR, PeerOrigin::Discovered)]);
    let mut discovered = ChiaLightClient::new();
    discovered.fetcher.anchor(&mut backend).expect("pin an anchor");
    assert_eq!(
        discovered.provider_info().kind,
        ProviderKind::Custom,
        "an introducer-discovered peer is an anonymous source"
    );

    let mut backend = backend_holding(&[(ANCHOR, PeerOrigin::Priority)]);
    let mut priority = ChiaLightClient::new();
    priority.fetcher.anchor(&mut backend).expect("pin an anchor");
    assert_eq!(
        priority.provider_info().kind,
        ProviderKind::LocalNode,
        "a configured or co-resident peer must be reported as one"
    );
}

#[test]
fn the_provider_never_declares_itself_trustless() {
    let mut backend = backend_holding(&[(ANCHOR, PeerOrigin::Priority)]);
    let mut client = ChiaLightClient::new();
    client.fetcher.anchor(&mut backend).expect("pin an anchor");
    let info = client.provider_info();
    assert!(
        !info.trustless,
        "a light-client answer is one peer's word, whatever its origin"
    );
    assert_eq!(info.priority, DEFAULT_PROVIDER_PRIORITY);
    assert_eq!(info.id, "chia-query-light-client");
}

#[test]
fn the_provider_priority_is_ahead_of_the_coinset_tier() {
    assert_eq!(DEFAULT_PROVIDER_PRIORITY, 20);
}

#[test]
fn the_fixture_addresses_are_distinct() {
    let a: SocketAddr = address(ANCHOR);
    let b: SocketAddr = address(IMPOSTOR);
    assert_ne!(a, b);
}

#[test]
fn an_empty_pool_pins_no_anchor() {
    let mut backend = PeerBackend::<()>::new(NetworkType::Mainnet, 3);
    let mut fetcher = PooledFetcher::new();
    assert_eq!(
        fetcher.anchor(&mut backend).err(),
        Some(LightClientError::Transport(
            "peer connection failed: no peers available".to_string()
        ))
    );
}

#[test]
fn a_peer_whose_session_ended_is_not_pinned() {
    let mut backend = PeerBackend::new(NetworkType::Mainnet, 1);
    let source = backend
        .pool
        .admit_and_follow((), address(ANCHOR), PeerOrigin::Discovered, 0)
        .expect("admitted");
    backend.pool.end_session(source, SessionEndReason::Disconnected);
    let mut fetcher = PooledFetcher::new();
    assert_eq!(
        fetcher.anchor(&mut backend).err(),
        Some(LightClientError::NotConnected)
    );
}

#[test]
fn a_failed_read_discards_its_peer() {
    let mut backend = backend_holding(&[(ANCHOR, PeerOrigin::Discovered)]);
    let mut fetcher = PooledFetcher::new();
    let (address, _) = fetcher.session(&mut backend, true).expect("pin an anchor");
    let kept = fetcher.keep_or_discard(&mut backend, address, Ok(5));
    assert_eq!(kept, Ok(5));
    assert_eq!(backend.peer_count(), 1);
    let failed = fetcher.keep_or_discard::<(), u8>(
        &mut backend,
        address,
        Err(LightClientError::Timeout),
    );
    assert_eq!(failed, Err(LightClientError::Timeout));
    assert_eq!(backend.peer_count(), 0);
    assert!(fetcher.needs_rearm());
}

#[test]
fn every_failure_of_a_light_read_is_named() {
    assert_eq!(light_reply(Reply::Answered(1), "no"), Ok(1));
    assert_eq!(light_reply::<u8>(Reply::TimedOut, "no"), Err(LightClientError::Timeout));
    assert_eq!(
        light_reply::<u8>(Reply::Failed("x".to_string()), "no"),
        Err(LightClientError::Transport("x".to_string()))
    );
    assert_eq!(
        light_reply::<u8>(Reply::Rejected, "no"),
        Err(LightClientError::Rejected("no".to_string()))
    );
    assert_eq!(light_response(Response::Answered(1)), Ok(1));
    assert_eq!(light_response::<u8>(Response::TimedOut), Err(LightClientError::Timeout));
    assert_eq!(
        light_response::<u8>(Response::Failed("x".to_string())),
        Err(LightClientError::Transport("x".to_string()))
    );
}

fn page(states: usize, height: u32, is_finished: bool) -> PuzzleStatePage {
    PuzzleStatePage {
        coin_states: vec![
            CoinState { coin: coin(1), created_height: Some(1), spent_height: None };
            states
        ],
        height,
        header_hash: hash(height as u8),
        is_finished,
    }
}

#[test]
fn a_paged_read_goes_on_until_the_peer_says_it_is_finished() {
    let mut read = PagedRead::start(hash(0xFE));
    assert_eq!(read.position(), (None, hash(0xFE)));
    assert!(matches!(
        read.page(Reply::Answered(page(2, 10, false))),
        PagedStep::Next(Some(10), header) if header == hash(10)
    ));
    assert_eq!(read.position(), (Some(10), hash(10)));
    assert!(matches!(
        read.page(Reply::Answered(page(3, 20, true))),
        PagedStep::Complete(states) if states.len() == 5
    ));
}

fn refusal(step: PagedStep) -> Option<String> {
    match step {
        PagedStep::Refused(LightClientError::Rejected(text)) => Some(text),
        _ => None,
    }
}

#[test]
fn a_paged_read_that_does_not_advance_is_refused() {
    let mut read = PagedRead::start(hash(0xFE));
    assert!(matches!(read.page(Reply::Answered(page(1, 10, false))), PagedStep::Next(..)));
    assert_eq!(
        refusal(read.page(Reply::Answered(page(1, 10, false)))).as_deref(),
        Some("puzzle-state paging did not advance the height")
    );
}

#[test]
fn a_paged_read_is_bounded_in_states_and_in_pages() {
    let mut read = PagedRead::start(hash(0xFE));
    assert_eq!(
        refusal(read.page(Reply::Answered(page(MAX_ACCUMULATED_COIN_STATES + 1, 10, true)))).as_deref(),
        Some("puzzle-state response exceeded 500000 coins")
    );
    let mut read = PagedRead::start(hash(0xFE));
    assert!(matches!(
        read.page(Reply::Answered(page(MAX_ACCUMULATED_COIN_STATES, 10, true))),
        PagedStep::Complete(_)
    ));

    let mut read = PagedRead::start(hash(0xFE));
    for height in 1..MAX_PUZZLE_STATE_PAGES as u32 {
        assert!(matches!(read.page(Reply::Answered(page(0, height, false))), PagedStep::Next(..)));
    }
    assert_eq!(
        refusal(read.page(Reply::Answered(page(0, MAX_PUZZLE_STATE_PAGES as u32, false)))).as_deref(),
        Some("puzzle-state paging exceeded 10000 pages")
    );
}

#[test]
fn a_subscription_is_kept_only_once_it_is_answered() {
    let c = coin(9);
    let state = CoinState { coin: c, created_height: Some(5), spent_height: None };
    let mut client = ChiaLightClient::new();
    assert_eq!(
        client.subscribe_coins(&[c.coin_id()], Err(LightClientError::Timeout)),
        Err(LightClientError::Timeout)
    );
    assert!(!client.cache.is_subscribed_coin(c.coin_id()));
    assert_eq!(client.subscribe_coins(&[c.coin_id()], Ok(vec![state])), Ok(()));
    assert_eq!(client.cache.get(c.coin_id()), Some(state));
    assert_eq!(client.subscribe_puzzle_hashes(&[hash(3)], Ok(vec![])), Ok(()));
    assert_eq!(client.cache.subscribed_puzzle_hashes(), vec![hash(3)]);

    assert_eq!(
        client.unsubscribe_coins(&[c.coin_id()], Err(LightClientError::Timeout)),
        Err(LightClientError::Timeout)
    );
    assert!(client.cache.is_subscribed_coin(c.coin_id()));
    assert_eq!(client.unsubscribe_coins(&[c.coin_id()], Ok(())), Ok(()));
    assert!(!client.cache.is_subscribed_coin(c.coin_id()));
}

#[test]
fn everything_is_armed_again_before_the_client_says_so() {
    let c = coin(9);
    let mut backend = backend_holding(&[(ANCHOR, PeerOrigin::Discovered)]);
    let mut client = ChiaLightClient::new();
    client.subscribe_coins(&[c.coin_id()], Ok(vec![])).expect("subscribed");
    client.subscribe_puzzle_hashes(&[hash(3)], Ok(vec![])).expect("subscribed");
    let anchor = client.fetcher.anchor(&mut backend).expect("pin an anchor").0;
    client.fetcher.release_anchor(anchor.source);
    assert!(client.needs_rearm());

    let Rearm::Coins { coins, puzzle_hashes } = client.reconnect() else {
        panic!("the coins come first");
    };
    assert_eq!(coins, vec![c.coin_id()]);
    let Ok(Rearm::PuzzleHashes { puzzle_hashes }) =
        client.rearmed_coins(&coins, puzzle_hashes, Ok(vec![]))
    else {
        panic!("the puzzle hashes come next");
    };
    assert!(client.needs_rearm());
    assert_eq!(client.rearmed_puzzle_hashes(&puzzle_hashes, Ok(vec![])), Ok(()));
    assert!(!client.needs_rearm());
}

#[test]
fn an_acknowledgement_is_read_as_it_stands() {
    assert_eq!(
        ChiaLightClient::submit_spend(Ok((1, None))),
        Ok(SubmitOutcome::Accepted)
    );
    assert_eq!(
        ChiaLightClient::submit_spend(Err(LightClientError::Timeout)),
        Err(LightClientError::Timeout)
    );
}

#[test]
fn a_page_that_does_not_come_ends_the_read() {
    let mut read = PagedRead::start(hash(0xFE));
    assert_eq!(
        refusal(read.page(Reply::Rejected)).as_deref(),
        Some("puzzle-state request rejected")
    );
    assert!(matches!(
        read.page(Reply::TimedOut),
        PagedStep::Refused(LightClientError::Timeout)
    ));
}

#[test]
fn a_peer_that_fails_a_light_read_is_dropped_and_unpinned() {
    let held = || {
        let mut backend = backend_holding(&[(ANCHOR, PeerOrigin::Discovered)]);
        let mut fetcher = PooledFetcher::new();
        fetcher.anchor(&mut backend).expect("pin an anchor");
        (backend, fetcher)
    };
    let at = address(ANCHOR);

    let (mut backend, mut fetcher) = held();
    assert_eq!(fetcher.coin_states(&mut backend, at, Reply::Answered(vec![])), Ok(vec![]));
    assert_eq!(fetcher.children(&mut backend, at, Response::Answered(vec![])), Ok(vec![]));
    assert_eq!(
        fetcher.send_transaction(&mut backend, at, Response::Answered((1, None))),
        Ok((1, None))
    );
    assert_eq!(
        fetcher.remove_coin_subscriptions(&mut backend, at, Response::Answered(())),
        Ok(())
    );
    assert_eq!(
        fetcher.puzzle_and_solution(&mut backend, at, Reply::Answered((vec![1], vec![2]))),
        Ok((vec![1], vec![2]))
    );
    assert_eq!(backend.peer_count(), 1);
    assert!(!fetcher.needs_rearm());

    assert_eq!(
        fetcher.puzzle_and_solution(&mut backend, at, Reply::Rejected),
        Err(LightClientError::Rejected(
            "peer rejected puzzle/solution for a known-spent coin".to_string()
        ))
    );
    assert_eq!(backend.peer_count(), 0);
    assert!(fetcher.needs_rearm());

    let (mut backend, mut fetcher) = held();
    assert_eq!(
        fetcher.coin_states(&mut backend, at, Reply::Rejected),
        Err(LightClientError::Rejected("coin-state request rejected".to_string()))
    );
    assert!(fetcher.needs_rearm());
}
