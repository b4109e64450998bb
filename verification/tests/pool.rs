use std::collections::HashSet;

use chia_query::address::{IpAddr, SocketAddr};
use chia_query::peer::connect::PeerOrigin;
use chia_query::peer::frames::{
    FrameSource, FrameSubscription, PoolFrame, SessionEndReason, SourcedFrame,
};
use chia_query::peer::plurality::{
    default_max_peers, CORROBORATION_FLOOR, PEAK_LAG_EVICTION, PEER_LIFETIME, PRIORITY_SLOTS,
    QUORUM_SAMPLE,
};
use chia_query::peer::pool::{
    coin_states_frame, CorroborationReadiness, InboundMessage, PeerPool, PeerRequirement,
    FILL_ROUNDS,
};
use chia_query::peer::selection::{dials_for, most_credible, DialCandidate};
use chia_query::protocol::{Bytes32, Coin, CoinState};
use chia_query::types::ChiaQueryError;
use chia_query::wire::{CoinStateUpdate, NewPeak};
use chia_traits::Streamable;

type Pool = PeerPool<()>;

const MILLISECOND: u128 = 1_000_000;
const SECOND: u128 = 1_000 * MILLISECOND;
const NOW: u128 = 10_000 * SECOND;

fn address(last: u8) -> SocketAddr {
    SocketAddr::new(IpAddr::v4(203, 0, 113, last), 8444)
}

fn address_v6(last: u16) -> SocketAddr {
    SocketAddr::new(IpAddr::V6(0x2001_0db8u128 << 96 | last as u128), 8444)
}

fn empty_pool(max_peers: usize) -> Pool {
    PeerPool::new(max_peers)
}

fn admit_at(pool: &mut Pool, address: SocketAddr, origin: PeerOrigin, admitted_at: u128) -> bool {
    pool.admit_and_follow((), address, origin, admitted_at).is_some()
}

fn admitted(pool: &mut Pool, address: SocketAddr, origin: PeerOrigin) -> bool {
    admit_at(pool, address, origin, NOW)
}

fn admit_at_peak(pool: &mut Pool, address: SocketAddr, origin: PeerOrigin, peak: u32) -> bool {
    match pool.admit_and_follow((), address, origin, NOW) {
        Some(source) => {
            if peak > 0 {
                let header_hash = Bytes32::new([peak as u8; 32]);
                pool.peak_announced(source, NewPeak { header_hash, height: peak });
            }
            true
        }
        None => false,
    }
}

/// Has the peer at `address` announce `peak`.
fn announce(pool: &mut Pool, address: SocketAddr, peak: u32) -> bool {
    match pool.subscribe_frames(address, 1) {
        Some(subscription) => {
            let source = subscription.source();
            pool.unsubscribe(subscription);
            pool.peak_announced(
                source,
                NewPeak { header_hash: Bytes32::new([0; 32]), height: peak },
            );
            true
        }
        None => false,
    }
}

#[test]
fn one_address_cannot_fill_the_pool_however_many_fills_race() {
    let mut pool = empty_pool(8);
    let occupied = address(1);

    let admitted = (0..8)
        .filter(|_| admitted(&mut pool, occupied, PeerOrigin::Priority))
        .count();

    assert_eq!(
        admitted, 1,
        "exactly one fill of an address may be admitted"
    );
    assert_eq!(
        pool.peer_count(),
        1,
        "eight fills of one address must leave one connection, not eight"
    );
}

#[test]
fn distinct_addresses_all_fill_concurrently() {
    let mut pool = empty_pool(8);

    for octet in 1..=8u8 {
        admitted(&mut pool, address(octet), PeerOrigin::Discovered);
    }

    assert_eq!(
        pool.peer_count(),
        8,
        "eight distinct addresses must all be admitted"
    );
}

#[test]
fn concurrent_fills_never_exceed_max_peers() {
    let mut pool = empty_pool(3);

    for octet in 1..=10u8 {
        admitted(&mut pool, address(octet), PeerOrigin::Discovered);
    }

    assert_eq!(pool.peer_count(), 3, "max_peers is a hard ceiling");
}

#[test]
fn a_preferred_peer_is_held_but_not_counted_as_an_independent_opinion() {
    let mut pool = empty_pool(5);

    assert!(admitted(&mut pool, address(1), PeerOrigin::Priority));
    assert!(admitted(&mut pool, address(2), PeerOrigin::Discovered));
    assert!(admitted(&mut pool, address(3), PeerOrigin::Discovered));

    assert_eq!(pool.peer_count(), 3, "three connections are held");
    assert_eq!(
        pool.independent_peer_count(),
        2,
        "the co-resident peer is held and read from, but is not an independent voice"
    );
}

#[test]
fn an_ejected_address_can_be_admitted_again() {
    let mut pool = empty_pool(5);
    let addr = address(1);

    assert!(admitted(&mut pool, addr, PeerOrigin::Discovered));
    assert!(
        !admitted(&mut pool, addr, PeerOrigin::Discovered),
        "still held, so still a duplicate"
    );

    pool.eject_peer(addr);

    assert!(
        admitted(&mut pool, addr, PeerOrigin::Discovered),
        "a re-dialled peer must be admissible after ejection"
    );
    assert_eq!(pool.peer_count(), 1);
}

fn pool_with_no_connection_attempts(requirement: PeerRequirement) -> Result<Pool, ChiaQueryError> {
    let pool = empty_pool(0);
    assert!(pool.next_round(0, None).is_none());
    pool.check_requirement(requirement)?;
    Ok(pool)
}

#[test]
fn empty_pool_is_fatal_when_peers_are_required() {
    assert!(matches!(
        pool_with_no_connection_attempts(PeerRequirement::Required),
        Err(ChiaQueryError::PeerDiscoveryFailed)
    ));
}

#[test]
fn empty_pool_is_tolerated_when_peers_are_optional() {
    let pool = pool_with_no_connection_attempts(PeerRequirement::Optional)
        .expect("an optional peer pool must construct with zero peers");
    assert!(!pool.has_peers());
}

#[test]
fn an_unfilled_pool_counts_what_it_holds_not_the_target_it_was_given() {
    let mut pool = empty_pool(5);

    assert_eq!(
        pool.peer_count(),
        0,
        "held is 0 while the target is 5"
    );
    assert!(!pool.has_peers());
}

#[test]
fn an_over_age_peer_is_rotated_out_with_no_request_having_failed() {
    let mut pool = empty_pool(7);

    let stale = address(1);
    let fresh = address(2);
    let long_past = NOW - (PEER_LIFETIME + 100 * SECOND);

    assert!(admit_at(&mut pool, stale, PeerOrigin::Discovered, long_past));
    assert!(admit_at(&mut pool, fresh, PeerOrigin::Discovered, NOW));

    let rotated = pool.cycle_expired_peers(NOW);

    assert_eq!(
        rotated,
        Some(stale),
        "the peer past its lifetime must be rotated out on age alone"
    );
    assert_eq!(
        pool.held_addresses(),
        vec![fresh],
        "cycling must remove the over-age peer and keep the fresh one"
    );
}

#[test]
fn peers_within_their_lifetime_are_not_rotated() {
    let mut pool = empty_pool(7);

    for octet in 1..=3u8 {
        assert!(
            admit_at(&mut pool, address(octet),
                PeerOrigin::Discovered,
                NOW - (PEER_LIFETIME - 30 * SECOND),
            )
        );
    }

    assert_eq!(
        pool.cycle_expired_peers(NOW),
        None,
        "a peer inside its lifetime must not be rotated"
    );
    assert_eq!(pool.peer_count(), 3);
}

#[test]
fn an_over_age_priority_peer_is_not_rotated() {
    let mut pool = empty_pool(7);
    let long_past = NOW - (PEER_LIFETIME + 100 * SECOND);

    assert!(admit_at(&mut pool, address(1), PeerOrigin::Priority, long_past));

    assert_eq!(pool.cycle_expired_peers(NOW), None);
    assert_eq!(pool.peer_count(), 1);
}

#[test]
fn one_priority_entry_does_not_cost_the_quorum() {
    let mut pool = empty_pool(default_max_peers());

    assert!(admitted(&mut pool, address(1), PeerOrigin::Priority));
    for octet in 2..=(default_max_peers() as u8) {
        assert!(admitted(&mut pool, address(octet), PeerOrigin::Discovered));
    }

    assert_eq!(pool.peer_count(), default_max_peers());
    let owed = QUORUM_SAMPLE + 1;
    let independent = pool.independent_peer_count();
    assert!(
        independent >= owed,
        "a full pool holding one priority entry still owes a whole sample plus the session being followed; it holds {independent}"
    );
}

#[test]
fn a_pool_below_the_corroboration_floor_refuses_rather_than_degrading() {
    let mut pool = empty_pool(7);

    for octet in 1..=2u8 {
        assert!(admitted(&mut pool, address(octet), PeerOrigin::Discovered));
    }

    assert_eq!(
        pool.corroboration_readiness(address(1)),
        CorroborationReadiness::Insufficient {
            corroborators: 1,
            required: CORROBORATION_FLOOR,
        }
    );
}

#[test]
fn a_pool_at_the_corroboration_floor_arms() {
    let mut pool = empty_pool(7);

    for octet in 1..=(CORROBORATION_FLOOR as u8 + 1) {
        assert!(admitted(&mut pool, address(octet), PeerOrigin::Discovered));
    }

    assert_eq!(
        pool.corroboration_readiness(address(1)),
        CorroborationReadiness::Armed {
            corroborators: CORROBORATION_FLOOR
        }
    );
}

#[test]
fn priority_peers_cannot_arm_the_corroboration_gate() {
    let mut pool = empty_pool(7);

    assert!(admitted(&mut pool, address(1), PeerOrigin::Discovered));
    for octet in 2..=(CORROBORATION_FLOOR as u8 + 1) {
        assert!(admitted(&mut pool, address(octet), PeerOrigin::Priority));
    }

    assert!(matches!(
        pool.corroboration_readiness(address(1)),
        CorroborationReadiness::Insufficient { .. }
    ));
}

#[test]
fn a_priority_peer_answering_does_not_consume_an_independent_slot() {
    let mut pool = empty_pool(7);

    for octet in 1..=(CORROBORATION_FLOOR as u8) {
        assert!(admitted(&mut pool, address(octet), PeerOrigin::Discovered));
    }
    let preferred = address(200);
    assert!(admitted(&mut pool, preferred, PeerOrigin::Priority));

    assert_eq!(
        pool.corroboration_readiness(preferred),
        CorroborationReadiness::Armed {
            corroborators: CORROBORATION_FLOOR
        },
        "a preferred peer is not an independent voice, so answering from one cannot cost the independent set a member"
    );
}

#[test]
fn corroboration_readiness_and_select_use_the_same_predicate() {
    let mut pool = empty_pool(7);

    let asked = address(100);
    let priority = address(200);
    let discovered_1 = address(1);
    let discovered_2 = address(2);

    assert!(admitted(&mut pool, asked, PeerOrigin::Discovered));
    assert!(admitted(&mut pool, priority, PeerOrigin::Priority));
    assert!(admitted(&mut pool, discovered_1, PeerOrigin::Discovered));
    assert!(admitted(&mut pool, discovered_2, PeerOrigin::Discovered));

    let readiness = pool.corroboration_readiness(asked);
    let selected = pool.select_corroborating_peers(asked);

    let readiness_count = match readiness {
        CorroborationReadiness::Armed { corroborators } => corroborators,
        CorroborationReadiness::Insufficient { corroborators, .. } => corroborators,
    };

    assert_eq!(
        readiness_count,
        selected.len(),
        "corroboration_readiness and select_corroborating_peers must use the same predicate"
    );
    assert_eq!(
        readiness_count, 2,
        "both should count exactly the two Discovered peers that are not the asker"
    );
}

#[test]
fn fill_rounds_leaves_a_discovery_round_and_one_of_attrition() {
    let for_discovery = FILL_ROUNDS - PRIORITY_SLOTS;

    assert_eq!(
        for_discovery, 2,
        "FILL_ROUNDS ({FILL_ROUNDS}) minus the {PRIORITY_SLOTS} rounds the priority addresses can consume must leave a discovery round and one of attrition"
    );
    assert_eq!(
        FILL_ROUNDS,
        PRIORITY_SLOTS + 2,
        "FILL_ROUNDS stays coupled to PRIORITY_SLOTS + 2"
    );
}

/// The body of a `NewPeakWallet` at `height`.
fn peak_message(height: u32) -> InboundMessage {
    let peak = chia_protocol::NewPeakWallet::new(
        chia_protocol::Bytes32::new([height as u8; 32]),
        height,
        0,
        0,
    );
    InboundMessage::NewPeakWallet(peak.to_bytes().expect("encode a peak"))
}

/// One byte, far short of what the body of a `NewPeakWallet` takes.
fn undecodable_peak_message() -> InboundMessage {
    InboundMessage::NewPeakWallet(vec![0x00])
}

/// Delivers `messages` in order, as a session does: what ends it ends it.
fn deliver(pool: &mut Pool, source: FrameSource, messages: Vec<InboundMessage>) {
    for message in messages {
        if let Some(reason) = pool.receive(source, message) {
            pool.end_session(source, reason);
            return;
        }
    }
}

fn drained(pool: &mut Pool, subscription: &mut FrameSubscription) -> Vec<SourcedFrame> {
    let mut seen = Vec::new();
    while let Ok(frame) = pool.try_recv(subscription) {
        seen.push(frame);
    }
    seen
}

/// Admits a peer at `addr`, and follows its session.
fn followed_session(pool: &mut Pool, addr: SocketAddr) -> (FrameSubscription, FrameSource) {
    let before = pool.held_addresses().len();
    let source = pool
        .admit_and_follow((), addr, PeerOrigin::Discovered, NOW)
        .expect("the fixture peer must be admitted");
    assert_eq!(pool.held_addresses().len(), before + 1);
    let subscription = pool.subscribe_frames(addr, 32).expect("the session is running");
    assert_eq!(subscription.source(), source);
    (subscription, source)
}

#[test]
fn a_frame_reaching_a_subscriber_names_the_session_it_came_from() {
    let mut pool = empty_pool(4);

    let (mut first, first_source) = followed_session(&mut pool, address(1));
    let (mut second, second_source) = followed_session(&mut pool, address(2));

    deliver(&mut pool, first_source, vec![peak_message(100)]);
    deliver(&mut pool, second_source, vec![peak_message(200)]);

    let mut seen = drained(&mut pool, &mut first);
    seen.extend(drained(&mut pool, &mut second));

    let peaks: Vec<(SocketAddr, u32)> = seen
        .iter()
        .filter_map(|f| match f.frame {
            PoolFrame::Peak { height, .. } => Some((f.source.address, height)),
            _ => None,
        })
        .collect();

    assert!(
        peaks.contains(&(address(1), 100)),
        "peer 1's peak must arrive under peer 1's address: {peaks:?}"
    );
    assert!(
        peaks.contains(&(address(2), 200)),
        "peer 2's peak must arrive under peer 2's address: {peaks:?}"
    );
    assert_ne!(
        first_source.session, second_source.session,
        "two sessions must not share an identity"
    );
}

#[test]
fn an_undecodable_frame_ends_the_session_rather_than_being_skipped() {
    let mut pool = empty_pool(4);
    let (mut subscription, source) = followed_session(&mut pool, address(1));

    deliver(
        &mut pool,
        source,
        vec![peak_message(100), undecodable_peak_message(), peak_message(101)],
    );

    let seen = drained(&mut pool, &mut subscription);
    let frames: Vec<&PoolFrame> = seen
        .iter()
        .filter(|f| f.source == source)
        .map(|f| &f.frame)
        .collect();

    assert!(
        frames
            .iter()
            .any(|f| matches!(f, PoolFrame::Peak { height: 100, .. })),
        "the frames before the bad one are still delivered: {frames:?}"
    );
    assert!(
        frames.contains(&&PoolFrame::SessionEnded {
            reason: SessionEndReason::UndecodableFrame
        }),
        "an undecodable frame must END the session, loudly: {frames:?}"
    );
    assert!(
        !frames
            .iter()
            .any(|f| matches!(f, PoolFrame::Peak { height: 101, .. })),
        "nothing after the undecodable frame belongs to this session: {frames:?}"
    );
}

#[test]
fn a_session_fed_only_valid_frames_stays_open() {
    let mut pool = empty_pool(4);
    let (mut subscription, source) = followed_session(&mut pool, address(1));

    deliver(
        &mut pool,
        source,
        vec![peak_message(100), peak_message(101)],
    );

    let seen = drained(&mut pool, &mut subscription);
    let frames: Vec<&PoolFrame> = seen
        .iter()
        .filter(|f| f.source == source)
        .map(|f| &f.frame)
        .collect();

    assert!(
        !frames
            .iter()
            .any(|f| matches!(f, PoolFrame::SessionEnded { .. })),
        "a well-behaved session must stay open: {frames:?}"
    );
    assert_eq!(
        frames
            .iter()
            .filter(|f| matches!(f, PoolFrame::Peak { .. }))
            .count(),
        2,
        "both valid peaks must be delivered: {frames:?}"
    );
}

#[test]
fn a_closed_transport_ends_the_session_loudly() {
    let mut pool = empty_pool(4);
    let (mut subscription, source) = followed_session(&mut pool, address(1));

    pool.end_session(source, SessionEndReason::Disconnected);

    let seen = drained(&mut pool, &mut subscription);
    assert!(
        seen.iter().any(|f| f.source == source
            && f.frame
                == PoolFrame::SessionEnded {
                    reason: SessionEndReason::Disconnected
                }),
        "a dropped transport must be announced, not left as silence: {seen:?}"
    );
}

#[test]
fn a_peer_whose_session_ended_is_ejected_without_waiting_for_a_failure() {
    let mut pool = empty_pool(4);

    let (mut subscription, dying_source) = followed_session(&mut pool, address(1));
    let (_surviving, _) = followed_session(&mut pool, address(2));

    pool.end_session(dying_source, SessionEndReason::Disconnected);

    let seen = drained(&mut pool, &mut subscription);
    assert!(
        seen.iter()
            .any(|f| f.source == dying_source
                && matches!(f.frame, PoolFrame::SessionEnded { .. })),
        "the fixture depends on the session actually ending: {seen:?}"
    );

    assert_eq!(
        pool.held_addresses().len(),
        2,
        "a dead session is still HELD until maintenance runs - which is the gap being closed"
    );

    pool.eject_dead_sessions();

    assert_eq!(
        pool.held_addresses(),
        vec![address(2)],
        "exactly the peer whose session ended is removed"
    );
}

#[test]
fn a_replacement_at_the_same_address_survives_its_predecessors_death() {
    let mut pool = empty_pool(4);

    let (mut subscription, dying_source) = followed_session(&mut pool, address(1));
    pool.end_session(dying_source, SessionEndReason::Disconnected);

    let seen = drained(&mut pool, &mut subscription);
    assert!(
        seen.iter()
            .any(|f| f.source == dying_source
                && matches!(f.frame, PoolFrame::SessionEnded { .. })),
        "the fixture depends on the session actually ending: {seen:?}"
    );

    pool.eject_peer(address(1));
    assert!(pool.held_addresses().is_empty());

    let (_replacement, replacement_source) = followed_session(&mut pool, address(1));
    assert_ne!(replacement_source.session, dying_source.session);

    pool.eject_dead_sessions();

    assert_eq!(
        pool.held_addresses(),
        vec![address(1)],
        "the replacement session must survive its predecessor's death"
    );
}

#[test]
fn a_coin_state_update_transfers_every_field_into_its_frame() {
    let items = vec![CoinState {
        coin: Coin {
            parent_coin_info: Bytes32::new([7; 32]),
            puzzle_hash: Bytes32::new([8; 32]),
            amount: 9,
        },
        created_height: Some(150),
        spent_height: None,
    }];
    let peak_hash = Bytes32::new([0xBB; 32]);
    let sent = chia_protocol::CoinStateUpdate::new(
        200,
        199,
        chia_protocol::Bytes32::new([0xBB; 32]),
        vec![chia_protocol::CoinState {
            coin: chia_protocol::Coin::new(
                chia_protocol::Bytes32::new([7; 32]),
                chia_protocol::Bytes32::new([8; 32]),
                9,
            ),
            spent_height: None,
            created_height: Some(150),
        }],
    );
    let bytes = sent.to_bytes().expect("a CoinStateUpdate is streamable");

    let mut pool = empty_pool(1);
    let (mut subscription, source) = followed_session(&mut pool, address(1));
    assert_eq!(pool.receive(source, InboundMessage::CoinStateUpdate(bytes)), None);
    let delivered = drained(&mut pool, &mut subscription)
        .pop()
        .expect("the update must be delivered")
        .frame;
    let translated = coin_states_frame(CoinStateUpdate {
        height: 200,
        fork_height: 199,
        peak_hash,
        items: items.clone(),
    });

    for frame in [delivered, translated] {
        let PoolFrame::CoinStates {
            height: got_height,
            fork_height: got_fork_height,
            peak_hash: got_peak_hash,
            items: got_items,
        } = frame
        else {
            panic!("a CoinStateUpdate must translate to a CoinStates frame");
        };

        assert_eq!(got_height, 200, "the peak height must be the update's own");
        assert_eq!(
            got_fork_height, 199,
            "crossing the fork height with the height reports a rewind that did not happen"
        );
        assert_eq!(
            got_peak_hash, peak_hash,
            "the header hash must travel with the height it belongs to"
        );
        assert_eq!(got_items, items, "the coin states are the payload");
    }
}

const CURRENT: u32 = 9_196_851;

fn pool_at_peaks(max_peers: usize, peaks: &[u32]) -> Pool {
    let mut pool = empty_pool(max_peers);
    for (i, peak) in peaks.iter().enumerate() {
        assert!(
            admit_at_peak(&mut pool, address(i as u8 + 1),
                PeerOrigin::Discovered,
                *peak,
            ),
            "fixture peer {i} must be admitted"
        );
    }
    pool
}

#[test]
fn a_lagging_peer_is_evicted_though_nothing_failed_and_no_session_ended() {
    let lagging = CURRENT - PEAK_LAG_EVICTION - 1;
    let mut pool = pool_at_peaks(5, &[CURRENT, CURRENT, CURRENT, lagging]);

    let asked = address(9);
    assert_eq!(
        pool.corroboration_readiness(asked),
        CorroborationReadiness::Armed { corroborators: 4 },
        "the lagging peer is counted as a current voice until the eviction runs"
    );

    assert_eq!(
        pool.evict_lagging_peers(),
        vec![address(4)],
        "only the peer behind the reference is evicted"
    );
    assert_eq!(
        pool.held_addresses(),
        vec![address(1), address(2), address(3)],
        "the three current peers are untouched"
    );
    assert_eq!(
        pool.corroboration_readiness(asked),
        CorroborationReadiness::Armed { corroborators: 3 },
        "the corroboration denominator now counts only peers on the current chain"
    );
}

#[test]
fn the_eviction_bar_keeps_a_peer_at_it_and_drops_the_one_past_it() {
    let at_bar = CURRENT - PEAK_LAG_EVICTION;
    let past_bar = CURRENT - PEAK_LAG_EVICTION - 1;
    let mut pool = pool_at_peaks(5, &[CURRENT, CURRENT, CURRENT, at_bar, past_bar]);

    assert_eq!(
        pool.evict_lagging_peers(),
        vec![address(5)],
        "at the bar is current; one block past it is not"
    );
    assert!(
        pool.held_addresses().contains(&address(4)),
        "a peer exactly at the tolerance must survive"
    );
}

#[test]
fn one_peer_claiming_an_implausible_peak_cannot_pin_the_aggregate() {
    let mut pool = pool_at_peaks(5, &[CURRENT, CURRENT, CURRENT, u32::MAX]);

    assert_eq!(
        pool.peak_height(),
        CURRENT,
        "the honest majority's height wins over one absurd claim, not the claim itself"
    );
}

#[test]
fn the_aggregate_recovers_once_the_offending_peer_is_gone() {
    let mut pool = pool_at_peaks(5, &[CURRENT, CURRENT, CURRENT, u32::MAX]);
    assert_eq!(pool.peak_height(), CURRENT);

    pool.eject_peer(address(4));

    assert_eq!(
        pool.peak_height(),
        CURRENT,
        "still correct with the liar gone"
    );

    for addr in [address(1), address(2), address(3)] {
        pool.eject_peer(addr);
    }
    let advanced = CURRENT + 1_000;
    for i in 1..=3u8 {
        admit_at_peak(&mut pool, address(i + 10),
            PeerOrigin::Discovered,
            advanced,
        );
    }
    assert_eq!(
        pool.peak_height(),
        advanced,
        "the aggregate tracks a genuinely advancing chain after recovery"
    );
}
#[test]
fn a_single_announced_peak_is_reported_as_is() {
    let mut pool = pool_at_peaks(5, &[CURRENT]);
    assert_eq!(pool.peak_height(), CURRENT);
}

#[test]
fn no_announcement_yet_reports_zero() {
    let mut pool = empty_pool(5);
    assert_eq!(pool.peak_height(), 0);
}

#[test]
fn a_priority_only_pool_still_reports_a_peak() {
    let mut pool = empty_pool(5);
    assert!(
        admit_at_peak(&mut pool, address(1),
            PeerOrigin::Priority,
            CURRENT,
        )
    );

    assert_eq!(
        pool.peak_height(),
        CURRENT,
        "a priority-only pool (e.g. TRUSTED_FULLNODE + loopback) still reports its peak"
    );
}

#[test]
fn one_peer_claiming_an_inflated_peak_cannot_evict_the_honest_majority() {
    let mut pool = pool_at_peaks(5, &[CURRENT, CURRENT, CURRENT, CURRENT + 1_000_000]);

    assert!(
        pool.evict_lagging_peers().is_empty(),
        "a single inflated claim must not make the honest peers look behind"
    );
    assert_eq!(
        pool.held_addresses(),
        vec![address(1), address(2), address(3), address(4)],
        "every honest peer is still held"
    );
}

#[test]
fn a_peer_that_has_announced_nothing_is_never_evicted_as_lagging() {
    let mut pool = pool_at_peaks(5, &[CURRENT, CURRENT, 0]);

    assert!(
        pool.evict_lagging_peers().is_empty(),
        "a peer that has not spoken has not fallen behind"
    );
    assert!(
        pool.held_addresses().contains(&address(3)),
        "the silent peer is still held"
    );
}

#[test]
fn a_lagging_priority_peer_is_kept_while_a_lagging_discovered_peer_goes() {
    let behind = CURRENT - PEAK_LAG_EVICTION - 1;
    let mut pool = empty_pool(5);
    for (i, peak) in [CURRENT, CURRENT, CURRENT, behind].iter().enumerate() {
        assert!(
            admit_at_peak(&mut pool, address(i as u8 + 1),
                PeerOrigin::Discovered,
                *peak,
            )
        );
    }
    assert!(
        admit_at_peak(&mut pool, address(5),
            PeerOrigin::Priority,
            behind,
        )
    );

    assert_eq!(
        pool.evict_lagging_peers(),
        vec![address(4)],
        "the discovered lagger goes and the priority one at the same peak stays"
    );
}

#[test]
fn lag_eviction_treats_an_ipv6_peer_exactly_as_it_treats_an_ipv4_one() {
    let behind = CURRENT - PEAK_LAG_EVICTION - 1;
    let mut pool = empty_pool(5);
    for (addr, peak) in [
        (address_v6(1), CURRENT),
        (address(1), CURRENT),
        (address_v6(2), behind),
    ] {
        assert!(
            admit_at_peak(&mut pool, addr,
                PeerOrigin::Discovered,
                peak,
            )
        );
    }

    assert_eq!(
        pool.evict_lagging_peers(),
        vec![address_v6(2)],
        "an IPv6 lagger is evicted"
    );
    assert!(
        pool.held_addresses()
            .contains(&address_v6(1)),
        "a current IPv6 peer is kept"
    );
}

#[test]
fn maintain_runs_the_lag_eviction() {
    let lagging = CURRENT - PEAK_LAG_EVICTION - 1;
    let mut pool = pool_at_peaks(4, &[CURRENT, CURRENT, CURRENT, lagging]);

    let _ = pool.maintain(NOW);

    assert!(
        !pool.held_addresses().contains(&address(4)),
        "the lagging peer must be gone after a maintenance pass"
    );
}

#[test]
fn a_peers_recorded_peak_comes_from_the_peak_it_announces() {
    let mut pool = empty_pool(2);
    let addr = address(1);
    let (mut subscription, source) = followed_session(&mut pool, addr);

    deliver(&mut pool, source, vec![peak_message(4242)]);
    assert_eq!(drained(&mut pool, &mut subscription).len(), 2);

    assert_eq!(
        pool.announced_peak(addr),
        Some(4242),
        "the announced peak must be recorded against the peer that announced it"
    );
}

fn pool_of(max_peers: usize, entries: &[(PeerOrigin, u32)]) -> Pool {
    let mut pool = empty_pool(max_peers);
    for (i, (origin, peak)) in entries.iter().enumerate() {
        assert!(
            admit_at_peak(&mut pool, address(i as u8 + 1),
                *origin,
                *peak,
            ),
            "fixture entry {i} must be admitted"
        );
    }
    pool
}

#[test]
fn hostile_priority_entries_cannot_vote_the_only_independent_peer_out() {
    let inflated = CURRENT + 1_000_000;
    let mut pool = pool_of(
        5,
        &[
            (PeerOrigin::Priority, inflated),
            (PeerOrigin::Priority, inflated),
            (PeerOrigin::Discovered, CURRENT),
        ],
    );
    assert_eq!(pool.independent_peer_count(), 1);

    assert!(
        pool.evict_lagging_peers().is_empty(),
        "peers that are not independent voices must not set the bar that evicts one"
    );
    assert_eq!(
        pool.independent_peer_count(),
        1,
        "the pool must not be emptied of independent voices by entries that never were any"
    );
}

#[test]
fn priority_entries_below_the_chain_cannot_shield_a_lagging_discovered_peer() {
    let stale = CURRENT - 500_000;
    let behind = CURRENT - PEAK_LAG_EVICTION - 1;
    let mut pool = pool_of(
        8,
        &[
            (PeerOrigin::Priority, stale),
            (PeerOrigin::Priority, stale),
            (PeerOrigin::Discovered, CURRENT),
            (PeerOrigin::Discovered, CURRENT),
            (PeerOrigin::Discovered, CURRENT),
            (PeerOrigin::Discovered, behind),
        ],
    );

    assert_eq!(
        pool.evict_lagging_peers(),
        vec![address(6)],
        "the reference follows the independent peers, so the lagger is still evicted"
    );
}

fn round_over(network: &[u64], dials: usize) -> Vec<DialCandidate<usize>> {
    network
        .iter()
        .take(dials)
        .enumerate()
        .map(|(i, ms)| DialCandidate {
            origin: PeerOrigin::Discovered,
            address: address(i as u8 + 1),
            handshake: *ms as u128 * MILLISECOND,
            connection: i,
        })
        .collect()
}

#[test]
fn dialling_wider_than_capacity_retains_better_peers_than_dialling_to_it() {
    const SLOTS: usize = 4;
    let network = [900, 700, 800, 750, 40, 90, 60, 20];

    let worst_kept = |dials: usize| {
        most_credible(round_over(&network, dials), SLOTS)
            .iter()
            .map(|c| c.handshake)
            .max()
            .expect("the round admitted nothing")
    };

    let narrow = worst_kept(SLOTS);
    let wide = worst_kept(dials_for(SLOTS));

    assert!(
        wide < narrow,
        "the wide round's worst kept peer ({wide:?}) must beat the narrow round's ({narrow:?})"
    );
    assert_eq!(
        most_credible(round_over(&network, dials_for(SLOTS)), SLOTS).len(),
        SLOTS,
        "widening the dial must not change how many slots are filled"
    );
}

#[test]
fn oversubscription_widens_the_candidate_set_and_never_the_capacity() {
    let network: Vec<u64> = (1..=64).collect();

    for slots in 1..=default_max_peers() {
        assert!(
            dials_for(slots) > slots,
            "a round with {slots} slots must offer more candidates than it can keep"
        );
        assert_eq!(
            most_credible(round_over(&network, dials_for(slots)), slots).len(),
            slots,
            "a round fills the slots it was given, never the dials it opened"
        );
    }

    assert_eq!(
        default_max_peers(),
        PRIORITY_SLOTS + 1 + QUORUM_SAMPLE + 1,
        "capacity remains derived from the sample; oversubscription is not one of its terms"
    );
}

fn candidate_at(addr: SocketAddr, origin: PeerOrigin, ms: u64) -> DialCandidate<()> {
    DialCandidate {
        origin,
        address: addr,
        handshake: ms as u128 * MILLISECOND,
        connection: (),
    }
}

#[test]
fn a_round_of_duplicate_winners_still_spends_its_slots_on_distinct_peers() {
    const SLOTS: usize = 8;
    let mut pool = empty_pool(SLOTS);
    let reachable_priority = address(1);

    let mut round = Vec::new();
    for i in 0..8u64 {
        round.push(candidate_at(reachable_priority, PeerOrigin::Priority, i));
    }
    for octet in 10..18u8 {
        round.push(candidate_at(address(octet), PeerOrigin::Discovered, 500));
    }

    pool.admit_most_credible(round, SLOTS, NOW);

    let held = pool.held_addresses();
    let distinct: HashSet<SocketAddr> = held.iter().copied().collect();
    assert_eq!(
        distinct.len(),
        SLOTS,
        "a round of {SLOTS} slots must admit {SLOTS} DISTINCT peers, not {} (held: {held:?})",
        distinct.len()
    );
    assert_eq!(
        pool.independent_peer_count(),
        SLOTS - 1,
        "the one priority entry costs one slot; the rest must be independent voices"
    );
}

#[test]
fn a_round_of_distinct_peers_is_unaffected_by_deduplication() {
    const SLOTS: usize = 8;
    let mut pool = empty_pool(SLOTS);

    let mut round = Vec::new();
    for octet in 1..=8u8 {
        round.push(candidate_at(address(octet), PeerOrigin::Discovered, 100));
    }

    let admitted = pool.admit_most_credible(round, SLOTS, NOW);

    assert_eq!(
        admitted.len(),
        SLOTS,
        "eight distinct candidates fill eight slots"
    );
    assert_eq!(pool.independent_peer_count(), SLOTS);
}

#[test]
fn deduplication_keeps_the_fastest_copy_of_a_repeated_address() {
    let repeated = address(1);
    let round = vec![
        DialCandidate {
            origin: PeerOrigin::Discovered,
            address: repeated,
            handshake: 900 * MILLISECOND,
            connection: 0usize,
        },
        DialCandidate {
            origin: PeerOrigin::Discovered,
            address: repeated,
            handshake: 10 * MILLISECOND,
            connection: 1usize,
        },
    ];

    let kept = most_credible(round, 4);

    assert_eq!(kept.len(), 1, "one address is one candidate");
    assert_eq!(
        kept[0].connection, 1,
        "the fastest copy of the address must be the one retained"
    );
}

#[test]
fn a_priority_candidate_outranks_a_faster_stranger() {
    let mut round = round_over(&[1, 2, 3], 3);
    round.push(DialCandidate {
        origin: PeerOrigin::Priority,
        address: address(99),
        handshake: 999 * MILLISECOND,
        connection: 99,
    });

    let kept = most_credible(round, 1);

    assert_eq!(kept.len(), 1);
    assert_eq!(
        kept[0].origin,
        PeerOrigin::Priority,
        "the operator's own node is admitted because they said so, not because it was quick"
    );
}

#[test]
fn a_pool_whose_only_speakers_are_priority_entries_evicts_nothing() {
    let mut pool = pool_of(
        5,
        &[
            (PeerOrigin::Priority, CURRENT + 1_000_000),
            (PeerOrigin::Priority, CURRENT - 1_000_000),
            (PeerOrigin::Discovered, 0),
        ],
    );

    assert!(
        pool.evict_lagging_peers().is_empty(),
        "no independent voice has spoken, so there is no bar to evict against"
    );
    assert_eq!(pool.held_addresses().len(), 3);
}

#[test]
fn the_announced_tip_recovers_once_an_over_claiming_peer_is_gone() {
    let mut pool = pool_at_peaks(5, &[CURRENT, u32::MAX, u32::MAX]);

    assert_eq!(
        pool.peak_height(),
        u32::MAX,
        "fixture must start WRONG, or recovery is untested"
    );

    pool.eject_peer(address(3));

    assert_eq!(
        pool.peak_height(),
        CURRENT,
        "a departed peer must take its claim with it"
    );
}

#[test]
fn an_ordinary_advancing_chain_still_moves_the_announced_tip() {
    let mut pool = pool_at_peaks(5, &[CURRENT, CURRENT, CURRENT]);
    assert_eq!(pool.peak_height(), CURRENT);

    const ADVANCED: u32 = CURRENT + 50;
    for i in 1..=3u8 {
        assert!(
            announce(&mut pool, address(i), ADVANCED),
            "fixture peer {i} must be held"
        );
    }

    assert_eq!(
        pool.peak_height(),
        ADVANCED,
        "the tip must follow an honestly advancing chain"
    );
}

fn address_in(subnet: u8, host: u8) -> SocketAddr {
    SocketAddr::new(IpAddr::v4(198, 51, subnet, host), 8444)
}

fn address_v6_in(subnet: u16, host: u16) -> SocketAddr {
    SocketAddr::new(
        IpAddr::V6(0x2001_0db8u128 << 96 | (subnet as u128) << 80 | host as u128),
        8444,
    )
}

#[test]
fn a_fast_single_subnet_cluster_cannot_take_every_slot_from_distinct_subnets() {
    const SLOTS: usize = 4;
    let mut pool = empty_pool(SLOTS);

    let mut round = Vec::new();
    for host in 1..=8u8 {
        round.push(candidate_at(address_in(7, host), PeerOrigin::Discovered, 10));
    }
    for subnet in [20u8, 21, 22] {
        round.push(
            candidate_at(address_in(subnet, 1), PeerOrigin::Discovered, 900),
        );
    }

    pool.admit_most_credible(round, SLOTS, NOW);

    let held = pool.held_addresses();
    let subnets: HashSet<u32> = held
        .iter()
        .map(|a| match a.ip {
            IpAddr::V4(bits) => bits >> 8 & 0xff,
            IpAddr::V6(_) => unreachable!("fixture is IPv4"),
        })
        .collect();

    assert_eq!(held.len(), SLOTS, "every slot must still be filled");
    assert_eq!(
        subnets.len(),
        4,
        "the {SLOTS} slots must reach 4 distinct /24s, not be consumed by the fast cluster (held: {held:?})"
    );
}

#[test]
fn the_spread_applies_across_ipv6_prefixes_too() {
    const SLOTS: usize = 3;
    let mut pool = empty_pool(SLOTS);

    let mut round = Vec::new();
    for host in 1..=6u16 {
        round.push(
            candidate_at(address_v6_in(0x11, host), PeerOrigin::Discovered, 10),
        );
    }
    for subnet in [0x22u16, 0x33] {
        round.push(
            candidate_at(address_v6_in(subnet, 1), PeerOrigin::Discovered, 900),
        );
    }

    pool.admit_most_credible(round, SLOTS, NOW);

    let held = pool.held_addresses();
    let prefixes: HashSet<u128> = held
        .iter()
        .map(|a| match a.ip {
            IpAddr::V6(bits) => bits >> 80 & 0xffff,
            IpAddr::V4(_) => unreachable!("fixture is IPv6"),
        })
        .collect();

    assert_eq!(held.len(), SLOTS, "every slot must still be filled");
    assert_eq!(
        prefixes.len(),
        3,
        "the {SLOTS} slots must reach 3 distinct /48s (held: {held:?})"
    );
}

#[test]
fn a_round_with_no_subnet_concentration_keeps_its_latency_order() {
    const SLOTS: usize = 3;

    let mut round = Vec::new();
    for (i, subnet) in [30u8, 31, 32, 33].iter().enumerate() {
        round.push(
            candidate_at(address_in(*subnet, 1),
                PeerOrigin::Discovered,
                100 + i as u64 * 100,
            ),
        );
    }

    let kept = most_credible(round, SLOTS);
    let addrs: Vec<SocketAddr> = kept.iter().map(|c| c.address).collect();

    assert_eq!(
        addrs,
        vec![address_in(30, 1), address_in(31, 1), address_in(32, 1)],
        "with one candidate per subnet the spread is the identity and the fastest three win"
    );
}

#[test]
fn a_host_that_can_only_reach_one_subnet_still_fills_every_slot() {
    const SLOTS: usize = 5;
    let mut pool = empty_pool(SLOTS);

    let mut round = Vec::new();
    for host in 1..=8u8 {
        round.push(
            candidate_at(address_in(9, host), PeerOrigin::Discovered, 10 + host as u64),
        );
    }

    pool.admit_most_credible(round, SLOTS, NOW);

    assert_eq!(
        pool.held_addresses().len(),
        SLOTS,
        "a single-subnet host must still fill its pool rather than fall back to the centralized tier"
    );
}
