use chia_query::address::{IpAddr, SocketAddr};
use chia_query::peer::frames::{
    FrameFanout, FrameSource, FrameSubscription, PoolFrame, SessionEndReason, SourcedFrame,
    TryRecvError, MAX_FRAME_COIN_STATES,
};
use chia_query::protocol::Bytes32;

fn addr(last: u8) -> SocketAddr {
    SocketAddr::new(IpAddr::v4(203, 0, 113, last), 8444)
}

fn live_session(fanout: &mut FrameFanout, last: u8) -> FrameSource {
    let source = fanout.allocate_session(addr(last));
    fanout.open_session(source);
    source
}

fn peak(height: u32) -> PoolFrame {
    PoolFrame::Peak {
        height,
        header_hash: Bytes32::new([height as u8; 32]),
    }
}

fn ended() -> PoolFrame {
    PoolFrame::SessionEnded {
        reason: SessionEndReason::Disconnected,
    }
}

fn drained(fanout: &mut FrameFanout, subscription: &mut FrameSubscription) -> Vec<SourcedFrame> {
    let mut seen = Vec::new();
    while let Ok(sourced) = subscription.try_recv(fanout) {
        seen.push(sourced);
    }
    seen
}

fn frames_of(seen: &[SourcedFrame]) -> Vec<PoolFrame> {
    seen.iter().map(|f| f.frame.clone()).collect()
}

#[test]
fn a_peer_that_is_not_followed_cannot_end_the_subscription() {
    let mut fanout = FrameFanout::new();
    let followed = live_session(&mut fanout, 1);
    let flooder = live_session(&mut fanout, 2);

    let mut subscription = fanout
        .subscribe(followed, 4)
        .expect("the followed session is live");

    for height in 1..=64u32 {
        fanout.publish(flooder, &peak(height));
    }
    fanout.publish(followed, &peak(500));

    let seen = drained(&mut fanout, &mut subscription);

    assert!(
        seen.iter().all(|f| f.source == followed),
        "a subscription must receive ONLY the frames of the session it follows: {seen:?}"
    );
    assert_eq!(
        frames_of(&seen),
        vec![PoolFrame::Reset, peak(500)],
        "the subscription opens with its own Reset and then receives the followed peer's frame"
    );
    assert_eq!(
        fanout.subscriber_count(),
        1,
        "the subscription must still be live after 64 frames from a peer it never chose"
    );
}

#[test]
fn the_followed_peer_can_still_terminate_its_own_follower() {
    let mut fanout = FrameFanout::new();
    let followed = live_session(&mut fanout, 1);

    let mut subscription = fanout
        .subscribe(followed, 4)
        .expect("the followed session is live");

    for height in 1..=64u32 {
        fanout.publish(followed, &peak(height));
    }

    let seen = drained(&mut fanout, &mut subscription);

    assert!(
        seen.len() <= 4,
        "no more than `capacity` frames may be delivered before the overflow: {seen:?}"
    );
    assert_eq!(
        subscription.try_recv(&mut fanout),
        Err(TryRecvError::Disconnected),
        "the subscription must be TERMINATED, not merely empty with frames silently skipped"
    );
    assert_eq!(
        fanout.subscriber_count(),
        0,
        "the overflowing subscription must be dropped, not retained and thinned"
    );
}

#[test]
fn a_subscription_opens_with_a_reset_before_its_first_frame() {
    let mut fanout = FrameFanout::new();
    let session = live_session(&mut fanout, 1);

    fanout.publish(session, &peak(100));

    let mut subscription = fanout
        .subscribe(session, 8)
        .expect("the session is live");
    fanout.publish(session, &peak(101));

    let frames = frames_of(&drained(&mut fanout, &mut subscription));

    assert_eq!(
        frames,
        vec![PoolFrame::Reset, peak(101)],
        "the subscription must open with a Reset and then see only what was published after \
         it joined: {frames:?}"
    );
}

#[test]
fn session_end_is_delivered_and_then_closes_the_subscription() {
    let mut fanout = FrameFanout::new();
    let session = live_session(&mut fanout, 1);

    let mut subscription = fanout
        .subscribe(session, 8)
        .expect("the session is live");

    fanout.publish(session, &ended());

    let frames = frames_of(&drained(&mut fanout, &mut subscription));

    assert_eq!(
        frames,
        vec![PoolFrame::Reset, ended()],
        "the end frame must be READ before the stream stops: {frames:?}"
    );
    assert_eq!(
        subscription.try_recv(&mut fanout),
        Err(TryRecvError::Disconnected),
        "and nothing follows it"
    );
    assert_eq!(
        fanout.subscriber_count(),
        0,
        "a session-scoped subscription has exactly the session's lifetime"
    );
}

#[test]
fn a_subscription_binds_a_session_and_not_an_address() {
    let mut fanout = FrameFanout::new();
    let first = live_session(&mut fanout, 1);

    let mut subscription = fanout
        .subscribe(first, 8)
        .expect("the first session is live");

    fanout.publish(first, &ended());

    let second = live_session(&mut fanout, 1);
    assert_eq!(second.address, first.address);
    assert_ne!(second.session, first.session);
    fanout.publish(second, &peak(700));

    let seen = drained(&mut fanout, &mut subscription);

    assert!(
        seen.iter().all(|f| f.source == first),
        "the old subscription must receive nothing from the session that replaced it: {seen:?}"
    );
    assert_eq!(
        frames_of(&seen),
        vec![PoolFrame::Reset, ended()],
        "it saw its own session open and close, and nothing else"
    );
    assert_eq!(
        subscription.try_recv(&mut fanout),
        Err(TryRecvError::Disconnected),
        "it ended with its own session"
    );
}

#[test]
fn a_session_that_has_ended_cannot_be_followed() {
    let mut fanout = FrameFanout::new();
    let session = live_session(&mut fanout, 1);

    fanout.publish(session, &ended());

    assert!(
        fanout.subscribe(session, 8).is_none(),
        "a stopped session must not be subscribable"
    );

    let never_opened = fanout.allocate_session(addr(9));
    assert!(
        fanout.subscribe(never_opened, 8).is_none(),
        "an allocated but unannounced session must not be subscribable either"
    );
}

#[test]
fn every_follower_of_a_session_receives_its_frames() {
    let mut fanout = FrameFanout::new();
    let session = live_session(&mut fanout, 1);

    let mut first = fanout.subscribe(session, 8).expect("live");
    let mut second = fanout.subscribe(session, 8).expect("live");

    fanout.publish(session, &peak(100));

    for subscription in [&mut first, &mut second] {
        assert_eq!(
            frames_of(&drained(&mut fanout, subscription)),
            vec![PoolFrame::Reset, peak(100)]
        );
    }
    assert_eq!(fanout.subscriber_count(), 2);
}

#[test]
fn overflow_terminates_only_the_follower_that_overflowed() {
    let mut fanout = FrameFanout::new();
    let session = live_session(&mut fanout, 1);

    let mut slow = fanout.subscribe(session, 2).expect("live");
    let mut healthy = fanout.subscribe(session, 64).expect("live");

    for height in 1..=32u32 {
        fanout.publish(session, &peak(height));
        while healthy.try_recv(&mut fanout).is_ok() {}
    }

    while slow.try_recv(&mut fanout).is_ok() {}
    assert_eq!(
        slow.try_recv(&mut fanout),
        Err(TryRecvError::Disconnected),
        "the slow consumer is terminated"
    );
    assert_eq!(
        fanout.subscriber_count(),
        1,
        "and the consumer that kept up is still subscribed"
    );

    fanout.publish(session, &peak(999));
    assert_eq!(
        healthy.try_recv(&mut fanout).map(|f| f.frame),
        Ok(peak(999)),
        "the healthy consumer still receives frames after its sibling was terminated"
    );
}

#[test]
fn a_frame_names_the_peer_that_sent_it() {
    let mut fanout = FrameFanout::new();
    let honest = live_session(&mut fanout, 1);
    let other = live_session(&mut fanout, 2);

    let mut following_honest = fanout.subscribe(honest, 8).expect("live");
    let mut following_other = fanout.subscribe(other, 8).expect("live");

    fanout.publish(honest, &peak(100));
    fanout.publish(other, &peak(999));

    let from_honest = drained(&mut fanout, &mut following_honest);
    let from_other = drained(&mut fanout, &mut following_other);

    assert!(from_honest.iter().all(|f| f.source.address == addr(1)));
    assert!(from_other.iter().all(|f| f.source.address == addr(2)));
    assert_ne!(
        honest, other,
        "two peers must not share one frame identity, or an injected frame is \
         indistinguishable from the followed peer's"
    );
    assert_eq!(
        from_other.last().map(|f| f.frame.clone()),
        Some(peak(999)),
        "a peer's own follower still receives its frames verbatim — attribution is what lets \
         a subscriber reject and eject its sender, not a filter here"
    );
}

#[test]
fn a_second_session_does_not_change_the_identity_of_the_first() {
    let mut fanout = FrameFanout::new();
    let first = live_session(&mut fanout, 1);
    let mut subscription = fanout.subscribe(first, 8).expect("live");

    fanout.publish(first, &peak(100));
    let second = live_session(&mut fanout, 2);
    fanout.publish(second, &peak(101));
    fanout.publish(first, &peak(102));

    let from_first: Vec<PoolFrame> = drained(&mut fanout, &mut subscription)
        .into_iter()
        .filter(|f| f.source == first)
        .map(|f| f.frame)
        .collect();

    assert_eq!(
        from_first,
        vec![PoolFrame::Reset, peak(100), peak(102)],
        "both of peer 1's frames must arrive under peer 1's own identity, before and after \
         peer 2 connected"
    );
    assert_ne!(first.session, second.session, "sessions must be distinct");
}

#[test]
fn opening_a_session_resets_only_that_session() {
    let mut fanout = FrameFanout::new();
    let followed = live_session(&mut fanout, 1);
    let mut subscription = fanout.subscribe(followed, 8).expect("live");

    let _other = live_session(&mut fanout, 2);
    fanout.publish(followed, &peak(100));

    let frames = frames_of(&drained(&mut fanout, &mut subscription));

    assert_eq!(
        frames.iter().filter(|f| **f == PoolFrame::Reset).count(),
        1,
        "the followed session must be reset exactly once — when this subscription opened, and \
         never because another peer connected: {frames:?}"
    );
}

#[test]
fn the_frame_item_cap_is_the_nodes_own_subscription_response_ceiling() {
    assert_eq!(MAX_FRAME_COIN_STATES, 100_000);
}

#[test]
fn a_stream_that_is_read_in_between_has_no_gap() {
    let mut fanout = FrameFanout::new();
    let followed = live_session(&mut fanout, 1);
    let other = live_session(&mut fanout, 2);
    fanout.publish(followed, &peak(1));
    let mut subscription = fanout.subscribe(followed, 2).expect("the session runs");

    let mut seen = Vec::new();
    for height in 2..6 {
        fanout.publish(other, &peak(100 + height));
        fanout.publish(followed, &peak(height));
        let mut second = fanout.subscribe(followed, 1).expect("the session runs");
        assert!(second.try_recv(&mut fanout).is_ok());
        fanout.unsubscribe(second);
        seen.push(subscription.try_recv(&mut fanout).expect("a frame is queued").frame);
    }
    assert_eq!(seen, vec![PoolFrame::Reset, peak(2), peak(3), peak(4)]);

    fanout.publish(followed, &peak(6));
    fanout.publish(followed, &peak(7));
    fanout.publish(followed, &peak(8));
    seen.extend(frames_of(&drained(&mut fanout, &mut subscription)));
    assert_eq!(
        seen,
        vec![PoolFrame::Reset, peak(2), peak(3), peak(4), peak(5), peak(6)],
        "what came before the overflow is kept, and nothing after it"
    );
    fanout.publish(followed, &peak(9));
    assert!(subscription.try_recv(&mut fanout).is_err());
}
