//! Fan-out of the frames arriving on a peer's session to those who follow it.
//!
//! Every frame names the session it came from, and a follower sees the frames of the one session
//! it follows. A follower that falls behind is ended rather than thinned: a missed frame would be
//! a gap it never learns of.

use vstd::prelude::*;

use std::collections::VecDeque;

use crate::address::SocketAddr;
use crate::protocol::{Bytes32, CoinState};

verus! {

/// One peer connection, for the life of the pool.
#[derive(Clone, Copy, Debug, PartialEq, Eq, Hash, Structural)]
pub struct SessionId(pub u64);

/// Who a frame came from. The address is what a follower can name; the session tells two
/// connections to one address apart.
#[derive(Clone, Copy, Debug, PartialEq, Eq, Hash, Structural)]
pub struct FrameSource {
    pub address: SocketAddr,
    pub session: SessionId,
}

/// Why a session stopped producing frames.
#[derive(Clone, Copy, Debug, PartialEq, Eq, Structural)]
pub enum SessionEndReason {
    /// The transport closed.
    Disconnected,
    /// The peer sent a message of a known type whose body could not be decoded.
    UndecodableFrame,
    /// The peer sent a frame with more coin states than [`MAX_FRAME_COIN_STATES`].
    OversizedFrame,
}

/// The most coin states one frame may carry before the session is ended: what a full node itself
/// puts into one subscription response.
pub const MAX_FRAME_COIN_STATES: usize = 100_000;

/// One frame of a session.
#[derive(Debug, PartialEq, Eq)]
pub enum PoolFrame {
    /// The session has begun. What was derived from an earlier one at the same address is stale.
    Reset,
    /// The peer announced a peak.
    Peak { height: u32, header_hash: Bytes32 },
    /// The peer reported coin states changing at `height`.
    CoinStates { height: u32, fork_height: u32, peak_hash: Bytes32, items: Vec<CoinState> },
    /// The session has ended and will produce no further frames.
    SessionEnded { reason: SessionEndReason },
}

/// A frame, over sequences.
pub enum FrameView {
    Reset,
    Peak { height: u32, header_hash: Bytes32 },
    CoinStates { height: u32, fork_height: u32, peak_hash: Bytes32, items: Seq<CoinState> },
    SessionEnded { reason: SessionEndReason },
}

impl View for PoolFrame {
    type V = FrameView;

    open spec fn view(&self) -> FrameView {
        match *self {
            PoolFrame::Reset => FrameView::Reset,
            PoolFrame::Peak { height, header_hash } => FrameView::Peak { height, header_hash },
            PoolFrame::CoinStates { height, fork_height, peak_hash, items } => {
                FrameView::CoinStates { height, fork_height, peak_hash, items: items@ }
            },
            PoolFrame::SessionEnded { reason } => FrameView::SessionEnded { reason },
        }
    }
}

/// A frame together with the session that produced it.
#[derive(Debug, PartialEq, Eq)]
pub struct SourcedFrame {
    pub source: FrameSource,
    pub frame: PoolFrame,
}

/// A sourced frame, over sequences.
pub struct SourcedView {
    pub source: FrameSource,
    pub frame: FrameView,
}

impl View for SourcedFrame {
    type V = SourcedView;

    open spec fn view(&self) -> SourcedView {
        SourcedView { source: self.source, frame: self.frame@ }
    }
}

/// The views of `frames`, in order.
pub open spec fn frames_view(frames: Seq<SourcedFrame>) -> Seq<SourcedView> {
    frames.map_values(|f: SourcedFrame| f@)
}

fn copy_items(items: &Vec<CoinState>) -> (copy: Vec<CoinState>)
    ensures
        copy@ == items@,
{
    let mut copy: Vec<CoinState> = Vec::new();
    let mut i: usize = 0;
    while i < items.len()
        invariant
            i <= items.len(),
            copy@ == items@.take(i as int),
        decreases items.len() - i,
    {
        copy.push(items[i]);
        i = i + 1;
        assert(copy@ =~= items@.take(i as int));
    }
    assert(copy@ =~= items@);
    copy
}

impl PoolFrame {
    /// Another frame with the same content.
    pub fn duplicate(&self) -> (copy: PoolFrame)
        ensures
            copy@ == self@,
    {
        match self {
            PoolFrame::Reset => PoolFrame::Reset,
            PoolFrame::Peak { height, header_hash } => PoolFrame::Peak {
                height: *height,
                header_hash: *header_hash,
            },
            PoolFrame::CoinStates { height, fork_height, peak_hash, items } => {
                PoolFrame::CoinStates {
                    height: *height,
                    fork_height: *fork_height,
                    peak_hash: *peak_hash,
                    items: copy_items(items),
                }
            },
            PoolFrame::SessionEnded { reason } => PoolFrame::SessionEnded { reason: *reason },
        }
    }

    /// Whether the frame ends its session.
    pub fn ends_session(&self) -> (ends: bool)
        ensures
            ends == (self@ is SessionEnded),
    {
        match self {
            PoolFrame::SessionEnded { .. } => true,
            _ => false,
        }
    }
}

impl Clone for PoolFrame {
    fn clone(&self) -> (copy: Self)
        ensures
            copy@ == self@,
    {
        self.duplicate()
    }
}

impl Clone for SourcedFrame {
    fn clone(&self) -> (copy: Self)
        ensures
            copy@ == self@,
    {
        SourcedFrame { source: self.source, frame: self.frame.duplicate() }
    }
}

/// Why there is no frame to read.
#[derive(Clone, Copy, Debug, PartialEq, Eq, Structural)]
pub enum TryRecvError {
    /// None is queued, and more may come.
    Empty,
    /// None is queued, and none will come.
    Disconnected,
}

/// A follower's claim on the frames of one session.
///
/// Once reading gives [`TryRecvError::Disconnected`] the subscription has ended: its session
/// stopped, or it fell behind. That is a reason to subscribe again, not silence.
#[derive(Debug, PartialEq, Eq)]
pub struct FrameSubscription {
    source: FrameSource,
    follower: u64,
}

impl FrameSubscription {
    /// The session followed.
    pub closed spec fn spec_source(&self) -> FrameSource {
        self.source
    }

    /// The follower that the fan-out keeps for this subscription.
    pub closed spec fn follower(&self) -> u64 {
        self.follower
    }

    /// The session this subscription follows.
    pub fn source(&self) -> (source: FrameSource)
        ensures
            source == self.spec_source(),
    {
        self.source
    }
}

struct Follower {
    id: u64,
    source: FrameSource,
    capacity: usize,
    open: bool,
    queue: VecDeque<SourcedFrame>,
}

/// One follower: what it follows, how far behind it may fall, whether more frames can reach it,
/// and what it has not read yet.
#[verifier::ext_equal]
pub struct FollowerView {
    pub id: u64,
    pub source: FrameSource,
    pub capacity: int,
    pub open: bool,
    pub queue: Seq<SourcedView>,
}

impl Follower {
    spec fn as_view(&self) -> FollowerView {
        FollowerView {
            id: self.id,
            source: self.source,
            capacity: self.capacity as int,
            open: self.open,
            queue: frames_view(self.queue@),
        }
    }
}

impl Follower {
    fn offer(&mut self, source: FrameSource, frame: &PoolFrame)
        ensures
            final(self).as_view() == old(self).as_view().offered(source, frame@),
    {
        if self.source != source || !self.open {
            return;
        }
        if self.queue.len() >= self.capacity {
            self.open = false;
            return;
        }
        let ghost before = self.queue@;
        self.queue.push_back(SourcedFrame { source, frame: frame.duplicate() });
        self.open = !frame.ends_session();
        assert(frames_view(self.queue@) =~= frames_view(before).push(
            SourcedView { source, frame: frame@ },
        ));
    }
}

/// The state of a fan-out: the sessions running, the followers and the counters.
#[verifier::ext_equal]
pub struct FanoutView {
    pub live: Seq<FrameSource>,
    pub followers: Seq<FollowerView>,
    pub next_session: u64,
    pub next_follower: u64,
}

impl FollowerView {
    /// After `frame` of `source` is published: taken if it is of the session followed and there is
    /// room, and otherwise the follower is ended. A session's last frame ends its followers.
    pub open spec fn offered(self, source: FrameSource, frame: FrameView) -> FollowerView {
        if self.source != source || !self.open {
            self
        } else if self.queue.len() >= self.capacity {
            FollowerView { open: false, ..self }
        } else {
            FollowerView {
                open: !(frame is SessionEnded),
                queue: self.queue.push(SourcedView { source, frame }),
                ..self
            }
        }
    }
}

/// Whether a session is another one than `source`.
pub open spec fn other_than(source: FrameSource) -> spec_fn(FrameSource) -> bool {
    |s: FrameSource| s != source
}

/// `live` without `source`.
pub open spec fn without_source(live: Seq<FrameSource>, source: FrameSource) -> Seq<FrameSource> {
    live.filter(other_than(source))
}

impl FanoutView {
    /// No follower stands twice, each was opened by this fan-out, each has room for a frame, and
    /// the open ones follow a session that runs.
    pub open spec fn wf(self) -> bool {
        &&& self.live.no_duplicates()
        &&& forall|i: int, j: int|
            0 <= i < self.followers.len() && 0 <= j < self.followers.len() && i != j ==> (
            #[trigger] self.followers[i]).id != (#[trigger] self.followers[j]).id
        &&& forall|i: int|
            0 <= i < self.followers.len() ==> (#[trigger] self.followers[i]).id
                < self.next_follower
        &&& forall|i: int|
            0 <= i < self.followers.len() ==> {
                let f = #[trigger] self.followers[i];
                &&& f.capacity >= 1
                &&& f.queue.len() <= f.capacity
                &&& f.open ==> self.live.contains(f.source)
                &&& forall|k: int| 0 <= k < f.queue.len() ==> (#[trigger] f.queue[k]).source == f.source
            }
    }

    /// How many followers can still be reached.
    pub open spec fn open_followers(self) -> nat {
        self.followers.filter(|f: FollowerView| f.open).len()
    }

    /// The position of the follower `id`.
    pub open spec fn follower_at(self, id: u64) -> int {
        choose|i: int| 0 <= i < self.followers.len() && (#[trigger] self.followers[i]).id == id
    }

    /// Whether the fan-out keeps a follower `id`.
    pub open spec fn has_follower(self, id: u64) -> bool {
        exists|i: int| 0 <= i < self.followers.len() && (#[trigger] self.followers[i]).id == id
    }

    /// After `frame` is published for `source`: discarded unless the session runs, and otherwise
    /// offered to every follower. A last frame also takes the session off the list.
    pub open spec fn published(self, source: FrameSource, frame: FrameView) -> FanoutView {
        if !self.live.contains(source) {
            self
        } else {
            FanoutView {
                followers: self.followers.map_values(
                    |f: FollowerView| f.offered(source, frame),
                ),
                live: if frame is SessionEnded {
                    without_source(self.live, source)
                } else {
                    self.live
                },
                ..self
            }
        }
    }

    /// After `source` begins: listed as running, and announced to whoever follows it.
    pub open spec fn opened(self, source: FrameSource) -> FanoutView {
        let registered = FanoutView {
            live: if self.live.contains(source) {
                self.live
            } else {
                self.live.push(source)
            },
            ..self
        };
        registered.published(source, FrameView::Reset)
    }

    /// After a new follower of `source` joins: its first frame is a reset.
    pub open spec fn joined(self, source: FrameSource, capacity: usize) -> FanoutView {
        FanoutView {
            followers: self.followers.push(
                FollowerView {
                    id: self.next_follower,
                    source,
                    capacity: if capacity == 0 {
                        1
                    } else {
                        capacity as int
                    },
                    open: true,
                    queue: seq![SourcedView { source, frame: FrameView::Reset }],
                },
            ),
            next_follower: (self.next_follower + 1) as u64,
            ..self
        }
    }
}

impl FanoutView {
    /// The follower `id`.
    pub open spec fn follower(self, id: u64) -> FollowerView {
        self.followers[self.follower_at(id)]
    }

    /// After the follower `id` is forgotten, with what it has not read.
    pub open spec fn left(self, id: u64) -> FanoutView {
        if self.has_follower(id) {
            FanoutView { followers: self.followers.remove(self.follower_at(id)), ..self }
        } else {
            self
        }
    }

    /// The frame that the follower `id` reads next.
    pub open spec fn next_of(self, id: u64) -> Option<SourcedView> {
        if self.has_follower(id) && self.follower(id).queue.len() > 0 {
            Some(self.follower(id).queue[0])
        } else {
            None
        }
    }

    /// After the follower `id` has read its next frame, if there is one.
    pub open spec fn read(self, id: u64) -> FanoutView {
        if self.next_of(id) is Some {
            FanoutView {
                followers: self.followers.update(
                    self.follower_at(id),
                    FollowerView {
                        queue: self.follower(id).queue.drop_first(),
                        ..self.follower(id)
                    },
                ),
                ..self
            }
        } else {
            self
        }
    }
}

/// What can happen to a fan-out.
pub enum FanoutEvent {
    /// A session was given its identity.
    Allocated,
    /// A session began.
    Opened(FrameSource),
    /// A frame was published.
    Published(FrameSource, FrameView),
    /// Someone asked to follow a session.
    Joined(FrameSource, usize),
    /// A follower left.
    Left(u64),
    /// A follower asked for its next frame.
    Read(u64),
}

impl FanoutView {
    /// After `event`.
    pub open spec fn after(self, event: FanoutEvent) -> FanoutView {
        match event {
            FanoutEvent::Allocated => FanoutView {
                next_session: next_session_number(self.next_session),
                ..self
            },
            FanoutEvent::Opened(source) => self.opened(source),
            FanoutEvent::Published(source, frame) => self.published(source, frame),
            FanoutEvent::Joined(source, capacity) => if self.live.contains(source)
                && self.next_follower < u64::MAX {
                self.joined(source, capacity)
            } else {
                self
            },
            FanoutEvent::Left(id) => self.left(id),
            FanoutEvent::Read(id) => self.read(id),
        }
    }

    /// After `events`, in order.
    pub open spec fn after_all(self, events: Seq<FanoutEvent>) -> FanoutView
        decreases events.len(),
    {
        if events.len() == 0 {
            self
        } else {
            self.after_all(events.drop_last()).after(events.last())
        }
    }

    /// The frames that the follower `id` reads in the course of `events`, in order.
    pub open spec fn read_by(self, id: u64, events: Seq<FanoutEvent>) -> Seq<SourcedView>
        decreases events.len(),
    {
        if events.len() == 0 {
            Seq::empty()
        } else {
            let before = self.read_by(id, events.drop_last());
            if events.last() == FanoutEvent::Read(id) {
                match self.after_all(events.drop_last()).next_of(id) {
                    Some(frame) => before.push(frame),
                    None => before,
                }
            } else {
                before
            }
        }
    }

    /// What the follower `id` has read in the course of `events`, followed by what it can still
    /// read.
    pub open spec fn seen_by(self, id: u64, events: Seq<FanoutEvent>) -> Seq<SourcedView> {
        let end = self.after_all(events);
        if end.has_follower(id) {
            self.read_by(id, events) + end.follower(id).queue
        } else {
            self.read_by(id, events)
        }
    }
}

/// The frames that `events` publish for `source`, in order. A session that begins publishes a reset.
pub open spec fn published_for(source: FrameSource, events: Seq<FanoutEvent>) -> Seq<SourcedView>
    decreases events.len(),
{
    if events.len() == 0 {
        Seq::empty()
    } else {
        let before = published_for(source, events.drop_last());
        match events.last() {
            FanoutEvent::Opened(s) => if s == source {
                before.push(SourcedView { source, frame: FrameView::Reset })
            } else {
                before
            },
            FanoutEvent::Published(s, frame) => if s == source {
                before.push(SourcedView { source, frame })
            } else {
                before
            },
            _ => before,
        }
    }
}

/// The session number after `n`, starting over after the last.
pub open spec fn next_session_number(n: u64) -> u64 {
    if n == u64::MAX {
        0
    } else {
        (n + 1) as u64
    }
}

/// The session number `k` allocations after `n`.
pub open spec fn session_number_after(n: u64, k: nat) -> u64
    decreases k,
{
    if k == 0 {
        n
    } else {
        next_session_number(session_number_after(n, (k - 1) as nat))
    }
}

/// The fan-out: followers apart by the session they follow, each with a queue of its own.
pub struct FrameFanout {
    live: Vec<FrameSource>,
    followers: Vec<Follower>,
    next_session: u64,
    next_follower: u64,
}

impl View for FrameFanout {
    type V = FanoutView;

    closed spec fn view(&self) -> FanoutView {
        FanoutView {
            live: self.live@,
            followers: self.followers@.map_values(|f: Follower| f.as_view()),
            next_session: self.next_session,
            next_follower: self.next_follower,
        }
    }
}

impl Default for FrameFanout {
    fn default() -> (fanout: Self)
        ensures
            fanout@.wf(),
            fanout@ == (FanoutView {
                live: Seq::empty(),
                followers: Seq::empty(),
                next_session: 0,
                next_follower: 0,
            }),
    {
        FrameFanout::new()
    }
}

impl FrameFanout {
    /// A fan-out with no sessions.
    pub fn new() -> (fanout: Self)
        ensures
            fanout@.wf(),
            fanout@ == (FanoutView {
                live: Seq::empty(),
                followers: Seq::empty(),
                next_session: 0,
                next_follower: 0,
            }),
    {
        let fanout = FrameFanout {
            live: Vec::new(),
            followers: Vec::new(),
            next_session: 0,
            next_follower: 0,
        };
        assert(fanout@.followers =~= Seq::<FollowerView>::empty());
        fanout
    }

    /// The identity of a new session at `address`. Nothing is published and nothing listed: a
    /// connection is identified before the pool decides whether to keep it.
    pub fn allocate_session(&mut self, address: SocketAddr) -> (source: FrameSource)
        requires
            old(self)@.wf(),
        ensures
            final(self)@.wf(),
            source == (FrameSource { address, session: SessionId(old(self)@.next_session) }),
            final(self)@ == (FanoutView {
                next_session: next_session_number(old(self)@.next_session),
                ..old(self)@
            }),
    {
        let source = FrameSource { address, session: SessionId(self.next_session) };
        self.next_session = if self.next_session == u64::MAX {
            0
        } else {
            self.next_session + 1
        };
        source
    }

    fn is_live(&self, source: FrameSource) -> (live: bool)
        ensures
            live == self.live@.contains(source),
    {
        let mut i: usize = 0;
        while i < self.live.len()
            invariant
                i <= self.live.len(),
                forall|j: int| 0 <= j < i ==> self.live@[j] != source,
            decreases self.live.len() - i,
        {
            if self.live[i] == source {
                return true;
            }
            i = i + 1;
        }
        false
    }

    /// Follows `source`, with room for `capacity` unread frames.
    ///
    /// Nothing when the session does not run: it could never be told that it ended. The first
    /// frame read is a reset, so that a follower joining in the middle is told that what it holds
    /// from an earlier session is stale.
    pub fn subscribe(&mut self, source: FrameSource, capacity: usize) -> (subscription: Option<
        FrameSubscription,
    >)
        requires
            old(self)@.wf(),
        ensures
            final(self)@.wf(),
            subscription is Some <==> old(self)@.live.contains(source) && old(self)@.next_follower
                < u64::MAX,
            subscription matches Some(s) ==> s.spec_source() == source && s.follower()
                == old(self)@.next_follower && final(self)@ == old(self)@.joined(source, capacity),
            subscription is None ==> final(self)@ == old(self)@,
    {
        if !self.is_live(source) || self.next_follower == u64::MAX {
            return None;
        }
        let ghost before = self@;
        let room: usize = if capacity == 0 {
            1
        } else {
            capacity
        };
        let mut queue: VecDeque<SourcedFrame> = VecDeque::new();
        queue.push_back(SourcedFrame { source, frame: PoolFrame::Reset });
        let follower = Follower { id: self.next_follower, source, capacity: room, open: true, queue };
        proof {
            assert(frames_view(follower.queue@) =~= seq![
                SourcedView { source, frame: FrameView::Reset },
            ]);
        }
        let subscription = FrameSubscription { source, follower: self.next_follower };
        self.followers.push(follower);
        self.next_follower = self.next_follower + 1;
        assert(self@.followers =~= before.joined(source, capacity).followers);
        Some(subscription)
    }
}

impl FrameFanout {
    /// Delivers `frame` of `source` to those who follow it, ending any that has fallen behind.
    ///
    /// A frame of a session that does not run is discarded.
    pub fn publish(&mut self, source: FrameSource, frame: &PoolFrame)
        requires
            old(self)@.wf(),
        ensures
            final(self)@.wf(),
            final(self)@ == old(self)@.published(source, frame@),
    {
        if !self.is_live(source) {
            return;
        }
        let ghost before = self@;
        let mut i: usize = 0;
        while i < self.followers.len()
            invariant
                i <= self.followers.len(),
                self.followers@.len() == before.followers.len(),
                self.live == old(self).live,
                self.next_session == old(self).next_session,
                self.next_follower == old(self).next_follower,
                forall|j: int|
                    0 <= j < i ==> (#[trigger] self.followers@[j]).as_view()
                        == before.followers[j].offered(source, frame@),
                forall|j: int|
                    i <= j < self.followers@.len() ==> (#[trigger] self.followers@[j]).as_view()
                        == before.followers[j],
            decreases self.followers.len() - i,
        {
            let follower = &mut self.followers[i];
            follower.offer(source, frame);
            i = i + 1;
        }
        let ghost after = before.published(source, frame@);
        assert(self@.followers =~= after.followers);
        assert(self@.live == before.live);
        if frame.ends_session() {
            self.retire(source);
        }
        proof {
            assert(self@.followers =~= after.followers);
            assert(self@.live =~= after.live);
            assert(self@ =~= after);
            lemma_published_wf(before, source, frame@);
        }
    }

    fn retire(&mut self, source: FrameSource)
        ensures
            final(self).live@ == without_source(old(self).live@, source),
            final(self).followers == old(self).followers,
            final(self).next_session == old(self).next_session,
            final(self).next_follower == old(self).next_follower,
    {
        let ghost kept = other_than(source);
        let mut live: Vec<FrameSource> = Vec::new();
        let mut i: usize = 0;
        proof {
            reveal(Seq::filter);
        }
        while i < self.live.len()
            invariant
                i <= self.live.len(),
                self == old(self),
                kept == other_than(source),
                live@ == self.live@.take(i as int).filter(kept),
            decreases self.live.len() - i,
        {
            proof {
                assert(self.live@.take(i + 1) =~= self.live@.take(i as int).push(
                    self.live@[i as int],
                ));
                self.live@.take(i as int).lemma_filter_push(self.live@[i as int], kept);
            }
            if self.live[i] != source {
                live.push(self.live[i]);
            }
            i = i + 1;
        }
        assert(self.live@.take(i as int) =~= self.live@);
        self.live = live;
    }

    /// Lists `source` as running and announces that it has begun.
    pub fn open_session(&mut self, source: FrameSource)
        requires
            old(self)@.wf(),
        ensures
            final(self)@.wf(),
            final(self)@ == old(self)@.opened(source),
    {
        if !self.is_live(source) {
            let ghost before = self@;
            self.live.push(source);
            proof {
                assert forall|s: FrameSource| before.live.contains(s) implies #[trigger]
                    self@.live.contains(s) by {
                    let i = choose|i: int| 0 <= i < before.live.len() && before.live[i] == s;
                    assert(self@.live[i] == s);
                }
                assert(self@.live =~= before.live.push(source));
            }
        }
        self.publish(source, &PoolFrame::Reset);
    }

    /// How many subscriptions can still be reached, over all sessions.
    pub fn subscriber_count(&self) -> (count: usize)
        ensures
            count == self@.open_followers(),
    {
        let ghost open = |f: FollowerView| f.open;
        let mut count: usize = 0;
        let mut i: usize = 0;
        proof {
            reveal(Seq::filter);
        }
        while i < self.followers.len()
            invariant
                i <= self.followers.len(),
                open == (|f: FollowerView| f.open),
                count == self@.followers.take(i as int).filter(open).len(),
                count <= i,
            decreases self.followers.len() - i,
        {
            proof {
                let next = self@.followers[i as int];
                assert(self@.followers.take(i + 1) =~= self@.followers.take(i as int).push(next));
                self@.followers.take(i as int).lemma_filter_push(next, open);
            }
            if self.followers[i].open {
                count = count + 1;
            }
            i = i + 1;
        }
        assert(self@.followers.take(i as int) =~= self@.followers);
        count
    }

    fn position(&self, id: u64) -> (at: Option<usize>)
        ensures
            at is Some <==> self@.has_follower(id),
            at matches Some(i) ==> i < self.followers@.len() && self@.followers[i as int].id == id,
    {
        let mut i: usize = 0;
        while i < self.followers.len()
            invariant
                i <= self.followers.len(),
                forall|j: int| 0 <= j < i ==> (#[trigger] self@.followers[j]).id != id,
            decreases self.followers.len() - i,
        {
            if self.followers[i].id == id {
                assert(self@.followers[i as int].id == id);
                return Some(i);
            }
            i = i + 1;
        }
        None
    }

    /// Forgets the follower of `subscription` and what it has not read.
    pub fn unsubscribe(&mut self, subscription: FrameSubscription)
        requires
            old(self)@.wf(),
        ensures
            final(self)@.wf(),
            final(self)@ == old(self)@.left(subscription.follower()),
    {
        match self.position(subscription.follower) {
            Some(i) => {
                let ghost before = self@;
                let _ = self.followers.remove(i);
                proof {
                    let at = before.follower_at(subscription.follower);
                    assert(before.followers[at].id == before.followers[i as int].id);
                    assert(at == i);
                    assert(self@.followers =~= before.followers.remove(i as int));
                    assert forall|j: int| 0 <= j < self@.followers.len() implies #[trigger]
                        self@.followers[j] == before.followers[if j < i { j } else { j + 1 }] by {
                    }
                }
            },
            None => {},
        }
    }
}

impl FrameSubscription {
    /// The next frame if one is queued.
    pub fn try_recv(&mut self, fanout: &mut FrameFanout) -> (frame: Result<
        SourcedFrame,
        TryRecvError,
    >)
        requires
            old(fanout)@.wf(),
        ensures
            final(fanout)@.wf(),
            *final(self) == *old(self),
            final(fanout)@ == old(fanout)@.read(old(self).follower()),
            match frame {
                Ok(sourced) => old(fanout)@.next_of(old(self).follower()) == Some(sourced@),
                Err(TryRecvError::Empty) => {
                    &&& old(fanout)@.has_follower(old(self).follower())
                    &&& old(fanout)@.follower(old(self).follower()).queue.len() == 0
                    &&& old(fanout)@.follower(old(self).follower()).open
                },
                Err(TryRecvError::Disconnected) => old(fanout)@.has_follower(
                    old(self).follower(),
                ) ==> old(fanout)@.follower(old(self).follower()).queue.len() == 0 && !old(
                    fanout,
                )@.follower(old(self).follower()).open,
            },
    {
        let at = fanout.position(self.follower);
        let i: usize = match at {
            Some(i) => i,
            None => {
                return Err(TryRecvError::Disconnected);
            },
        };
        let ghost before = fanout@;
        proof {
            let slot = before.follower_at(self.follower);
            assert(before.followers[slot].id == before.followers[i as int].id);
            assert(slot == i);
        }
        let follower = &mut fanout.followers[i];
        let open = follower.open;
        let ghost queued = follower.queue@;
        let taken = follower.queue.pop_front();
        match taken {
            Some(sourced) => {
                proof {
                    assert(frames_view(queued).drop_first() =~= frames_view(queued.drop_first()));
                    assert(fanout@.followers =~= before.followers.update(
                        i as int,
                        FollowerView {
                            queue: before.followers[i as int].queue.drop_first(),
                            ..before.followers[i as int]
                        },
                    ));
                }
                Ok(sourced)
            },
            None => {
                assert(fanout@.followers =~= before.followers);
                if open {
                    Err(TryRecvError::Empty)
                } else {
                    Err(TryRecvError::Disconnected)
                }
            },
        }
    }
}

/// Publishing keeps the fan-out well formed.
proof fn lemma_published_wf(view: FanoutView, source: FrameSource, frame: FrameView)
    requires
        view.wf(),
    ensures
        view.published(source, frame).wf(),
{
    let after = view.published(source, frame);
    if view.live.contains(source) {
        let kept = other_than(source);
        assert forall|i: int| 0 <= i < after.followers.len() implies #[trigger] after.followers[i]
            == view.followers[i].offered(source, frame) by {
        }
        assert forall|i: int, j: int|
            0 <= i < after.followers.len() && 0 <= j < after.followers.len() && i != j implies (
        #[trigger] after.followers[i]).id != (#[trigger] after.followers[j]).id by {
            assert(view.followers[i].id != view.followers[j].id);
        }
        if frame is SessionEnded {
            assert forall|s: FrameSource| view.live.contains(s) && s != source implies
                #[trigger] after.live.contains(s) by {
                let i = choose|i: int| 0 <= i < view.live.len() && view.live[i] == s;
                view.live.lemma_filter_contains(kept, i);
            }
            lemma_filter_distinct(view.live, kept);
        }
        assert forall|i: int| 0 <= i < after.followers.len() implies {
            let f = #[trigger] after.followers[i];
            &&& f.id < after.next_follower
            &&& f.capacity >= 1
            &&& f.queue.len() <= f.capacity
            &&& f.open ==> after.live.contains(f.source)
            &&& forall|k: int| 0 <= k < f.queue.len() ==> (#[trigger] f.queue[k]).source == f.source
        } by {
            let f = view.followers[i];
            assert(after.followers[i] == f.offered(source, frame));
            if f.open && f.source != source {
                assert(view.live.contains(f.source));
            }
        }
    }
}

/// A filter keeps distinct sources distinct.
proof fn lemma_filter_distinct(s: Seq<FrameSource>, keep: spec_fn(FrameSource) -> bool)
    requires
        s.no_duplicates(),
    ensures
        s.filter(keep).no_duplicates(),
    decreases s.len(),
{
    reveal(Seq::filter);
    if s.len() > 0 {
        let rest = s.drop_last();
        assert forall|i: int, j: int| 0 <= i < rest.len() && 0 <= j < rest.len() && i != j implies
            rest[i] != rest[j] by {
            assert(s[i] == rest[i] && s[j] == rest[j]);
        }
        lemma_filter_distinct(rest, keep);
        if keep(s.last()) && rest.filter(keep).contains(s.last()) {
            rest.lemma_filter_contains_rev(keep, s.last());
            let i = choose|i: int| 0 <= i < rest.len() && rest[i] == s.last();
            assert(s[i] == s[s.len() - 1]);
        }
    }
}

/// A session that is not followed cannot reach a follower: whatever it publishes, the follower's
/// queue and its being open stay as they were.
pub proof fn law_unfollowed_session_cannot_touch_a_follower(
    view: FanoutView,
    source: FrameSource,
    frame: FrameView,
    i: int,
)
    requires
        0 <= i < view.followers.len(),
        view.followers[i].source != source,
    ensures
        view.published(source, frame).followers[i] == view.followers[i],
{
}

/// A frame of a running session reaches every open follower with room for it, whatever the other
/// followers do.
pub proof fn law_follower_with_room_receives(
    view: FanoutView,
    source: FrameSource,
    frame: FrameView,
    i: int,
)
    requires
        0 <= i < view.followers.len(),
        view.live.contains(source),
        view.followers[i].source == source,
        view.followers[i].open,
        view.followers[i].queue.len() < view.followers[i].capacity,
    ensures
        view.published(source, frame).followers[i].queue == view.followers[i].queue.push(
            SourcedView { source, frame },
        ),
        view.published(source, frame).followers[i].open == !(frame is SessionEnded),
{
}

/// A follower that has fallen behind is ended, and loses nothing of what it had not read yet: no
/// frame is skipped with the follower still open.
pub proof fn law_follower_that_falls_behind_is_ended(
    view: FanoutView,
    source: FrameSource,
    frame: FrameView,
    i: int,
)
    requires
        0 <= i < view.followers.len(),
        view.live.contains(source),
        view.followers[i].source == source,
        view.followers[i].open,
        view.followers[i].queue.len() >= view.followers[i].capacity,
    ensures
        !view.published(source, frame).followers[i].open,
        view.published(source, frame).followers[i].queue == view.followers[i].queue,
{
}

/// Once a session has ended it is not running any more, none of its followers is open, and so it
/// can be followed no longer.
pub proof fn law_ended_session_is_closed(
    view: FanoutView,
    source: FrameSource,
    reason: SessionEndReason,
)
    requires
        view.wf(),
    ensures
        !view.published(source, FrameView::SessionEnded { reason }).live.contains(source),
        forall|i: int|
            0 <= i < view.followers.len() && (#[trigger] view.followers[i]).source == source
                ==> !view.published(source, FrameView::SessionEnded { reason }).followers[i].open,
{
    let frame = FrameView::SessionEnded { reason };
    let after = view.published(source, frame);
    if view.live.contains(source) && after.live.contains(source) {
        let i = choose|i: int| 0 <= i < after.live.len() && after.live[i] == source;
        view.live.lemma_filter_pred(other_than(source), i);
    }
}

/// Every frame a follower reads names the session it follows.
pub proof fn law_frames_name_the_followed_session(view: FanoutView, i: int, k: int)
    requires
        view.wf(),
        0 <= i < view.followers.len(),
        0 <= k < view.followers[i].queue.len(),
    ensures
        view.followers[i].queue[k].source == view.followers[i].source,
{
}

/// A follower's first frame is a reset, and it sees nothing published before it joined.
pub proof fn law_subscription_opens_with_a_reset(
    view: FanoutView,
    source: FrameSource,
    capacity: usize,
)
    ensures
        view.joined(source, capacity).followers.last().queue == seq![
            SourcedView { source, frame: FrameView::Reset },
        ],
        view.joined(source, capacity).followers.drop_last() == view.followers,
{
    assert(view.joined(source, capacity).followers.drop_last() =~= view.followers);
}

/// The follower at a position is the one its id is looked up to.
proof fn lemma_follower_at(view: FanoutView, i: int)
    requires
        view.wf(),
        0 <= i < view.followers.len(),
    ensures
        view.has_follower(view.followers[i].id),
        view.follower_at(view.followers[i].id) == i,
{
    let id = view.followers[i].id;
    let at = view.follower_at(id);
    assert(view.followers[i].id == id);
    if at != i {
        assert(view.followers[at].id != view.followers[i].id);
    }
}

/// Whatever happens keeps the fan-out well formed.
proof fn lemma_after_wf(view: FanoutView, event: FanoutEvent)
    requires
        view.wf(),
    ensures
        view.after(event).wf(),
        view.next_follower <= view.after(event).next_follower,
{
    let after = view.after(event);
    match event {
        FanoutEvent::Allocated => {},
        FanoutEvent::Opened(source) => {
            let registered = FanoutView {
                live: if view.live.contains(source) {
                    view.live
                } else {
                    view.live.push(source)
                },
                ..view
            };
            assert forall|s: FrameSource| view.live.contains(s) implies #[trigger]
                registered.live.contains(s) by {
                let i = choose|i: int| 0 <= i < view.live.len() && view.live[i] == s;
                assert(registered.live[i] == s);
            }
            lemma_published_wf(registered, source, FrameView::Reset);
        },
        FanoutEvent::Published(source, frame) => {
            lemma_published_wf(view, source, frame);
        },
        FanoutEvent::Joined(_, _) => {},
        FanoutEvent::Left(id) => {
            if view.has_follower(id) {
                let at = view.follower_at(id);
                assert forall|j: int| 0 <= j < after.followers.len() implies #[trigger]
                    after.followers[j] == view.followers[if j < at {
                    j
                } else {
                    j + 1
                }] by {
                }
            }
        },
        FanoutEvent::Read(id) => {
            if view.next_of(id) is Some {
                let at = view.follower_at(id);
                assert forall|j: int| 0 <= j < after.followers.len() implies (
                #[trigger] after.followers[j]).id == view.followers[j].id by {
                }
            }
        },
    }
}

/// Whether a follower of `source` that has read `read` and is to see `stream` has missed nothing:
/// what it has read and can still read begins the stream, and is all of it as long as it is open.
spec fn in_step(
    view: FanoutView,
    id: u64,
    source: FrameSource,
    read: Seq<SourcedView>,
    stream: Seq<SourcedView>,
) -> bool {
    &&& view.wf()
    &&& id < view.next_follower
    &&& read.is_prefix_of(stream)
    &&& view.has_follower(id) ==> {
        let follower = view.follower(id);
        &&& follower.source == source
        &&& (read + follower.queue).is_prefix_of(stream)
        &&& follower.open ==> read + follower.queue == stream
    }
}

/// A publication keeps a follower in step.
proof fn lemma_published_in_step(
    view: FanoutView,
    id: u64,
    source: FrameSource,
    read: Seq<SourcedView>,
    stream: Seq<SourcedView>,
    publisher: FrameSource,
    frame: FrameView,
)
    requires
        in_step(view, id, source, read, stream),
    ensures
        in_step(
            view.published(publisher, frame),
            id,
            source,
            read,
            if publisher == source {
                stream.push(SourcedView { source, frame })
            } else {
                stream
            },
        ),
{
    let after = view.published(publisher, frame);
    let more = if publisher == source {
        stream.push(SourcedView { source, frame })
    } else {
        stream
    };
    lemma_published_wf(view, publisher, frame);
    assert(after.followers.len() == view.followers.len());
    assert forall|i: int| 0 <= i < view.followers.len() implies (#[trigger] after.followers[i]).id
        == view.followers[i].id by {
    }
    if after.has_follower(id) {
        let i = after.follower_at(id);
        assert(view.followers[i].id == id);
        lemma_follower_at(view, i);
        let before = view.followers[i];
        let now = after.followers[i];
        assert(view.follower(id) == before && after.follower(id) == now);
        if view.live.contains(publisher) {
            assert(now == before.offered(publisher, frame));
            if before.source == publisher && before.open && before.queue.len() < before.capacity {
                assert(read + now.queue =~= (read + before.queue).push(
                    SourcedView { source, frame },
                ));
            }
        } else if before.open {
            assert(view.live.contains(before.source));
        }
    }
    assert(read.is_prefix_of(more));
}

/// Whatever happens keeps a follower in step.
proof fn lemma_in_step(
    start: FanoutView,
    id: u64,
    source: FrameSource,
    first: Seq<SourcedView>,
    events: Seq<FanoutEvent>,
)
    requires
        in_step(start, id, source, Seq::empty(), first),
    ensures
        in_step(
            start.after_all(events),
            id,
            source,
            start.read_by(id, events),
            first + published_for(source, events),
        ),
    decreases events.len(),
{
    if events.len() == 0 {
        assert(first + published_for(source, events) =~= first);
    } else {
        let earlier = events.drop_last();
        lemma_in_step(start, id, source, first, earlier);
        let view = start.after_all(earlier);
        let event = events.last();
        let after = view.after(event);
        let read = start.read_by(id, earlier);
        let stream = first + published_for(source, earlier);
        lemma_after_wf(view, event);
        match event {
            FanoutEvent::Allocated => {
                assert(after.has_follower(id) ==> view.has_follower(id));
                assert(after.follower_at(id) == view.follower_at(id));
            },
            FanoutEvent::Opened(opened) => {
                let registered = FanoutView {
                    live: if view.live.contains(opened) {
                        view.live
                    } else {
                        view.live.push(opened)
                    },
                    ..view
                };
                assert(registered.wf()) by {
                    assert forall|s: FrameSource| view.live.contains(s) implies #[trigger]
                        registered.live.contains(s) by {
                        let i = choose|i: int| 0 <= i < view.live.len() && view.live[i] == s;
                        assert(registered.live[i] == s);
                    }
                }
                assert(registered.follower_at(id) == view.follower_at(id));
                lemma_published_in_step(
                    registered,
                    id,
                    source,
                    read,
                    stream,
                    opened,
                    FrameView::Reset,
                );
                assert(opened == source ==> first + published_for(source, events) =~= stream.push(
                    SourcedView { source, frame: FrameView::Reset },
                ));
            },
            FanoutEvent::Published(publisher, frame) => {
                lemma_published_in_step(view, id, source, read, stream, publisher, frame);
                assert(publisher == source ==> first + published_for(source, events)
                    =~= stream.push(SourcedView { source, frame }));
            },
            FanoutEvent::Joined(_, _) => {
                if after.has_follower(id) {
                    let i = after.follower_at(id);
                    assert(i < view.followers.len());
                    assert(view.followers[i] == after.followers[i]);
                    lemma_follower_at(view, i);
                }
            },
            FanoutEvent::Left(gone) => {
                if after.has_follower(id) && view.has_follower(gone) {
                    let at = view.follower_at(gone);
                    let i = after.follower_at(id);
                    let j = if i < at {
                        i
                    } else {
                        i + 1
                    };
                    assert(after.followers[i] == view.followers[j]);
                    lemma_follower_at(view, j);
                }
            },
            FanoutEvent::Read(reader) => {
                if view.next_of(reader) is Some {
                    let at = view.follower_at(reader);
                    if after.has_follower(id) {
                        let i = after.follower_at(id);
                        assert(view.followers[i].id == after.followers[i].id);
                        lemma_follower_at(view, i);
                    }
                    if reader == id {
                        lemma_follower_at(after, at);
                        let queue = view.follower(id).queue;
                        assert(read.push(queue[0]) + queue.drop_first() =~= read + queue);
                        assert(read.push(queue[0]).is_prefix_of(stream)) by {
                            assert(read.push(queue[0]) =~= (read + queue).take(
                                read.len() as int + 1,
                            ));
                        }
                    }
                }
            },
        }
    }
}

/// A follower's stream has no gap. Whatever happens after it joins, what it has read and can still
/// read begins with a reset and goes on with the frames published for its session since, none
/// skipped and none out of order; and as long as it is open it is all of them.
pub proof fn law_followers_stream_has_no_gap(
    view: FanoutView,
    source: FrameSource,
    capacity: usize,
    events: Seq<FanoutEvent>,
)
    requires
        view.wf(),
        view.live.contains(source),
        view.next_follower < u64::MAX,
    ensures
        ({
            let id = view.next_follower;
            let start = view.joined(source, capacity);
            let end = start.after_all(events);
            let stream = seq![SourcedView { source, frame: FrameView::Reset }] + published_for(
                source,
                events,
            );
            &&& start.seen_by(id, events).is_prefix_of(stream)
            &&& start.read_by(id, events).is_prefix_of(stream)
            &&& end.has_follower(id) && end.follower(id).open ==> start.seen_by(id, events)
                == stream
        }),
{
    let id = view.next_follower;
    let start = view.joined(source, capacity);
    let first = seq![SourcedView { source, frame: FrameView::Reset }];
    assert(start == view.after(FanoutEvent::Joined(source, capacity)));
    lemma_after_wf(view, FanoutEvent::Joined(source, capacity));
    lemma_follower_at(start, view.followers.len() as int);
    assert(Seq::<SourcedView>::empty() + first =~= first);
    assert(first.is_prefix_of(first));
    assert(Seq::<SourcedView>::empty().is_prefix_of(first));
    lemma_in_step(start, id, source, first, events);
}

proof fn lemma_session_number(n: u64, k: nat)
    requires
        k <= u64::MAX,
    ensures
        session_number_after(n, k) == (if n + k <= u64::MAX {
            n + k
        } else {
            n + k - u64::MAX - 1
        }),
    decreases k,
{
    if k > 0 {
        lemma_session_number(n, (k - 1) as nat);
    }
}

/// No two sessions share a number before the numbers start over.
pub proof fn law_sessions_are_distinct(n: u64, k: nat)
    requires
        0 < k <= u64::MAX,
    ensures
        session_number_after(n, k) != n,
{
    lemma_session_number(n, k);
}

/// Only a running session reaches anybody, and only its own last frame stops it. Nothing that is
/// published opens or closes another session, or touches what a follower is.
pub proof fn law_only_its_last_frame_stops_a_session(
    view: FanoutView,
    source: FrameSource,
    frame: FrameView,
    other: FrameSource,
)
    ensures
        ({
            let after = view.published(source, frame);
            &&& !view.live.contains(source) ==> after == view
            &&& after.live.contains(other) <==> view.live.contains(other) && !(frame is SessionEnded
                && other == source)
            &&& after.next_session == view.next_session
            &&& after.next_follower == view.next_follower
            &&& after.followers.len() == view.followers.len()
            &&& forall|i: int|
                0 <= i < view.followers.len() ==> {
                    let f = #[trigger] view.followers[i];
                    let g = after.followers[i];
                    &&& g.id == f.id
                    &&& g.source == f.source
                    &&& g.capacity == f.capacity
                    &&& !f.open ==> g == f
                }
        }),
{
    let after = view.published(source, frame);
    let keep = other_than(source);
    if view.live.contains(source) && frame is SessionEnded {
        if after.live.contains(other) {
            view.live.lemma_filter_contains_rev(keep, other);
            let i = choose|i: int| 0 <= i < after.live.len() && after.live[i] == other;
            view.live.lemma_filter_pred(keep, i);
        }
        if view.live.contains(other) && other != source {
            let i = choose|i: int| 0 <= i < view.live.len() && view.live[i] == other;
            view.live.lemma_filter_contains(keep, i);
        }
    }
}

/// A session that begins is running, announces itself with a reset to every open follower with
/// room for it, and changes no other session.
pub proof fn law_a_session_begins_with_a_reset(
    view: FanoutView,
    source: FrameSource,
    other: FrameSource,
    i: int,
)
    ensures
        view.opened(source).live.contains(other) <==> view.live.contains(other) || other == source,
        0 <= i < view.followers.len() && view.followers[i].source == source
            && view.followers[i].open && view.followers[i].queue.len()
            < view.followers[i].capacity ==> view.opened(source).followers[i].queue
            == view.followers[i].queue.push(SourcedView { source, frame: FrameView::Reset })
            && view.opened(source).followers[i].open,
        0 <= i < view.followers.len() && view.followers[i].source != source ==> view.opened(
            source,
        ).followers[i] == view.followers[i],
        view.opened(source).followers.len() == view.followers.len(),
        view.opened(source).next_session == view.next_session,
        view.opened(source).next_follower == view.next_follower,
{
    let live = view.opened(source).live;
    if !view.live.contains(source) {
        assert(live =~= view.live.push(source));
        assert(live[view.live.len() as int] == source);
        if view.live.contains(other) {
            let k = choose|k: int| 0 <= k < view.live.len() && view.live[k] == other;
            assert(live[k] == other);
        }
    }
}

/// A follower joins last, open, under the next number, with the room it asked for and at least
/// room for one frame.
pub proof fn law_follower_joins_as_asked(view: FanoutView, source: FrameSource, capacity: usize)
    requires
        view.next_follower < u64::MAX,
    ensures
        ({
            let after = view.joined(source, capacity);
            let f = after.followers[view.followers.len() as int];
            &&& after.followers.len() == view.followers.len() + 1
            &&& forall|i: int|
                0 <= i < view.followers.len() ==> #[trigger] after.followers[i]
                    == view.followers[i]
            &&& f.id == view.next_follower
            &&& f.source == source
            &&& f.open
            &&& capacity > 0 ==> f.capacity == capacity
            &&& capacity == 0 ==> f.capacity == 1
            &&& after.next_follower == view.next_follower + 1
            &&& after.next_session == view.next_session
            &&& after.live == view.live
        }),
{
}

/// The followers that can still be reached are counted one by one.
pub proof fn law_open_followers_are_counted(view: FanoutView, f: FollowerView)
    ensures
        (FanoutView { followers: Seq::empty(), ..view }).open_followers() == 0,
        (FanoutView { followers: view.followers.push(f), ..view }).open_followers()
            == view.open_followers() + (if f.open {
            1int
        } else {
            0
        }),
{
    reveal(Seq::filter);
    view.followers.lemma_filter_push(f, |f: FollowerView| f.open);
}

/// A follower reads its oldest unread frame and keeps the others; nobody else is touched. One that
/// leaves is forgotten, and nobody else is.
pub proof fn law_a_follower_reads_its_oldest_frame(view: FanoutView, i: int, j: int)
    requires
        view.wf(),
        0 <= i < view.followers.len(),
        0 <= j < view.followers.len(),
    ensures
        ({
            let f = view.followers[i];
            let read = view.read(f.id);
            let left = view.left(f.id);
            &&& view.next_of(f.id) is Some <==> f.queue.len() > 0
            &&& f.queue.len() > 0 ==> view.next_of(f.id) == Some(f.queue[0])
            &&& read.followers.len() == view.followers.len()
            &&& f.queue.len() > 0 ==> read.followers[i].queue == f.queue.subrange(
                1,
                f.queue.len() as int,
            )
            &&& f.queue.len() == 0 ==> read == view
            &&& read.followers[i].id == f.id && read.followers[i].source == f.source
            &&& read.followers[i].capacity == f.capacity && read.followers[i].open == f.open
            &&& j != i ==> read.followers[j] == view.followers[j]
            &&& read.live == view.live && left.live == view.live
            &&& left.followers.len() == view.followers.len() - 1
            &&& j < i ==> left.followers[j] == view.followers[j]
            &&& j > i ==> left.followers[j - 1] == view.followers[j]
        }),
{
    lemma_follower_at(view, i);
    let f = view.followers[i];
    assert(f.queue.drop_first() =~= f.queue.subrange(1, f.queue.len() as int));
}

/// A subscription tells its follower apart by why there is no frame: nothing has come yet while it is
/// open, and nothing will come once it is not.
pub proof fn law_an_open_subscription_is_empty_and_a_closed_one_disconnected(
    subscription: &mut FrameSubscription,
    fanout: &mut FrameFanout,
    frame: Result<SourcedFrame, TryRecvError>,
    i: int,
)
    requires
        old(fanout)@.wf(),
        0 <= i < old(fanout)@.followers.len(),
        old(fanout)@.followers[i].id == old(subscription).follower(),
        call_ensures(FrameSubscription::try_recv, (subscription, fanout), frame),
    ensures
        ({
            let f = old(fanout)@.followers[i];
            &&& frame is Ok <==> f.queue.len() > 0
            &&& frame is Ok ==> frame->Ok_0@ == f.queue[0]
            &&& f.queue.len() == 0 && f.open ==> frame->Err_0 is Empty
            &&& f.queue.len() == 0 && !f.open ==> frame->Err_0 is Disconnected
            &&& f.queue.len() == 0 ==> final(fanout)@ == old(fanout)@
        }),
{
    lemma_follower_at(old(fanout)@, i);
}

} // verus!
