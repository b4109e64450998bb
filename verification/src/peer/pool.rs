//! The peers held, how they are picked, and when they are dropped.
//!
//! Peers are untrusted. The pool holds enough of them that their agreement means something, counts
//! as independent only those it discovered, and cycles them so that a set captured once does not
//! decide for the life of the process. The caller dials and waits; the pool decides.

use vstd::prelude::*;

use crate::address::SocketAddr;
use crate::peer::connect::PeerOrigin;
use crate::peer::frames::{
    FrameFanout, FrameSource, FrameSubscription, FrameView, PoolFrame, SessionEndReason, SessionId,
    SourcedFrame, TryRecvError, MAX_FRAME_COIN_STATES,
};
use crate::peer::frames::FanoutView;
use crate::peer::ordering::DIAL_OVERSUBSCRIPTION;
use crate::peer::peaks::reference_peak;
use crate::peer::plurality::{CORROBORATION_FLOOR, PEAK_LAG_EVICTION, PEER_LIFETIME, PRIORITY_SLOTS};
use crate::peer::selection::{dials_for, most_credible, DialCandidate};
use crate::types::ChiaQueryError;
use crate::wire::{decode_coin_state_update, decode_new_peak, CoinStateUpdate, NewPeak};

verus! {

/// How many dial rounds a fill may spend.
///
/// The priority addresses are tried one after another and a round admits at most one of them, so
/// that many rounds can pass before a dial reaches discovery. Two more are owed: one that reaches
/// it, and one for attrition.
pub const FILL_ROUNDS: usize = PRIORITY_SLOTS + 2;

/// Whether at least one peer must connect for the pool to be of use.
#[derive(Clone, Copy, Debug, PartialEq, Eq, Structural)]
pub enum PeerRequirement {
    /// Finding no peer is fatal.
    Required,
    /// An empty pool is acceptable; it refills later.
    Optional,
}

/// Whether the pool holds enough independent voices for a corroborated read.
#[derive(Clone, Copy, Debug, PartialEq, Eq, Structural)]
pub enum CorroborationReadiness {
    /// Enough independent peers besides the one answering.
    Armed { corroborators: usize },
    /// Too few. The read is made all the same, and its answer graded uncorroborated.
    Insufficient { corroborators: usize, required: usize },
}

/// One peer held.
pub struct PeerEntry<C> {
    pub connection: C,
    pub address: SocketAddr,
    /// The session this connection publishes under.
    pub session: SessionId,
    pub origin: PeerOrigin,
    /// The highest peak the peer announced, or zero before it announced any.
    pub last_peak: u32,
    /// When the peer entered the pool.
    pub admitted_at: u128,
}

/// One round of dials: what the caller must not dial, how many slots are to be filled and how many
/// dials to open for them.
pub struct DialRound {
    pub held: Vec<SocketAddr>,
    pub wanted: usize,
    pub dials: usize,
}

/// A message a session delivered.
pub enum InboundMessage {
    /// The body of a `NewPeakWallet`.
    NewPeakWallet(Vec<u8>),
    /// The body of a `CoinStateUpdate`.
    CoinStateUpdate(Vec<u8>),
    /// Anything else.
    Other,
}

/// What a pool holds.
#[verifier::ext_equal]
pub struct PoolView<C> {
    pub entries: Seq<PeerEntry<C>>,
    pub next_idx: usize,
    pub max_peers: usize,
    pub fanout: FanoutView,
    pub dead: Seq<FrameSource>,
}

/// The addresses of `entries`, in order.
pub open spec fn addresses_of<C>(entries: Seq<PeerEntry<C>>) -> Seq<SocketAddr> {
    entries.map_values(|e: PeerEntry<C>| e.address)
}

/// Whether a peer at `address` stands in `entries`.
pub open spec fn holds<C>(entries: Seq<PeerEntry<C>>, address: SocketAddr) -> bool {
    exists|i: int| 0 <= i < entries.len() && (#[trigger] entries[i]).address == address
}

/// The session an entry publishes under.
pub open spec fn source_of<C>(e: PeerEntry<C>) -> FrameSource {
    FrameSource { address: e.address, session: e.session }
}

/// Whether a peer was discovered.
pub open spec fn is_discovered<C>() -> spec_fn(PeerEntry<C>) -> bool {
    |e: PeerEntry<C>| e.origin == PeerOrigin::Discovered
}

/// Whether a peer can corroborate an answer of the peer at `asked`: another address, and
/// discovered.
pub open spec fn corroborates<C>(asked: SocketAddr) -> spec_fn(PeerEntry<C>) -> bool {
    |e: PeerEntry<C>| e.address != asked && e.origin == PeerOrigin::Discovered
}

/// Whether the peers besides the one at `asked` are enough to corroborate its answer.
pub open spec fn readiness_for<C>(
    entries: Seq<PeerEntry<C>>,
    asked: SocketAddr,
) -> CorroborationReadiness {
    let corroborators = entries.filter(corroborates(asked)).len() as usize;
    if corroborators >= CORROBORATION_FLOOR {
        CorroborationReadiness::Armed { corroborators }
    } else {
        CorroborationReadiness::Insufficient { corroborators, required: CORROBORATION_FLOOR }
    }
}

/// Whether a peer stands at another address than `address`.
pub open spec fn elsewhere<C>(address: SocketAddr) -> spec_fn(PeerEntry<C>) -> bool {
    |e: PeerEntry<C>| e.address != address
}

/// Whether the peer at position `i` stands at `address` and has announced a peak.
pub open spec fn speaks_at<C>(entries: Seq<PeerEntry<C>>, address: SocketAddr, i: int) -> bool {
    0 <= i < entries.len() && entries[i].address == address && entries[i].last_peak > 0
}

/// The peak announced by the peer held at `address`, if it announced one.
pub open spec fn announced_at<C>(entries: Seq<PeerEntry<C>>, address: SocketAddr) -> Option<u32> {
    if exists|i: int| speaks_at(entries, address, i) {
        Some(entries[choose|i: int| speaks_at(entries, address, i)].last_peak)
    } else {
        None
    }
}

/// Whether a peer has announced a peak.
pub open spec fn has_spoken<C>() -> spec_fn(PeerEntry<C>) -> bool {
    |e: PeerEntry<C>| e.last_peak > 0
}

/// Whether a discovered peer has announced a peak.
pub open spec fn may_vote<C>() -> spec_fn(PeerEntry<C>) -> bool {
    |e: PeerEntry<C>| e.origin == PeerOrigin::Discovered && e.last_peak > 0
}

/// The peak of a peer.
pub open spec fn peak_of<C>() -> spec_fn(PeerEntry<C>) -> u32 {
    |e: PeerEntry<C>| e.last_peak
}

/// What every peer that has spoken announced.
pub open spec fn announced<C>(entries: Seq<PeerEntry<C>>) -> Seq<u32> {
    entries.filter(has_spoken()).map_values(peak_of())
}

/// What the discovered peers that have spoken announced. A priority peer has no vote: it is the
/// source a local attacker can supply.
pub open spec fn votes<C>(entries: Seq<PeerEntry<C>>) -> Seq<u32> {
    entries.filter(may_vote()).map_values(peak_of())
}

/// Whether a peer keeps its place when `reference` is the chain's peak: it is a priority peer, it
/// has not spoken, or it trails by no more than the bar.
pub open spec fn keeps_up<C>(reference: Option<u32>) -> spec_fn(PeerEntry<C>) -> bool {
    |e: PeerEntry<C>|
        !(reference is Some && e.origin == PeerOrigin::Discovered && e.last_peak > 0 && reference->0
            - e.last_peak > PEAK_LAG_EVICTION)
}

/// Whether a peer has fallen too far behind.
pub open spec fn lags<C>(reference: Option<u32>) -> spec_fn(PeerEntry<C>) -> bool {
    |e: PeerEntry<C>| !keeps_up(reference)(e)
}

/// Whether a discovered peer has been held for its whole lifetime.
pub open spec fn expired<C>(e: PeerEntry<C>, now: u128) -> bool {
    e.origin == PeerOrigin::Discovered && now - e.admitted_at >= PEER_LIFETIME
}

/// Whether entry `i` is the one to rotate out: expired, and the oldest of those, the first among
/// equals.
pub open spec fn is_oldest_expired<C>(entries: Seq<PeerEntry<C>>, now: u128, i: int) -> bool {
    &&& 0 <= i < entries.len()
    &&& expired(entries[i], now)
    &&& forall|j: int|
        0 <= j < entries.len() && expired(#[trigger] entries[j], now) ==> entries[i].admitted_at
            <= entries[j].admitted_at && (j < i ==> entries[i].admitted_at
            < entries[j].admitted_at)
}

/// The entry to rotate out, if any has expired.
pub open spec fn oldest_expired<C>(entries: Seq<PeerEntry<C>>, now: u128) -> Option<int> {
    if exists|i: int| is_oldest_expired(entries, now, i) {
        Some(choose|i: int| is_oldest_expired(entries, now, i))
    } else {
        None
    }
}

/// Whether a peer's session is not among the dead.
pub open spec fn lives<C>(dead: Seq<FrameSource>) -> spec_fn(PeerEntry<C>) -> bool {
    |e: PeerEntry<C>| !dead.contains(source_of(e))
}

/// `e` after its session announced `height`.
pub open spec fn heard<C>(source: FrameSource, height: u32) -> spec_fn(PeerEntry<C>) -> PeerEntry<C> {
    |e: PeerEntry<C>|
        if source_of(e) == source && e.last_peak < height {
            PeerEntry { last_peak: height, ..e }
        } else {
            e
        }
}

impl<C> PoolView<C> {
    /// No address is held twice, no more peers are held than allowed, and the fan-out is well
    /// formed.
    pub open spec fn wf(self) -> bool {
        &&& self.entries.len() <= self.max_peers
        &&& forall|i: int, j: int|
            0 <= i < self.entries.len() && 0 <= j < self.entries.len() && i != j ==> (
            #[trigger] self.entries[i]).address != (#[trigger] self.entries[j]).address
        &&& self.fanout.wf()
    }

    /// The pool without the peer at `address`.
    pub open spec fn without(self, address: SocketAddr) -> PoolView<C> {
        PoolView { entries: self.entries.filter(elsewhere(address)), ..self }
    }

    /// The pool without the peers at `addresses`.
    pub open spec fn without_all(self, addresses: Seq<SocketAddr>) -> PoolView<C>
        decreases addresses.len(),
    {
        if addresses.len() == 0 {
            self
        } else {
            self.without_all(addresses.drop_last()).without(addresses.last())
        }
    }

    /// The pool once the next peer in turn has been picked.
    pub open spec fn turned(self) -> PoolView<C> {
        if self.entries.len() == 0 {
            self
        } else {
            PoolView {
                next_idx: if self.next_idx == usize::MAX {
                    0
                } else {
                    (self.next_idx + 1) as usize
                },
                ..self
            }
        }
    }

    /// The entry of the next peer in turn.
    pub open spec fn entry_in_turn(self) -> PeerEntry<C> {
        self.entries[self.next_idx as int % self.entries.len() as int]
    }

    /// The next peer in turn.
    pub open spec fn in_turn(self) -> SocketAddr {
        self.entry_in_turn().address
    }

    /// Whether the session of `entry` can be followed.
    pub open spec fn can_follow(self, entry: PeerEntry<C>) -> bool {
        self.fanout.next_follower < u64::MAX && self.fanout.live.contains(source_of(entry))
    }

    /// Whether a connection to `address` would be admitted.
    pub open spec fn admits(self, address: SocketAddr) -> bool {
        self.entries.len() < self.max_peers && !holds(self.entries, address)
    }

    /// The identity the next connection to `address` gets.
    pub open spec fn next_source(self, address: SocketAddr) -> FrameSource {
        FrameSource { address, session: SessionId(self.fanout.next_session) }
    }

    /// After a connection is offered: identified in any case, and held and announced if admitted.
    pub open spec fn offered(
        self,
        connection: C,
        address: SocketAddr,
        origin: PeerOrigin,
        now: u128,
    ) -> PoolView<C> {
        let source = self.next_source(address);
        let identified = FanoutView {
            next_session: crate::peer::frames::next_session_number(self.fanout.next_session),
            ..self.fanout
        };
        if self.admits(address) {
            PoolView {
                entries: self.entries.push(
                    PeerEntry {
                        connection,
                        address,
                        session: source.session,
                        origin,
                        last_peak: 0,
                        admitted_at: now,
                    },
                ),
                fanout: identified.opened(source),
                ..self
            }
        } else {
            PoolView { fanout: identified, ..self }
        }
    }

    /// After each of `candidates` is offered, in order.
    pub open spec fn offered_all(self, candidates: Seq<DialCandidate<C>>, now: u128) -> PoolView<C>
        decreases candidates.len(),
    {
        if candidates.len() == 0 {
            self
        } else {
            let c = candidates.last();
            self.offered_all(candidates.drop_last(), now).offered(
                c.connection,
                c.address,
                c.origin,
                now,
            )
        }
    }

    /// The sessions that open when each of `candidates` is offered, in order.
    pub open spec fn admitted_sources(self, candidates: Seq<DialCandidate<C>>, now: u128) -> Seq<
        FrameSource,
    >
        decreases candidates.len(),
    {
        if candidates.len() == 0 {
            Seq::empty()
        } else {
            let before = self.offered_all(candidates.drop_last(), now);
            let sources = self.admitted_sources(candidates.drop_last(), now);
            if before.admits(candidates.last().address) {
                sources.push(before.next_source(candidates.last().address))
            } else {
                sources
            }
        }
    }

    /// After the peers whose sessions ended are dropped.
    pub open spec fn without_dead(self) -> PoolView<C> {
        PoolView {
            entries: self.entries.filter(lives(self.dead)),
            dead: Seq::empty(),
            ..self
        }
    }

    /// The peak the discovered peers support.
    pub open spec fn reference(self) -> Option<u32> {
        crate::peer::peaks::lower_median(votes(self.entries))
    }

    /// After the lagging peers are dropped.
    pub open spec fn without_lagging(self) -> PoolView<C> {
        PoolView { entries: self.entries.filter(keeps_up(self.reference())), ..self }
    }

    /// After the oldest expired peer is dropped.
    pub open spec fn without_expired(self, now: u128) -> PoolView<C> {
        match oldest_expired(self.entries, now) {
            Some(i) => PoolView { entries: self.entries.remove(i), ..self },
            None => self,
        }
    }

    /// After one pass of maintenance.
    pub open spec fn maintained(self, now: u128) -> PoolView<C> {
        self.without_dead().without_lagging().without_expired(now)
    }

    /// After a session announced a peak: recorded if it is the peer's highest, and published.
    pub open spec fn peak_heard(self, source: FrameSource, peak: NewPeak) -> PoolView<C> {
        PoolView {
            entries: self.entries.map_values(heard(source, peak.height)),
            fanout: self.fanout.published(
                source,
                FrameView::Peak { height: peak.height, header_hash: peak.header_hash },
            ),
            ..self
        }
    }
}

/// Whether following the session held at `address` leads from one pool to the other, with the
/// outcome `subscription`: none where no running session is held there.
pub open spec fn is_subscribing<C>(
    before: PoolView<C>,
    address: SocketAddr,
    capacity: usize,
    after: PoolView<C>,
    subscription: Option<FrameSubscription>,
) -> bool {
    &&& subscription is Some <==> before.fanout.next_follower < u64::MAX && exists|i: int|
        0 <= i < before.entries.len() && (#[trigger] before.entries[i]).address == address
            && before.fanout.live.contains(source_of(before.entries[i]))
    &&& match subscription {
        Some(s) => {
            &&& s.spec_source().address == address
            &&& s.follower() == before.fanout.next_follower
            &&& exists|i: int|
                0 <= i < before.entries.len() && source_of(#[trigger] before.entries[i])
                    == s.spec_source()
            &&& after == PoolView { fanout: before.fanout.joined(s.spec_source(), capacity), ..before }
        },
        None => after == before,
    }
}

/// The peers held, and the frames they send.
pub struct PeerPool<C> {
    entries: Vec<PeerEntry<C>>,
    next_idx: usize,
    max_peers: usize,
    fanout: FrameFanout,
    dead_sessions: Vec<FrameSource>,
}

impl<C> View for PeerPool<C> {
    type V = PoolView<C>;

    closed spec fn view(&self) -> PoolView<C> {
        PoolView {
            entries: self.entries@,
            next_idx: self.next_idx,
            max_peers: self.max_peers,
            fanout: self.fanout@,
            dead: self.dead_sessions@,
        }
    }
}

impl<C> PeerPool<C> {
    /// An empty pool for at most `max_peers` peers.
    pub fn new(max_peers: usize) -> (pool: Self)
        ensures
            pool@.wf(),
            pool@.entries == Seq::<PeerEntry<C>>::empty(),
            pool@.next_idx == 0,
            pool@.max_peers == max_peers,
            pool@.fanout == (FanoutView {
                live: Seq::empty(),
                followers: Seq::empty(),
                next_session: 0,
                next_follower: 0,
            }),
            pool@.dead == Seq::<FrameSource>::empty(),
    {
        PeerPool {
            entries: Vec::new(),
            next_idx: 0,
            max_peers,
            fanout: FrameFanout::new(),
            dead_sessions: Vec::new(),
        }
    }

    /// Whether a pool that has been filled is of use: an empty one is not, where a peer is
    /// required.
    pub fn check_requirement(&self, requirement: PeerRequirement) -> (usable: Result<
        (),
        ChiaQueryError,
    >)
        ensures
            usable == (if self@.entries.len() == 0 && requirement == PeerRequirement::Required {
                Err(ChiaQueryError::PeerDiscoveryFailed)
            } else {
                Ok(())
            }),
    {
        if !self.has_peers() && requirement == PeerRequirement::Required {
            Err(ChiaQueryError::PeerDiscoveryFailed)
        } else {
            Ok(())
        }
    }

    /// Whether the pool holds a peer.
    pub fn has_peers(&self) -> (held: bool)
        ensures
            held == (self@.entries.len() > 0),
    {
        self.entries.len() > 0
    }

    /// How many peers the pool holds.
    pub fn peer_count(&self) -> (count: usize)
        ensures
            count == self@.entries.len(),
    {
        self.entries.len()
    }

    /// The addresses held, in order.
    pub fn held_addresses(&self) -> (addresses: Vec<SocketAddr>)
        ensures
            addresses@ == addresses_of(self@.entries),
    {
        let mut addresses: Vec<SocketAddr> = Vec::new();
        let mut i: usize = 0;
        while i < self.entries.len()
            invariant
                i <= self.entries.len(),
                addresses@ == addresses_of(self.entries@.take(i as int)),
            decreases self.entries.len() - i,
        {
            addresses.push(self.entries[i].address);
            i = i + 1;
            assert(addresses@ =~= addresses_of(self.entries@.take(i as int)));
        }
        assert(self.entries@.take(i as int) =~= self.entries@);
        addresses
    }

    /// The round of dials to make next, after `rounds` of them, the last of which admitted
    /// `last_admitted` peers.
    ///
    /// None once the pool is full, the rounds are spent, or a round admitted nobody: dialling
    /// again would not help either.
    pub fn next_round(&self, rounds: usize, last_admitted: Option<usize>) -> (round: Option<
        DialRound,
    >)
        ensures
            round is Some <==> rounds < FILL_ROUNDS && last_admitted != Some(0usize)
                && self@.entries.len() < self@.max_peers,
            round matches Some(r) ==> {
                &&& r.held@ == addresses_of(self@.entries)
                &&& r.wanted == self@.max_peers - self@.entries.len()
                &&& r.dials == (if r.wanted * DIAL_OVERSUBSCRIPTION > usize::MAX {
                    usize::MAX as int
                } else {
                    r.wanted * DIAL_OVERSUBSCRIPTION
                })
            },
    {
        if rounds >= FILL_ROUNDS {
            return None;
        }
        if let Some(admitted) = last_admitted {
            if admitted == 0 {
                return None;
            }
        }
        if self.entries.len() >= self.max_peers {
            return None;
        }
        let wanted: usize = self.max_peers - self.entries.len();
        Some(DialRound { held: self.held_addresses(), wanted, dials: dials_for(wanted) })
    }

    fn position(&self, address: SocketAddr) -> (at: Option<usize>)
        ensures
            at is Some <==> holds(self.entries@, address),
            at matches Some(i) ==> i < self.entries@.len() && self.entries@[i as int].address
                == address,
    {
        let mut i: usize = 0;
        while i < self.entries.len()
            invariant
                i <= self.entries.len(),
                forall|j: int| 0 <= j < i ==> (#[trigger] self.entries@[j]).address != address,
            decreases self.entries.len() - i,
        {
            if self.entries[i].address == address {
                return Some(i);
            }
            i = i + 1;
        }
        None
    }

    /// Offers a connection: admitted unless the pool is full or holds its address. An admitted
    /// session is announced before it can publish anything.
    ///
    /// Returns the session's identity if it was admitted.
    pub fn admit_and_follow(
        &mut self,
        connection: C,
        address: SocketAddr,
        origin: PeerOrigin,
        now: u128,
    ) -> (admitted: Option<FrameSource>)
        requires
            old(self)@.wf(),
        ensures
            final(self)@.wf(),
            final(self)@ == old(self)@.offered(connection, address, origin, now),
            admitted == (if old(self)@.admits(address) {
                Some(old(self)@.next_source(address))
            } else {
                None
            }),
    {
        let source = self.fanout.allocate_session(address);
        if self.entries.len() >= self.max_peers || self.position(address).is_some() {
            return None;
        }
        self.entries.push(
            PeerEntry {
                connection,
                address,
                session: source.session,
                origin,
                last_peak: 0,
                admitted_at: now,
            },
        );
        self.fanout.open_session(source);
        Some(source)
    }

    /// Judges one completed round and admits the best of it. Returns the sessions admitted.
    pub fn admit_most_credible(
        &mut self,
        candidates: Vec<DialCandidate<C>>,
        wanted: usize,
        now: u128,
    ) -> (admitted: Vec<FrameSource>)
        requires
            old(self)@.wf(),
        ensures
            final(self)@.wf(),
            final(self)@ == old(self)@.offered_all(
                crate::peer::selection::credible(candidates@, wanted as int),
                now,
            ),
            admitted@ == old(self)@.admitted_sources(
                crate::peer::selection::credible(candidates@, wanted as int),
                now,
            ),
    {
        let mut left = most_credible(candidates, wanted);
        let ghost chosen = left@;
        let mut admitted: Vec<FrameSource> = Vec::new();
        let ghost mut done: int = 0;
        assert(chosen.skip(0) =~= chosen);
        while left.len() > 0
            invariant
                0 <= done <= chosen.len(),
                left@ == chosen.skip(done),
                self@.wf(),
                self@ == old(self)@.offered_all(chosen.take(done), now),
                admitted@ == old(self)@.admitted_sources(chosen.take(done), now),
            decreases left.len(),
        {
            let candidate = left.remove(0);
            proof {
                assert(chosen.take(done + 1).drop_last() =~= chosen.take(done));
                assert(chosen.take(done + 1).last() == candidate);
                assert(left@ =~= chosen.skip(done + 1));
                done = done + 1;
            }
            let outcome = self.admit_and_follow(
                candidate.connection,
                candidate.address,
                candidate.origin,
                now,
            );
            if let Some(source) = outcome {
                admitted.push(source);
            }
        }
        assert(chosen.take(done) =~= chosen);
        admitted
    }
}

/// Drops the entries that are not to be kept.
fn retain<C>(
    entries: &mut Vec<PeerEntry<C>>,
    keep: &Vec<bool>,
    Ghost(wanted): Ghost<spec_fn(PeerEntry<C>) -> bool>,
)
    requires
        keep@.len() == old(entries)@.len(),
        forall|i: int| 0 <= i < keep@.len() ==> keep@[i] == wanted(#[trigger] old(entries)@[i]),
    ensures
        final(entries)@ == old(entries)@.filter(wanted),
{
    let ghost all = entries@;
    let mut seen: usize = 0;
    let mut at: usize = 0;
    proof {
        reveal(Seq::filter);
        assert(all.skip(0) =~= all);
        assert(all.take(0).filter(wanted) + all.skip(0) =~= all);
    }
    while seen < keep.len()
        invariant
            seen <= keep@.len(),
            keep@.len() == all.len(),
            forall|i: int| 0 <= i < keep@.len() ==> keep@[i] == wanted(#[trigger] all[i]),
            at == all.take(seen as int).filter(wanted).len(),
            entries@ == all.take(seen as int).filter(wanted) + all.skip(seen as int),
        decreases keep.len() - seen,
    {
        let ghost before = all.take(seen as int).filter(wanted);
        let ghost next = all[seen as int];
        proof {
            assert(all.take(seen + 1) =~= all.take(seen as int).push(next));
            all.take(seen as int).lemma_filter_push(next, wanted);
            assert(all.skip(seen as int) =~= seq![next] + all.skip(seen + 1));
        }
        if keep[seen] {
            at = at + 1;
            assert(entries@ =~= before.push(next) + all.skip(seen + 1));
        } else {
            let _ = entries.remove(at);
            assert(entries@ =~= before + all.skip(seen + 1));
        }
        seen = seen + 1;
    }
    proof {
        assert(all.take(seen as int) =~= all);
        assert(all.skip(seen as int) =~= Seq::empty());
        assert(entries@ =~= all.filter(wanted));
    }
}

/// A filter keeps distinct addresses distinct and grows nothing.
proof fn lemma_filter_keeps_distinct<C>(
    entries: Seq<PeerEntry<C>>,
    keep: spec_fn(PeerEntry<C>) -> bool,
)
    requires
        forall|i: int, j: int|
            0 <= i < entries.len() && 0 <= j < entries.len() && i != j ==> (
            #[trigger] entries[i]).address != (#[trigger] entries[j]).address,
    ensures
        entries.filter(keep).len() <= entries.len(),
        forall|i: int, j: int|
            0 <= i < entries.filter(keep).len() && 0 <= j < entries.filter(keep).len() && i != j
                ==> (#[trigger] entries.filter(keep)[i]).address != (#[trigger] entries.filter(
                keep,
            )[j]).address,
    decreases entries.len(),
{
    reveal(Seq::filter);
    entries.lemma_filter_len(keep);
    if entries.len() > 0 {
        let rest = entries.drop_last();
        let last = entries.last();
        let head = rest.filter(keep);
        let out = entries.filter(keep);
        assert forall|i: int, j: int| 0 <= i < rest.len() && 0 <= j < rest.len() && i != j implies (
        #[trigger] rest[i]).address != (#[trigger] rest[j]).address by {
            assert(entries[i] == rest[i] && entries[j] == rest[j]);
        }
        lemma_filter_keeps_distinct(rest, keep);
        assert forall|i: int| 0 <= i < head.len() implies (#[trigger] head[i]).address
            != last.address by {
            assert(head.contains(head[i]));
            rest.lemma_filter_contains_rev(keep, head[i]);
            let k = choose|k: int| 0 <= k < rest.len() && rest[k] == head[i];
            assert(entries[k] == head[i]);
            assert(entries[entries.len() - 1] == last);
        }
        assert forall|i: int, j: int| 0 <= i < out.len() && 0 <= j < out.len() && i != j implies (
        #[trigger] out[i]).address != (#[trigger] out[j]).address by {
            if i < head.len() {
                assert(out[i] == head[i]);
            }
            if j < head.len() {
                assert(out[j] == head[j]);
            }
        }
    }
}

fn is_corroborator<C>(entry: &PeerEntry<C>, asked: SocketAddr) -> (qualifies: bool)
    ensures
        qualifies == corroborates::<C>(asked)(*entry),
{
    entry.address != asked && entry.origin == PeerOrigin::Discovered
}

impl<C> PeerPool<C> {
    /// The chain's peak as the peers held support it, or zero if none has announced one.
    ///
    /// Taken anew from the peers held now, so that a claim does not outlive the peer that made it.
    pub fn peak_height(&self) -> (peak: u32)
        ensures
            peak == (match crate::peer::peaks::lower_median(announced(self@.entries)) {
                Some(p) => p,
                None => 0,
            }),
    {
        let mut peaks: Vec<u32> = Vec::new();
        let mut i: usize = 0;
        proof {
            reveal(Seq::filter);
            assert(announced(self.entries@.take(0)) =~= Seq::<u32>::empty());
        }
        while i < self.entries.len()
            invariant
                i <= self.entries.len(),
                peaks@ == announced(self.entries@.take(i as int)),
            decreases self.entries.len() - i,
        {
            proof {
                lemma_announced_push(self.entries@.take(i as int), self.entries@[i as int]);
                assert(self.entries@.take(i + 1) =~= self.entries@.take(i as int).push(
                    self.entries@[i as int],
                ));
            }
            if self.entries[i].last_peak > 0 {
                peaks.push(self.entries[i].last_peak);
            }
            i = i + 1;
        }
        assert(self.entries@.take(i as int) =~= self.entries@);
        match reference_peak(&peaks) {
            Some(peak) => peak,
            None => 0,
        }
    }

    /// Picks a peer, each in its turn. None when the pool is empty.
    pub fn select_peer(&mut self) -> (picked: Option<SocketAddr>)
        requires
            old(self)@.wf(),
        ensures
            final(self)@.wf(),
            picked == (if old(self)@.entries.len() == 0 {
                None
            } else {
                Some(old(self)@.in_turn())
            }),
            final(self)@ == old(self)@.turned(),
    {
        if self.entries.len() == 0 {
            return None;
        }
        let at: usize = self.next_idx % self.entries.len();
        self.next_idx = if self.next_idx == usize::MAX {
            0
        } else {
            self.next_idx + 1
        };
        Some(self.entries[at].address)
    }

    /// The connection to the peer held at `address`.
    pub fn connection(&self, address: SocketAddr) -> (connection: Option<&C>)
        ensures
            connection is Some <==> holds(self@.entries, address),
            connection matches Some(c) ==> exists|i: int|
                0 <= i < self@.entries.len() && (#[trigger] self@.entries[i]).address == address
                    && self@.entries[i].connection == *c,
    {
        match self.position(address) {
            Some(i) => {
                assert(self@.entries[i as int].address == address);
                Some(&self.entries[i].connection)
            },
            None => None,
        }
    }

    /// How the peer held at `address` was reached, if one is.
    pub fn origin_of(&self, address: SocketAddr) -> (origin: Option<PeerOrigin>)
        ensures
            origin is Some <==> holds(self@.entries, address),
            origin matches Some(o) ==> exists|i: int|
                0 <= i < self@.entries.len() && (#[trigger] self@.entries[i]).address == address
                    && self@.entries[i].origin == o,
    {
        match self.position(address) {
            Some(i) => {
                assert(self@.entries[i as int].address == address);
                Some(self.entries[i].origin)
            },
            None => None,
        }
    }

    /// The highest peak the peer held at `address` announced, if it announced one.
    ///
    /// A peer that announced nothing is not at height zero: nobody claimed that height.
    pub fn announced_peak(&self, address: SocketAddr) -> (peak: Option<u32>)
        requires
            self@.wf(),
        ensures
            peak == announced_at(self@.entries, address),
    {
        match self.position(address) {
            Some(i) => {
                let last_peak: u32 = self.entries[i].last_peak;
                assert(self@.entries[i as int].address == address);
                if last_peak == 0 {
                    None
                } else {
                    assert(speaks_at(self@.entries, address, i as int));
                    Some(last_peak)
                }
            },
            None => None,
        }
    }

    /// Every peer that could corroborate an answer of the peer at `asked`, all at once: asking
    /// them one at a time would let the first to respond settle the matter.
    pub fn select_corroborating_peers(&self, asked: SocketAddr) -> (peers: Vec<SocketAddr>)
        ensures
            peers@ == addresses_of(self@.entries.filter(corroborates(asked))),
    {
        let mut peers: Vec<SocketAddr> = Vec::new();
        let mut i: usize = 0;
        proof {
            reveal(Seq::filter);
            assert(addresses_of(self.entries@.take(0).filter(corroborates(asked)))
                =~= Seq::<SocketAddr>::empty());
        }
        while i < self.entries.len()
            invariant
                i <= self.entries.len(),
                peers@ == addresses_of(
                    self.entries@.take(i as int).filter(corroborates(asked)),
                ),
            decreases self.entries.len() - i,
        {
            let ghost before = self.entries@.take(i as int);
            proof {
                assert(self.entries@.take(i + 1) =~= before.push(self.entries@[i as int]));
                before.lemma_filter_push(self.entries@[i as int], corroborates(asked));
            }
            if is_corroborator(&self.entries[i], asked) {
                peers.push(self.entries[i].address);
                assert(peers@ =~= addresses_of(
                    self.entries@.take(i + 1).filter(corroborates(asked)),
                ));
            }
            i = i + 1;
        }
        assert(self.entries@.take(i as int) =~= self.entries@);
        peers
    }

    /// How many of the peers held are independent opinions.
    pub fn independent_peer_count(&self) -> (count: usize)
        ensures
            count == self@.entries.filter(is_discovered()).len(),
    {
        let mut count: usize = 0;
        let mut i: usize = 0;
        proof {
            reveal(Seq::filter);
        }
        while i < self.entries.len()
            invariant
                i <= self.entries.len(),
                count <= i,
                count == self.entries@.take(i as int).filter(is_discovered()).len(),
            decreases self.entries.len() - i,
        {
            proof {
                let before = self.entries@.take(i as int);
                assert(self.entries@.take(i + 1) =~= before.push(self.entries@[i as int]));
                before.lemma_filter_push(self.entries@[i as int], is_discovered());
            }
            if self.entries[i].origin == PeerOrigin::Discovered {
                count = count + 1;
            }
            i = i + 1;
        }
        assert(self.entries@.take(i as int) =~= self.entries@);
        count
    }

    /// Whether an answer of the peer at `asked` can be corroborated at all.
    ///
    /// The count is of the peers that would be asked, and so of the same peers that
    /// [`select_corroborating_peers`](Self::select_corroborating_peers) gives.
    pub fn corroboration_readiness(&self, asked: SocketAddr) -> (readiness: CorroborationReadiness)
        ensures
            readiness == readiness_for(self@.entries, asked),
            self@.entries.filter(corroborates(asked)).len() <= usize::MAX,
    {
        let peers = self.select_corroborating_peers(asked);
        let corroborators: usize = peers.len();
        assert(peers@.len() == self@.entries.filter(corroborates(asked)).len());
        if corroborators >= CORROBORATION_FLOOR {
            CorroborationReadiness::Armed { corroborators }
        } else {
            CorroborationReadiness::Insufficient { corroborators, required: CORROBORATION_FLOOR }
        }
    }

    /// Drops the peer at `address`.
    pub fn eject_peer(&mut self, address: SocketAddr)
        requires
            old(self)@.wf(),
        ensures
            final(self)@.wf(),
            final(self)@ == old(self)@.without(address),
    {
        let mut keep: Vec<bool> = Vec::new();
        let mut i: usize = 0;
        while i < self.entries.len()
            invariant
                i <= self.entries.len(),
                self == old(self),
                keep@.len() == i,
                forall|j: int|
                    0 <= j < i ==> keep@[j] == elsewhere::<C>(address)(#[trigger] self.entries@[j]),
            decreases self.entries.len() - i,
        {
            keep.push(self.entries[i].address != address);
            i = i + 1;
        }
        proof {
            lemma_filter_keeps_distinct(self.entries@, elsewhere(address));
        }
        retain(&mut self.entries, &keep, Ghost(elsewhere(address)));
    }

    /// Drops the peers whose sessions ended. A replacement at the same address has a session of
    /// its own and stays.
    pub fn eject_dead_sessions(&mut self)
        requires
            old(self)@.wf(),
        ensures
            final(self)@.wf(),
            final(self)@ == old(self)@.without_dead(),
    {
        let mut dead: Vec<FrameSource> = Vec::new();
        std::mem::swap(&mut dead, &mut self.dead_sessions);
        let mut keep: Vec<bool> = Vec::new();
        let mut i: usize = 0;
        while i < self.entries.len()
            invariant
                i <= self.entries.len(),
                self.entries == old(self).entries,
                self.fanout == old(self).fanout,
                self.next_idx == old(self).next_idx,
                self.max_peers == old(self).max_peers,
                self.dead_sessions@ == Seq::<FrameSource>::empty(),
                keep@.len() == i,
                forall|j: int|
                    0 <= j < i ==> keep@[j] == lives::<C>(dead@)(#[trigger] self.entries@[j]),
            decreases self.entries.len() - i,
        {
            let source = FrameSource {
                address: self.entries[i].address,
                session: self.entries[i].session,
            };
            keep.push(!contains_source(&dead, source));
            i = i + 1;
        }
        proof {
            lemma_filter_keeps_distinct(self.entries@, lives(dead@));
        }
        retain(&mut self.entries, &keep, Ghost(lives(dead@)));
    }

    /// The peak the discovered peers support.
    fn reference(&self) -> (reference: Option<u32>)
        ensures
            reference == self@.reference(),
    {
        let mut peaks: Vec<u32> = Vec::new();
        let mut i: usize = 0;
        proof {
            reveal(Seq::filter);
            assert(votes(self.entries@.take(0)) =~= Seq::<u32>::empty());
        }
        while i < self.entries.len()
            invariant
                i <= self.entries.len(),
                peaks@ == votes(self.entries@.take(i as int)),
            decreases self.entries.len() - i,
        {
            proof {
                lemma_votes_push(self.entries@.take(i as int), self.entries@[i as int]);
                assert(self.entries@.take(i + 1) =~= self.entries@.take(i as int).push(
                    self.entries@[i as int],
                ));
            }
            if self.entries[i].origin == PeerOrigin::Discovered && self.entries[i].last_peak > 0 {
                peaks.push(self.entries[i].last_peak);
            }
            i = i + 1;
        }
        assert(self.entries@.take(i as int) =~= self.entries@);
        reference_peak(&peaks)
    }

    /// Drops the discovered peers that have fallen too far behind what the discovered peers
    /// support. Returns their addresses.
    ///
    /// A peer that has announced nothing is not behind: it has had no chance to speak. Where no
    /// discovered peer has spoken there is no bar, and nobody is dropped.
    pub fn evict_lagging_peers(&mut self) -> (evicted: Vec<SocketAddr>)
        requires
            old(self)@.wf(),
        ensures
            final(self)@.wf(),
            final(self)@ == old(self)@.without_lagging(),
            evicted@ == addresses_of(old(self)@.entries.filter(lags(old(self)@.reference()))),
    {
        let reference = self.reference();
        let mut keep: Vec<bool> = Vec::new();
        let mut evicted: Vec<SocketAddr> = Vec::new();
        let mut i: usize = 0;
        proof {
            reveal(Seq::filter);
            assert(addresses_of(self.entries@.take(0).filter(lags(reference)))
                =~= Seq::<SocketAddr>::empty());
        }
        while i < self.entries.len()
            invariant
                i <= self.entries.len(),
                self == old(self),
                keep@.len() == i,
                forall|j: int|
                    0 <= j < i ==> keep@[j] == keeps_up::<C>(reference)(
                        #[trigger] self.entries@[j],
                    ),
                evicted@ == addresses_of(self.entries@.take(i as int).filter(lags(reference))),
            decreases self.entries.len() - i,
        {
            let ghost before = self.entries@.take(i as int);
            proof {
                assert(self.entries@.take(i + 1) =~= before.push(self.entries@[i as int]));
                before.lemma_filter_push(self.entries@[i as int], lags(reference));
            }
            let peak: u32 = self.entries[i].last_peak;
            let lagging = match reference {
                Some(bar) => self.entries[i].origin == PeerOrigin::Discovered && peak > 0 && bar
                    > peak && bar - peak > PEAK_LAG_EVICTION,
                None => false,
            };
            if lagging {
                evicted.push(self.entries[i].address);
                assert(evicted@ =~= addresses_of(
                    self.entries@.take(i + 1).filter(lags(reference)),
                ));
            }
            keep.push(!lagging);
            i = i + 1;
        }
        proof {
            assert(self.entries@.take(i as int) =~= self.entries@);
            lemma_filter_keeps_distinct(self.entries@, keeps_up(reference));
        }
        retain(&mut self.entries, &keep, Ghost(keeps_up(reference)));
        evicted
    }

    /// Drops the oldest discovered peer that has been held for its whole lifetime, if any, and
    /// says which. One at a time, so that cycling never empties the pool.
    pub fn cycle_expired_peers(&mut self, now: u128) -> (rotated: Option<SocketAddr>)
        requires
            old(self)@.wf(),
        ensures
            final(self)@.wf(),
            final(self)@ == old(self)@.without_expired(now),
            rotated == (match oldest_expired(old(self)@.entries, now) {
                Some(i) => Some(old(self)@.entries[i].address),
                None => None,
            }),
    {
        let mut oldest: Option<usize> = None;
        let mut i: usize = 0;
        while i < self.entries.len()
            invariant
                i <= self.entries.len(),
                self == old(self),
                match oldest {
                    None => forall|j: int| 0 <= j < i ==> !expired(#[trigger] self.entries@[j], now),
                    Some(k) => k < i && is_oldest_expired(
                        self.entries@.take(i as int),
                        now,
                        k as int,
                    ),
                },
            decreases self.entries.len() - i,
        {
            let ghost head = self.entries@.take(i as int);
            let ghost more = self.entries@.take(i + 1);
            assert(more =~= head.push(self.entries@[i as int]));
            let due = self.entries[i].origin == PeerOrigin::Discovered && now
                >= self.entries[i].admitted_at && now - self.entries[i].admitted_at
                >= PEER_LIFETIME;
            if due {
                match oldest {
                    None => {
                        oldest = Some(i);
                        assert forall|j: int|
                            0 <= j < more.len() && expired(#[trigger] more[j], now) implies j
                            == i by {
                            if j < i {
                                assert(more[j] == self.entries@[j]);
                            }
                        }
                    },
                    Some(k) => {
                        if self.entries[i].admitted_at < self.entries[k].admitted_at {
                            oldest = Some(i);
                            assert forall|j: int|
                                0 <= j < more.len() && expired(#[trigger] more[j], now) implies
                                more[i as int].admitted_at <= more[j].admitted_at && (j < i
                                ==> more[i as int].admitted_at < more[j].admitted_at) by {
                                if j < i {
                                    assert(head[j] == more[j]);
                                }
                            }
                        } else {
                            assert forall|j: int|
                                0 <= j < more.len() && expired(#[trigger] more[j], now) implies
                                more[k as int].admitted_at <= more[j].admitted_at && (j < k
                                ==> more[k as int].admitted_at < more[j].admitted_at) by {
                                if j < i {
                                    assert(head[j] == more[j]);
                                }
                            }
                        }
                    },
                }
            } else if let Some(k) = oldest {
                assert forall|j: int|
                    0 <= j < more.len() && expired(#[trigger] more[j], now) implies
                    more[k as int].admitted_at <= more[j].admitted_at && (j < k
                    ==> more[k as int].admitted_at < more[j].admitted_at) by {
                    if j < i {
                        assert(head[j] == more[j]);
                    }
                }
            }
            i = i + 1;
        }
        assert(self.entries@.take(i as int) =~= self.entries@);
        match oldest {
            Some(k) => {
                proof {
                    lemma_oldest_is_unique(self.entries@, now, k as int);
                }
                let address = self.entries[k].address;
                let _ = self.entries.remove(k);
                assert forall|a: int, b: int|
                    0 <= a < self.entries@.len() && 0 <= b < self.entries@.len() && a != b implies (
                #[trigger] self.entries@[a]).address != (#[trigger] self.entries@[b]).address by {
                    let x = if a < k { a } else { a + 1 };
                    let y = if b < k { b } else { b + 1 };
                    assert(self.entries@[a] == old(self)@.entries[x]);
                    assert(self.entries@[b] == old(self)@.entries[y]);
                }
                Some(address)
            },
            None => {
                assert forall|j: int| !is_oldest_expired(self.entries@, now, j) by {
                }
                None
            },
        }
    }

    /// What a refill must not dial: the addresses held, or nothing if the pool is full.
    pub fn refill_request(&self) -> (held: Option<Vec<SocketAddr>>)
        ensures
            held is Some <==> self@.entries.len() < self@.max_peers,
            held matches Some(addresses) ==> addresses@ == addresses_of(self@.entries),
    {
        if self.entries.len() >= self.max_peers {
            None
        } else {
            Some(self.held_addresses())
        }
    }

    /// One pass of maintenance: drops the dead, the lagging and the oldest expired peer, and then
    /// says what a refill must not dial. The refill comes last, or it would find the pool full.
    pub fn maintain(&mut self, now: u128) -> (refill: Option<Vec<SocketAddr>>)
        requires
            old(self)@.wf(),
        ensures
            final(self)@.wf(),
            final(self)@ == old(self)@.maintained(now),
            refill is Some <==> final(self)@.entries.len() < final(self)@.max_peers,
            refill matches Some(addresses) ==> addresses@ == addresses_of(final(self)@.entries),
    {
        self.eject_dead_sessions();
        let _ = self.evict_lagging_peers();
        let _ = self.cycle_expired_peers(now);
        self.refill_request()
    }
}

fn contains_source(sources: &Vec<FrameSource>, source: FrameSource) -> (found: bool)
    ensures
        found == sources@.contains(source),
{
    let mut i: usize = 0;
    while i < sources.len()
        invariant
            i <= sources.len(),
            forall|j: int| 0 <= j < i ==> sources@[j] != source,
        decreases sources.len() - i,
    {
        if sources[i] == source {
            return true;
        }
        i = i + 1;
    }
    false
}

proof fn lemma_announced_push<C>(entries: Seq<PeerEntry<C>>, e: PeerEntry<C>)
    ensures
        announced(entries.push(e)) == (if e.last_peak > 0 {
            announced(entries).push(e.last_peak)
        } else {
            announced(entries)
        }),
{
    entries.lemma_filter_push(e, has_spoken());
    if e.last_peak > 0 {
        assert(announced(entries.push(e)) =~= announced(entries).push(e.last_peak));
    }
}

proof fn lemma_votes_push<C>(entries: Seq<PeerEntry<C>>, e: PeerEntry<C>)
    ensures
        votes(entries.push(e)) == (if e.origin == PeerOrigin::Discovered && e.last_peak > 0 {
            votes(entries).push(e.last_peak)
        } else {
            votes(entries)
        }),
{
    entries.lemma_filter_push(e, may_vote());
    if e.origin == PeerOrigin::Discovered && e.last_peak > 0 {
        assert(votes(entries.push(e)) =~= votes(entries).push(e.last_peak));
    }
}

proof fn lemma_oldest_is_unique<C>(entries: Seq<PeerEntry<C>>, now: u128, i: int)
    requires
        is_oldest_expired(entries, now, i),
    ensures
        oldest_expired(entries, now) == Some(i),
{
    let k = choose|k: int| is_oldest_expired(entries, now, k);
    assert(expired(entries[k], now) && expired(entries[i], now));
}

/// The frame that tells of an update, every field carried over.
pub fn coin_states_frame(update: CoinStateUpdate) -> (frame: PoolFrame)
    ensures
        frame@ == (FrameView::CoinStates {
            height: update.height,
            fork_height: update.fork_height,
            peak_hash: update.peak_hash,
            items: update.items@,
        }),
{
    let CoinStateUpdate { height, fork_height, peak_hash, items } = update;
    PoolFrame::CoinStates { height, fork_height, peak_hash, items }
}

impl<C> PeerPool<C> {
    /// Takes a peak that `source` announced: recorded if it is the peer's highest, and published
    /// to those who follow the session.
    pub fn peak_announced(&mut self, source: FrameSource, peak: NewPeak)
        requires
            old(self)@.wf(),
        ensures
            final(self)@.wf(),
            final(self)@ == old(self)@.peak_heard(source, peak),
    {
        let ghost before = self.entries@;
        let mut i: usize = 0;
        while i < self.entries.len()
            invariant
                i <= self.entries.len(),
                self.entries@.len() == before.len(),
                self.fanout == old(self).fanout,
                self.next_idx == old(self).next_idx,
                self.max_peers == old(self).max_peers,
                self.dead_sessions == old(self).dead_sessions,
                forall|j: int|
                    0 <= j < i ==> #[trigger] self.entries@[j] == heard::<C>(source, peak.height)(
                        before[j],
                    ),
                forall|j: int|
                    i <= j < before.len() ==> #[trigger] self.entries@[j] == before[j],
            decreases self.entries.len() - i,
        {
            let entry = &mut self.entries[i];
            if entry.address == source.address && entry.session == source.session
                && entry.last_peak < peak.height {
                entry.last_peak = peak.height;
            }
            i = i + 1;
        }
        assert(self.entries@ =~= before.map_values(heard(source, peak.height)));
        assert forall|a: int, b: int|
            0 <= a < self.entries@.len() && 0 <= b < self.entries@.len() && a != b implies (
        #[trigger] self.entries@[a]).address != (#[trigger] self.entries@[b]).address by {
            assert(before[a].address != before[b].address);
        }
        self.fanout.publish(
            source,
            &PoolFrame::Peak { height: peak.height, header_hash: peak.header_hash },
        );
    }

    /// Takes an update that `source` sent: published to those who follow the session, unless it
    /// carries more states than any honest peer needs. Then the session must end.
    pub fn coin_states_received(&mut self, source: FrameSource, update: CoinStateUpdate) -> (ends:
        Option<SessionEndReason>)
        requires
            old(self)@.wf(),
        ensures
            final(self)@.wf(),
            ends == (if update.items@.len() > MAX_FRAME_COIN_STATES {
                Some(SessionEndReason::OversizedFrame)
            } else {
                None
            }),
            final(self)@ == (if update.items@.len() > MAX_FRAME_COIN_STATES {
                old(self)@
            } else {
                PoolView {
                    fanout: old(self)@.fanout.published(
                        source,
                        FrameView::CoinStates {
                            height: update.height,
                            fork_height: update.fork_height,
                            peak_hash: update.peak_hash,
                            items: update.items@,
                        },
                    ),
                    ..old(self)@
                }
            }),
    {
        if update.items.len() > MAX_FRAME_COIN_STATES {
            return Some(SessionEndReason::OversizedFrame);
        }
        let frame = coin_states_frame(update);
        self.fanout.publish(source, &frame);
        None
    }

    /// Takes a message that `source` delivered, and says why the session must end, if it must.
    ///
    /// A message of a known type that does not decode ends the session: what it contained is what
    /// cannot be known, and skipping it would leave a gap.
    pub fn receive(&mut self, source: FrameSource, message: InboundMessage) -> (ends: Option<
        SessionEndReason,
    >)
        requires
            old(self)@.wf(),
        ensures
            final(self)@.wf(),
            match message {
                InboundMessage::NewPeakWallet(data) => if data@.len() == 56 {
                    &&& ends is None
                    &&& exists|peak: NewPeak| #[trigger]
                        old(self)@.peak_heard(source, peak) == final(self)@
                            && peak.header_hash@ == data@.subrange(0, 32)
                            && crate::wire::be_u32(peak.height) == data@.subrange(32, 36)
                } else {
                    &&& ends == Some(SessionEndReason::UndecodableFrame)
                    &&& final(self)@ == old(self)@
                },
                InboundMessage::CoinStateUpdate(data) => {
                    ||| {
                        &&& ends == Some(SessionEndReason::UndecodableFrame)
                        &&& final(self)@ == old(self)@
                        &&& forall|height: u32, fork: u32, hash: crate::protocol::Bytes32, items:
                            Seq<crate::protocol::CoinState>|
                            items.len() <= u32::MAX ==> data@ != #[trigger] crate::wire::wire_update(
                                height,
                                fork,
                                hash,
                                items,
                            )
                    }
                    ||| exists|height: u32, fork: u32, hash: crate::protocol::Bytes32, items: Seq<
                        crate::protocol::CoinState,
                    >|
                        {
                            &&& items.len() <= u32::MAX
                            &&& data@ == #[trigger] crate::wire::wire_update(
                                height,
                                fork,
                                hash,
                                items,
                            )
                            &&& ends == (if items.len() > MAX_FRAME_COIN_STATES {
                                Some(SessionEndReason::OversizedFrame)
                            } else {
                                None
                            })
                            &&& final(self)@ == (if items.len() > MAX_FRAME_COIN_STATES {
                                old(self)@
                            } else {
                                PoolView {
                                    fanout: old(self)@.fanout.published(
                                        source,
                                        FrameView::CoinStates {
                                            height,
                                            fork_height: fork,
                                            peak_hash: hash,
                                            items,
                                        },
                                    ),
                                    ..old(self)@
                                }
                            })
                        }
                },
                InboundMessage::Other => ends is None && final(self)@ == old(self)@,
            },
    {
        match message {
            InboundMessage::NewPeakWallet(data) => match decode_new_peak(&data) {
                Some(peak) => {
                    self.peak_announced(source, peak);
                    None
                },
                None => Some(SessionEndReason::UndecodableFrame),
            },
            InboundMessage::CoinStateUpdate(data) => match decode_coin_state_update(&data) {
                Some(update) => {
                    assert(data@ == crate::wire::wire_update(
                        update.height,
                        update.fork_height,
                        update.peak_hash,
                        update.items@,
                    ));
                    self.coin_states_received(source, update)
                },
                None => Some(SessionEndReason::UndecodableFrame),
            },
            InboundMessage::Other => None,
        }
    }

    /// Ends a session: its peer is dropped at the next maintenance, and those who follow it are
    /// told.
    pub fn end_session(&mut self, source: FrameSource, reason: SessionEndReason)
        requires
            old(self)@.wf(),
        ensures
            final(self)@.wf(),
            final(self)@ == (PoolView {
                dead: old(self)@.dead.push(source),
                fanout: old(self)@.fanout.published(source, FrameView::SessionEnded { reason }),
                ..old(self)@
            }),
    {
        self.dead_sessions.push(source);
        self.fanout.publish(source, &PoolFrame::SessionEnded { reason });
    }

    /// Follows the session held at `address`, with room for `capacity` unread frames. None where
    /// no running session is held there.
    pub fn subscribe_frames(&mut self, address: SocketAddr, capacity: usize) -> (subscription:
        Option<FrameSubscription>)
        requires
            old(self)@.wf(),
        ensures
            final(self)@.wf(),
            is_subscribing(old(self)@, address, capacity, final(self)@, subscription),
    {
        match self.position(address) {
            Some(i) => {
                let source = FrameSource { address, session: self.entries[i].session };
                assert(source_of(self@.entries[i as int]) == source);
                self.fanout.subscribe(source, capacity)
            },
            None => None,
        }
    }

    /// The next frame queued for `subscription`.
    pub fn try_recv(&mut self, subscription: &mut FrameSubscription) -> (frame: Result<
        SourcedFrame,
        TryRecvError,
    >)
        requires
            old(self)@.wf(),
        ensures
            final(self)@.wf(),
            *final(subscription) == *old(subscription),
            final(self)@.entries == old(self)@.entries,
            final(self)@.next_idx == old(self)@.next_idx,
            final(self)@.max_peers == old(self)@.max_peers,
            final(self)@.dead == old(self)@.dead,
            match frame {
                Ok(sourced) => {
                    let at = old(self)@.fanout.follower_at(old(subscription).follower());
                    let follower = old(self)@.fanout.followers[at];
                    &&& old(self)@.fanout.has_follower(old(subscription).follower())
                    &&& follower.queue.len() > 0
                    &&& sourced@ == follower.queue[0]
                    &&& final(self)@.fanout == (FanoutView {
                        followers: old(self)@.fanout.followers.update(
                            at,
                            crate::peer::frames::FollowerView {
                                queue: follower.queue.drop_first(),
                                ..follower
                            },
                        ),
                        ..old(self)@.fanout
                    })
                },
                Err(TryRecvError::Empty) => {
                    let follower = old(self)@.fanout.followers[old(self)@.fanout.follower_at(
                        old(subscription).follower(),
                    )];
                    &&& old(self)@.fanout.has_follower(old(subscription).follower())
                    &&& follower.queue.len() == 0
                    &&& follower.open
                    &&& final(self)@.fanout == old(self)@.fanout
                },
                Err(TryRecvError::Disconnected) => {
                    let follower = old(self)@.fanout.followers[old(self)@.fanout.follower_at(
                        old(subscription).follower(),
                    )];
                    &&& old(self)@.fanout.has_follower(old(subscription).follower())
                        ==> follower.queue.len() == 0 && !follower.open
                    &&& final(self)@.fanout == old(self)@.fanout
                },
            },
    {
        subscription.try_recv(&mut self.fanout)
    }

    /// Forgets the follower of `subscription`.
    pub fn unsubscribe(&mut self, subscription: FrameSubscription)
        requires
            old(self)@.wf(),
        ensures
            final(self)@.wf(),
            final(self)@ == (PoolView {
                fanout: if old(self)@.fanout.has_follower(subscription.follower()) {
                    FanoutView {
                        followers: old(self)@.fanout.followers.remove(
                            old(self)@.fanout.follower_at(subscription.follower()),
                        ),
                        ..old(self)@.fanout
                    }
                } else {
                    old(self)@.fanout
                },
                ..old(self)@
            }),
    {
        self.fanout.unsubscribe(subscription);
    }
}

/// Maintenance never drops a priority peer for lag or for age.
pub proof fn law_priority_peers_are_dropped_only_when_dead<C>(
    view: PoolView<C>,
    now: u128,
    e: PeerEntry<C>,
)
    requires
        view.entries.contains(e),
        e.origin == PeerOrigin::Priority,
        !view.dead.contains(source_of(e)),
    ensures
        view.maintained(now).entries.contains(e),
{
    let alive = view.without_dead();
    let i = choose|i: int| 0 <= i < view.entries.len() && view.entries[i] == e;
    view.entries.lemma_filter_contains(lives(view.dead), i);
    let current = alive.without_lagging();
    let j = choose|j: int| 0 <= j < alive.entries.len() && alive.entries[j] == e;
    alive.entries.lemma_filter_contains(keeps_up(alive.reference()), j);
    let k = choose|k: int| 0 <= k < current.entries.len() && current.entries[k] == e;
    if let Some(x) = oldest_expired(current.entries, now) {
        assert(is_oldest_expired(current.entries, now, x));
        assert(x != k);
        let out = current.entries.remove(x);
        if k < x {
            assert(out[k] == e);
        } else {
            assert(out[k - 1] == e);
        }
    }
}

/// A peer that has announced nothing is never dropped for lag.
pub proof fn law_silence_is_not_lag<C>(view: PoolView<C>, e: PeerEntry<C>)
    requires
        view.entries.contains(e),
        e.last_peak == 0,
    ensures
        view.without_lagging().entries.contains(e),
{
    let i = choose|i: int| 0 <= i < view.entries.len() && view.entries[i] == e;
    view.entries.lemma_filter_contains(keeps_up(view.reference()), i);
}

/// A peer is dropped for lag only if more than half of the discovered peers that have spoken are
/// ahead of it by more than the bar: no single claim, however absurd, drops an honest peer, and no
/// priority peer has a say.
pub proof fn law_lag_eviction_needs_a_majority_of_discovered_peers<C>(
    view: PoolView<C>,
    e: PeerEntry<C>,
)
    requires
        lags(view.reference())(e),
    ensures
        e.origin == PeerOrigin::Discovered,
        2 * crate::peer::peaks::count_above(votes(view.entries), e.last_peak + PEAK_LAG_EVICTION)
            > votes(view.entries).len(),
{
    crate::peer::peaks::law_reference_needs_a_majority(
        votes(view.entries),
        e.last_peak + PEAK_LAG_EVICTION,
    );
}

/// A pool in which no discovered peer has spoken drops nobody for lag.
pub proof fn law_no_discovered_voice_no_eviction<C>(view: PoolView<C>)
    requires
        forall|i: int|
            0 <= i < view.entries.len() ==> (#[trigger] view.entries[i]).origin
                != PeerOrigin::Discovered || view.entries[i].last_peak == 0,
    ensures
        view.without_lagging() == view,
{
    let voters = view.entries.filter(may_vote());
    if voters.len() > 0 {
        view.entries.lemma_filter_pred(may_vote(), 0);
        assert(voters.contains(voters[0]));
        view.entries.lemma_filter_contains_rev(may_vote(), voters[0]);
        let i = choose|i: int| 0 <= i < view.entries.len() && view.entries[i] == voters[0];
        assert(view.entries[i].origin != PeerOrigin::Discovered || view.entries[i].last_peak == 0);
    }
    assert(view.reference() is None);
    lemma_filter_all(view.entries, keeps_up(view.reference()));
    assert(view.without_lagging() =~= view);
}

proof fn lemma_filter_all<C>(s: Seq<PeerEntry<C>>, keep: spec_fn(PeerEntry<C>) -> bool)
    requires
        forall|i: int| 0 <= i < s.len() ==> keep(#[trigger] s[i]),
    ensures
        s.filter(keep) == s,
    decreases s.len(),
{
    reveal(Seq::filter);
    if s.len() > 0 {
        assert forall|i: int| 0 <= i < s.drop_last().len() implies keep(
            #[trigger] s.drop_last()[i],
        ) by {
            assert(s.drop_last()[i] == s[i]);
        }
        lemma_filter_all(s.drop_last(), keep);
        assert(keep(s[s.len() - 1]));
        assert(s.filter(keep) =~= s);
    }
}

/// The peak reported is above a height only if more than half of the peers that have spoken are:
/// one claim cannot raise it, and it falls once the peers that made it are gone.
pub proof fn law_peak_height_needs_a_majority<C>(entries: Seq<PeerEntry<C>>, h: int)
    requires
        crate::peer::peaks::lower_median(announced(entries)) is Some,
        crate::peer::peaks::lower_median(announced(entries))->0 > h,
    ensures
        2 * crate::peer::peaks::count_above(announced(entries), h) > announced(entries).len(),
{
    crate::peer::peaks::law_reference_needs_a_majority(announced(entries), h);
}

/// A dead session takes with it the peer that ran it, and never a replacement at its address.
pub proof fn law_replacement_survives_its_predecessor<C>(view: PoolView<C>, e: PeerEntry<C>)
    requires
        view.entries.contains(e),
        forall|i: int|
            0 <= i < view.dead.len() && (#[trigger] view.dead[i]).address == e.address
                ==> view.dead[i].session != e.session,
    ensures
        view.without_dead().entries.contains(e),
{
    let i = choose|i: int| 0 <= i < view.entries.len() && view.entries[i] == e;
    if view.dead.contains(source_of(e)) {
        let k = choose|k: int| 0 <= k < view.dead.len() && view.dead[k] == source_of(e);
        assert(view.dead[k].address == e.address);
    }
    view.entries.lemma_filter_contains(lives(view.dead), i);
}

/// An ejected address can be admitted again.
pub proof fn law_ejected_address_can_return<C>(view: PoolView<C>, address: SocketAddr)
    requires
        view.wf(),
        holds(view.entries, address),
    ensures
        view.without(address).admits(address),
{
    let left = view.entries.filter(elsewhere(address));
    lemma_filter_keeps_distinct(view.entries, elsewhere(address));
    if holds(left, address) {
        let i = choose|i: int| 0 <= i < left.len() && (#[trigger] left[i]).address == address;
        view.entries.lemma_filter_pred(elsewhere(address), i);
    }
    if left.len() == view.entries.len() {
        let i = choose|i: int|
            0 <= i < view.entries.len() && (#[trigger] view.entries[i]).address == address;
        lemma_filter_shorter(view.entries, elsewhere(address), i);
    }
}

/// A read that is tried again after a peer failed it is tried on another peer.
pub proof fn law_next_attempt_asks_another_peer<C>(view: PoolView<C>, failed: SocketAddr)
    requires
        view.without(failed).entries.len() > 0,
    ensures
        view.without(failed).in_turn() != failed,
{
    let left = view.without(failed);
    let turn = left.next_idx as int % left.entries.len() as int;
    view.entries.lemma_filter_pred(elsewhere(failed), turn);
}

proof fn lemma_filter_shorter<C>(
    s: Seq<PeerEntry<C>>,
    keep: spec_fn(PeerEntry<C>) -> bool,
    i: int,
)
    requires
        0 <= i < s.len(),
        !keep(s[i]),
    ensures
        s.filter(keep).len() < s.len(),
    decreases s.len(),
{
    reveal(Seq::filter);
    let rest = s.drop_last();
    rest.lemma_filter_len(keep);
    if i < rest.len() {
        lemma_filter_shorter(rest, keep, i);
    }
}

/// What is announced is gathered peer by peer: a peer that has spoken adds its peak, whoever it
/// is, and one that is silent adds nothing. The votes are gathered so too, but a priority peer
/// has none.
pub proof fn law_peaks_are_gathered_peer_by_peer<C>(entries: Seq<PeerEntry<C>>, e: PeerEntry<C>)
    ensures
        announced(Seq::<PeerEntry<C>>::empty()) == Seq::<u32>::empty(),
        votes(Seq::<PeerEntry<C>>::empty()) == Seq::<u32>::empty(),
        announced(entries.push(e)) == (if e.last_peak == 0 {
            announced(entries)
        } else {
            announced(entries).push(e.last_peak)
        }),
        votes(entries.push(e)) == (match e.origin {
            PeerOrigin::Priority => votes(entries),
            PeerOrigin::Discovered => if e.last_peak == 0 {
                votes(entries)
            } else {
                votes(entries).push(e.last_peak)
            },
        }),
{
    let none = Seq::<PeerEntry<C>>::empty();
    reveal(Seq::filter);
    assert(announced(none) =~= Seq::<u32>::empty());
    assert(votes(none) =~= Seq::<u32>::empty());
    entries.lemma_filter_push(e, has_spoken());
    entries.lemma_filter_push(e, may_vote());
    assert(announced(entries.push(e)) =~= if e.last_peak == 0 {
        announced(entries)
    } else {
        announced(entries).push(e.last_peak)
    });
    assert(votes(entries.push(e)) =~= match e.origin {
        PeerOrigin::Priority => votes(entries),
        PeerOrigin::Discovered => if e.last_peak == 0 {
            votes(entries)
        } else {
            votes(entries).push(e.last_peak)
        },
    });
}

/// Ejecting an address drops the peer that stands there and no other, and leaves the rest of the
/// pool as it was.
pub proof fn law_only_the_ejected_address_is_dropped<C>(
    view: PoolView<C>,
    address: SocketAddr,
    e: PeerEntry<C>,
)
    ensures
        view.without(address).entries.contains(e) <==> view.entries.contains(e) && e.address
            != address,
        view.without(address).next_idx == view.next_idx,
        view.without(address).max_peers == view.max_peers,
        view.without(address).fanout == view.fanout,
        view.without(address).dead == view.dead,
{
    let keep = elsewhere::<C>(address);
    if view.without(address).entries.contains(e) {
        view.entries.lemma_filter_contains_rev(keep, e);
        let i = choose|i: int| 0 <= i < view.entries.filter(keep).len() && view.entries.filter(
            keep,
        )[i] == e;
        view.entries.lemma_filter_pred(keep, i);
    }
    if view.entries.contains(e) && e.address != address {
        let i = choose|i: int| 0 <= i < view.entries.len() && view.entries[i] == e;
        view.entries.lemma_filter_contains(keep, i);
    }
}

/// Ejecting several addresses drops the peers that stand there and no others.
pub proof fn law_only_the_ejected_addresses_are_dropped<C>(
    view: PoolView<C>,
    addresses: Seq<SocketAddr>,
    e: PeerEntry<C>,
)
    ensures
        view.without_all(addresses).entries.contains(e) <==> view.entries.contains(e)
            && !addresses.contains(e.address),
        view.without_all(addresses).next_idx == view.next_idx,
        view.without_all(addresses).max_peers == view.max_peers,
        view.without_all(addresses).fanout == view.fanout,
        view.without_all(addresses).dead == view.dead,
    decreases addresses.len(),
{
    if addresses.len() > 0 {
        let rest = addresses.drop_last();
        law_only_the_ejected_addresses_are_dropped(view, rest, e);
        law_only_the_ejected_address_is_dropped(view.without_all(rest), addresses.last(), e);
        assert(addresses =~= rest.push(addresses.last()));
        if addresses.contains(e.address) && e.address != addresses.last() {
            let i = choose|i: int| 0 <= i < addresses.len() && addresses[i] == e.address;
            assert(rest[i] == e.address);
        }
        if rest.contains(e.address) {
            let i = choose|i: int| 0 <= i < rest.len() && rest[i] == e.address;
            assert(addresses[i] == e.address);
        }
        if e.address == addresses.last() {
            assert(addresses[addresses.len() - 1] == e.address);
        }
    }
}

/// The remainder of the next number is the next remainder, the last being followed by zero.
proof fn lemma_next_in_turn(x: int, n: int)
    requires
        0 <= x,
        0 < n,
    ensures
        0 <= x % n < n,
        (x + 1) % n == (if x % n + 1 == n {
            0
        } else {
            x % n + 1
        }),
{
    let q = x / n;
    let r = x % n;
    vstd::arithmetic::div_mod::lemma_fundamental_div_mod(x, n);
    vstd::arithmetic::div_mod::lemma_mod_bound(x, n);
    if r + 1 == n {
        assert(x + 1 == (q + 1) * n + 0) by (nonlinear_arith)
            requires
                x == n * q + r,
                r + 1 == n,
        ;
        vstd::arithmetic::div_mod::lemma_fundamental_div_mod_converse_mod(x + 1, n, q + 1, 0);
    } else {
        assert(x + 1 == q * n + (r + 1)) by (nonlinear_arith)
            requires
                x == n * q + r,
        ;
        vstd::arithmetic::div_mod::lemma_fundamental_div_mod_converse_mod(x + 1, n, q, r + 1);
    }
}

/// Picking changes nothing but whose turn it is, and each pick asks the peer that stands after the
/// one asked before, the last being followed by the first.
pub proof fn law_picks_go_round<C>(view: PoolView<C>, i: int)
    requires
        view.entries.len() > 0,
        view.next_idx < usize::MAX,
        i == view.next_idx as int % view.entries.len() as int,
    ensures
        0 <= i < view.entries.len(),
        view.in_turn() == view.entries[i].address,
        view.turned().in_turn() == view.entries[if i + 1 == view.entries.len() {
            0
        } else {
            i + 1
        }].address,
        view.turned().entries == view.entries,
        view.turned().max_peers == view.max_peers,
        view.turned().fanout == view.fanout,
        view.turned().dead == view.dead,
{
    lemma_next_in_turn(view.next_idx as int, view.entries.len() as int);
    assert(view.turned().next_idx == view.next_idx + 1);
}

/// A connection is admitted exactly if there is room and its address is not held. It is then held
/// last, as it was offered, under a session of its own, silent and admitted now. The peers held
/// before are untouched.
pub proof fn law_admitted_peer_is_held_as_offered<C>(
    view: PoolView<C>,
    connection: C,
    address: SocketAddr,
    origin: PeerOrigin,
    now: u128,
)
    ensures
        ({
            let after = view.offered(connection, address, origin, now);
            let welcome = view.entries.len() < view.max_peers && forall|i: int|
                0 <= i < view.entries.len() ==> (#[trigger] view.entries[i]).address != address;
            let session = SessionId(view.fanout.next_session);
            &&& view.admits(address) <==> welcome
            &&& view.next_source(address) == (FrameSource { address, session })
            &&& after.entries.len() == view.entries.len() + (if welcome {
                1int
            } else {
                0
            })
            &&& forall|i: int|
                0 <= i < view.entries.len() ==> #[trigger] after.entries[i] == view.entries[i]
            &&& welcome ==> {
                let entry = after.entries[view.entries.len() as int];
                &&& entry.connection == connection
                &&& entry.address == address
                &&& entry.session == session
                &&& entry.origin == origin
                &&& entry.last_peak == 0
                &&& entry.admitted_at == now
                &&& after.fanout.live.contains(FrameSource { address, session })
            }
            &&& after.fanout.next_session == (if view.fanout.next_session == u64::MAX {
                0
            } else {
                view.fanout.next_session + 1
            })
            &&& after.fanout.followers.len() == view.fanout.followers.len()
            &&& forall|i: int|
                0 <= i < view.fanout.followers.len() && (!welcome || (
                #[trigger] view.fanout.followers[i]).source != (FrameSource { address, session }))
                    ==> after.fanout.followers[i] == view.fanout.followers[i]
            &&& after.fanout.next_follower == view.fanout.next_follower
            &&& after.next_idx == view.next_idx
            &&& after.max_peers == view.max_peers
            &&& after.dead == view.dead
        }),
{
    let after = view.offered(connection, address, origin, now);
    let source = view.next_source(address);
    if view.admits(address) {
        let live = after.fanout.live;
        if !view.fanout.live.contains(source) {
            assert(live =~= view.fanout.live.push(source));
            assert(live[view.fanout.live.len() as int] == source);
        }
        assert(live.contains(source));
    }
}

/// Candidates are admitted one after another, each into the pool the ones before it left, and the
/// sessions told are those of the candidates that were admitted.
pub proof fn law_candidates_are_admitted_one_by_one<C>(
    view: PoolView<C>,
    candidates: Seq<DialCandidate<C>>,
    c: DialCandidate<C>,
    now: u128,
)
    ensures
        ({
            let before = view.offered_all(candidates, now);
            let sources = view.admitted_sources(candidates, now);
            &&& view.offered_all(Seq::empty(), now) == view
            &&& view.admitted_sources(Seq::empty(), now) == Seq::<FrameSource>::empty()
            &&& view.offered_all(candidates.push(c), now) == before.offered(
                c.connection,
                c.address,
                c.origin,
                now,
            )
            &&& view.admitted_sources(candidates.push(c), now) == (if before.entries.len()
                < before.max_peers && !holds(before.entries, c.address) {
                sources.push(
                    FrameSource {
                        address: c.address,
                        session: SessionId(before.fanout.next_session),
                    },
                )
            } else {
                sources
            })
        }),
{
    assert(candidates.push(c).drop_last() =~= candidates);
}

/// A peak is recorded for the peer whose session announced it and for no other: it raises that
/// peer's peak and never lowers it.
pub proof fn law_peak_is_recorded_for_its_peer<C>(
    view: PoolView<C>,
    source: FrameSource,
    peak: NewPeak,
    i: int,
)
    requires
        0 <= i < view.entries.len(),
    ensures
        ({
            let before = view.entries[i];
            let after = view.peak_heard(source, peak).entries[i];
            let own = before.address == source.address && before.session == source.session;
            &&& after.connection == before.connection
            &&& after.address == before.address
            &&& after.session == before.session
            &&& after.origin == before.origin
            &&& after.admitted_at == before.admitted_at
            &&& !own ==> after.last_peak == before.last_peak
            &&& own ==> after.last_peak >= before.last_peak && after.last_peak >= peak.height && (
            after.last_peak == before.last_peak || after.last_peak == peak.height)
        }),
        view.peak_heard(source, peak).entries.len() == view.entries.len(),
        view.peak_heard(source, peak).next_idx == view.next_idx,
        view.peak_heard(source, peak).max_peers == view.max_peers,
        view.peak_heard(source, peak).dead == view.dead,
{
}

/// A peak reaches every open follower of the session with room for it, as it was announced.
pub proof fn law_peak_is_passed_on_as_announced<C>(
    view: PoolView<C>,
    source: FrameSource,
    peak: NewPeak,
    i: int,
)
    requires
        0 <= i < view.fanout.followers.len(),
        view.fanout.live.contains(source),
        view.fanout.followers[i].source == source,
        view.fanout.followers[i].open,
        view.fanout.followers[i].queue.len() < view.fanout.followers[i].capacity,
    ensures
        ({
            let before = view.fanout.followers[i];
            let after = view.peak_heard(source, peak).fanout.followers[i];
            &&& after.queue.drop_last() == before.queue
            &&& after.queue.last().source == source
            &&& after.queue.last().frame == FrameView::Peak {
                height: peak.height,
                header_hash: peak.header_hash,
            }
            &&& after.open
        }),
{
    let frame = FrameView::Peak { height: peak.height, header_hash: peak.header_hash };
    crate::peer::frames::law_follower_with_room_receives(view.fanout, source, frame, i);
    let after = view.peak_heard(source, peak).fanout.followers[i];
    assert(after.queue.drop_last() =~= view.fanout.followers[i].queue);
}

/// The peak known of an address is the one the peer held there announced, and none if it has
/// announced none.
pub proof fn law_known_peak_is_the_peers_own<C>(view: PoolView<C>, address: SocketAddr, peak: u32)
    requires
        view.wf(),
    ensures
        announced_at(view.entries, address) == Some(peak) <==> peak > 0 && exists|i: int|
            0 <= i < view.entries.len() && (#[trigger] view.entries[i]).address == address
                && view.entries[i].last_peak == peak,
{
    if announced_at(view.entries, address) == Some(peak) {
        let i = choose|i: int| speaks_at(view.entries, address, i);
        assert(view.entries[i].address == address);
    }
    if peak > 0 && exists|i: int|
        0 <= i < view.entries.len() && (#[trigger] view.entries[i]).address == address
            && view.entries[i].last_peak == peak {
        let i = choose|i: int|
            0 <= i < view.entries.len() && (#[trigger] view.entries[i]).address == address
                && view.entries[i].last_peak == peak;
        assert(speaks_at(view.entries, address, i));
        let j = choose|j: int| speaks_at(view.entries, address, j);
        assert(i == j);
    }
}

proof fn lemma_two_of<C>(s: Seq<PeerEntry<C>>, keep: spec_fn(PeerEntry<C>) -> bool)
    ensures
        s.filter(keep).len() >= 1 <==> exists|i: int| 0 <= i < s.len() && keep(#[trigger] s[i]),
        s.filter(keep).len() >= 2 <==> exists|i: int, j: int|
            0 <= i < j < s.len() && keep(#[trigger] s[i]) && keep(#[trigger] s[j]),
    decreases s.len(),
{
    reveal(Seq::filter);
    if s.len() > 0 {
        let rest = s.drop_last();
        let last = s.len() - 1;
        lemma_two_of(rest, keep);
        if rest.filter(keep).len() >= 1 {
            let i = choose|i: int| 0 <= i < rest.len() && keep(#[trigger] rest[i]);
            assert(s[i] == rest[i]);
            if keep(s[last]) {
                assert(keep(s[i]) && keep(s[last]));
            }
        }
        if rest.filter(keep).len() >= 2 {
            let (i, j) = choose|i: int, j: int|
                0 <= i < j < rest.len() && keep(#[trigger] rest[i]) && keep(#[trigger] rest[j]);
            assert(s[i] == rest[i] && s[j] == rest[j]);
        }
        if exists|i: int| 0 <= i < s.len() && keep(#[trigger] s[i]) {
            let i = choose|i: int| 0 <= i < s.len() && keep(#[trigger] s[i]);
            if i < last {
                assert(keep(rest[i]));
            }
        }
        if exists|i: int, j: int|
            0 <= i < j < s.len() && keep(#[trigger] s[i]) && keep(#[trigger] s[j]) {
            let (i, j) = choose|i: int, j: int|
                0 <= i < j < s.len() && keep(#[trigger] s[i]) && keep(#[trigger] s[j]);
            assert(keep(rest[i]));
            if j < last {
                assert(keep(rest[j]));
            }
        }
    }
}

/// A pool is armed to corroborate a peer's answer exactly if it holds two discovered peers at
/// other addresses. Where it is not, it says how many it has, and that two are needed.
pub proof fn law_two_independent_peers_arm_the_pool<C>(
    entries: Seq<PeerEntry<C>>,
    asked: SocketAddr,
)
    requires
        entries.len() <= usize::MAX,
    ensures
        readiness_for(entries, asked) is Armed <==> exists|i: int, j: int|
            0 <= i < j < entries.len() && (#[trigger] entries[i]).address != asked && entries[i].origin
                == PeerOrigin::Discovered && (#[trigger] entries[j]).address != asked
                && entries[j].origin == PeerOrigin::Discovered,
        readiness_for(entries, asked) matches CorroborationReadiness::Insufficient {
            corroborators,
            required,
        } ==> required == 2 && corroborators == (if exists|i: int|
            0 <= i < entries.len() && (#[trigger] entries[i]).address != asked && entries[i].origin
                == PeerOrigin::Discovered {
            1int
        } else {
            0
        }),
{
    let keep = corroborates::<C>(asked);
    lemma_two_of(entries, keep);
    entries.lemma_filter_len(keep);
    if entries.filter(keep).len() >= 2 {
        let (i, j) = choose|i: int, j: int|
            0 <= i < j < entries.len() && keep(#[trigger] entries[i]) && keep(
                #[trigger] entries[j],
            );
        assert(entries[i].address != asked && entries[j].address != asked);
    }
    if exists|i: int, j: int|
        0 <= i < j < entries.len() && (#[trigger] entries[i]).address != asked && entries[i].origin
            == PeerOrigin::Discovered && (#[trigger] entries[j]).address != asked
            && entries[j].origin == PeerOrigin::Discovered {
        let (i, j) = choose|i: int, j: int|
            0 <= i < j < entries.len() && (#[trigger] entries[i]).address != asked
                && entries[i].origin == PeerOrigin::Discovered && (
            #[trigger] entries[j]).address != asked && entries[j].origin == PeerOrigin::Discovered;
        assert(keep(entries[i]) && keep(entries[j]));
    }
    if exists|i: int|
        0 <= i < entries.len() && (#[trigger] entries[i]).address != asked && entries[i].origin
            == PeerOrigin::Discovered {
        let i = choose|i: int|
            0 <= i < entries.len() && (#[trigger] entries[i]).address != asked && entries[i].origin
                == PeerOrigin::Discovered;
        assert(keep(entries[i]));
    }
    if entries.filter(keep).len() >= 1 {
        let i = choose|i: int| 0 <= i < entries.len() && keep(#[trigger] entries[i]);
        assert(entries[i].address != asked);
    }
}

/// Corroborators are counted peer by peer: a discovered peer at another address counts once, any
/// other not at all. So are the independent peers, wherever they stand.
pub proof fn law_corroborators_are_counted_peer_by_peer<C>(
    entries: Seq<PeerEntry<C>>,
    e: PeerEntry<C>,
    asked: SocketAddr,
)
    requires
        entries.len() < usize::MAX,
    ensures
        ({
            let before = entries.filter(corroborates(asked));
            let after = entries.push(e).filter(corroborates(asked));
            let independent = entries.filter(is_discovered()).len();
            &&& after == (if e.address != asked && e.origin is Discovered {
                before.push(e)
            } else {
                before
            })
            &&& entries.push(e).filter(is_discovered()).len() == independent + (
            if e.origin is Discovered {
                1int
            } else {
                0
            })
            &&& readiness_for(entries.push(e), asked) matches CorroborationReadiness::Armed {
                corroborators,
            } ==> corroborators == after.len()
        }),
{
    entries.lemma_filter_push(e, corroborates(asked));
    entries.lemma_filter_push(e, is_discovered());
    entries.push(e).lemma_filter_len(corroborates(asked));
}

/// A peer is dropped for lag exactly if it was discovered, has spoken, and trails the reference by
/// more than six blocks. The rest of the pool is as it was.
pub proof fn law_lag_is_more_than_six_blocks<C>(view: PoolView<C>, e: PeerEntry<C>)
    ensures
        view.without_lagging().entries.contains(e) <==> view.entries.contains(e) && (
        e.origin is Priority || e.last_peak == 0 || view.reference() is None || view.reference()->0
            <= e.last_peak + 6),
        lags(view.reference())(e) <==> e.origin is Discovered && e.last_peak > 0
            && view.reference() is Some && view.reference()->0 > e.last_peak + 6,
        view.without_lagging().next_idx == view.next_idx,
        view.without_lagging().max_peers == view.max_peers,
        view.without_lagging().fanout == view.fanout,
        view.without_lagging().dead == view.dead,
{
    let keep = keeps_up::<C>(view.reference());
    if view.without_lagging().entries.contains(e) {
        view.entries.lemma_filter_contains_rev(keep, e);
        let i = choose|i: int| 0 <= i < view.entries.filter(keep).len() && view.entries.filter(
            keep,
        )[i] == e;
        view.entries.lemma_filter_pred(keep, i);
    }
    if view.entries.contains(e) && keep(e) {
        let i = choose|i: int| 0 <= i < view.entries.len() && view.entries[i] == e;
        view.entries.lemma_filter_contains(keep, i);
    }
}

/// A peer is dropped as dead exactly if the session it publishes under has ended, and every ended
/// session is dealt with once.
pub proof fn law_only_ended_sessions_are_dropped<C>(view: PoolView<C>, e: PeerEntry<C>)
    ensures
        view.without_dead().entries.contains(e) <==> view.entries.contains(e)
            && !view.dead.contains(FrameSource { address: e.address, session: e.session }),
        view.without_dead().dead.len() == 0,
        view.without_dead().next_idx == view.next_idx,
        view.without_dead().max_peers == view.max_peers,
        view.without_dead().fanout == view.fanout,
{
    let keep = lives::<C>(view.dead);
    if view.without_dead().entries.contains(e) {
        view.entries.lemma_filter_contains_rev(keep, e);
        let i = choose|i: int| 0 <= i < view.entries.filter(keep).len() && view.entries.filter(
            keep,
        )[i] == e;
        view.entries.lemma_filter_pred(keep, i);
    }
    if view.entries.contains(e) && keep(e) {
        let i = choose|i: int| 0 <= i < view.entries.len() && view.entries[i] == e;
        view.entries.lemma_filter_contains(keep, i);
    }
}

/// The oldest of the expired exists where any has expired.
proof fn lemma_oldest_expired<C>(entries: Seq<PeerEntry<C>>, now: u128, i: int)
    requires
        0 <= i < entries.len(),
        expired(entries[i], now),
    ensures
        exists|k: int| is_oldest_expired(entries, now, k),
    decreases entries[i].admitted_at, i,
{
    if !is_oldest_expired(entries, now, i) {
        let j = choose|j: int|
            0 <= j < entries.len() && expired(#[trigger] entries[j], now) && !(
            entries[i].admitted_at <= entries[j].admitted_at && (j < i ==> entries[i].admitted_at
                < entries[j].admitted_at));
        lemma_oldest_expired(entries, now, j);
    }
}

/// A discovered peer is rotated out once it has been held for three hundred seconds, one at a
/// time, the one held longest first. A pool without such a peer is left alone, and a priority peer
/// is never rotated out.
pub proof fn law_the_peer_held_longest_is_rotated_out<C>(view: PoolView<C>, now: u128)
    ensures
        ({
            let after = view.without_expired(now);
            let old_enough = |e: PeerEntry<C>|
                e.origin is Discovered && now >= e.admitted_at + 300_000_000_000;
            &&& (forall|i: int| 0 <= i < view.entries.len() ==> !old_enough(#[trigger] view.entries[i]))
                ==> oldest_expired(view.entries, now) is None && after == view
            &&& (exists|i: int| 0 <= i < view.entries.len() && old_enough(#[trigger] view.entries[i]))
                ==> {
                let out = oldest_expired(view.entries, now)->0;
                &&& oldest_expired(view.entries, now) is Some
                &&& 0 <= out < view.entries.len()
                &&& old_enough(view.entries[out])
                &&& after.entries == view.entries.subrange(0, out) + view.entries.subrange(
                    out + 1,
                    view.entries.len() as int,
                )
                &&& forall|j: int|
                    0 <= j < view.entries.len() && (#[trigger] view.entries[j]).origin is Discovered
                        ==> view.entries[out].admitted_at <= view.entries[j].admitted_at
            }
            &&& after.next_idx == view.next_idx
            &&& after.max_peers == view.max_peers
            &&& after.fanout == view.fanout
            &&& after.dead == view.dead
        }),
{
    let old_enough = |e: PeerEntry<C>|
        e.origin is Discovered && now >= e.admitted_at + 300_000_000_000;
    if exists|i: int| 0 <= i < view.entries.len() && old_enough(#[trigger] view.entries[i]) {
        let i = choose|i: int| 0 <= i < view.entries.len() && old_enough(#[trigger] view.entries[i]);
        assert(expired(view.entries[i], now));
        lemma_oldest_expired(view.entries, now, i);
        let out = oldest_expired(view.entries, now)->0;
        assert(is_oldest_expired(view.entries, now, out));
        assert(view.without_expired(now).entries =~= view.entries.subrange(0, out)
            + view.entries.subrange(out + 1, view.entries.len() as int));
        assert forall|j: int|
            0 <= j < view.entries.len() && (
            #[trigger] view.entries[j]).origin is Discovered implies view.entries[out].admitted_at
            <= view.entries[j].admitted_at by {
            if !expired(view.entries[j], now) {
                assert(now - view.entries[j].admitted_at < 300_000_000_000);
            }
        }
    } else {
        if exists|i: int| is_oldest_expired(view.entries, now, i) {
            let i = choose|i: int| is_oldest_expired(view.entries, now, i);
            assert(expired(view.entries[i], now));
            assert(old_enough(view.entries[i]));
        }
    }
}

/// Maintenance drops the dead, then those that lag behind what the living support, then at most
/// one expired peer: whatever is neither stays, and nothing that is dead or lags does.
pub proof fn law_maintenance_drops_what_it_should<C>(view: PoolView<C>, now: u128, e: PeerEntry<C>)
    ensures
        ({
            let after = view.maintained(now);
            let reference = view.without_dead().reference();
            let lives = !view.dead.contains(FrameSource { address: e.address, session: e.session });
            let keeps_up = e.origin is Priority || e.last_peak == 0 || reference is None
                || reference->0 <= e.last_peak + 6;
            let old_enough = e.origin is Discovered && now >= e.admitted_at + 300_000_000_000;
            &&& after.entries.contains(e) ==> view.entries.contains(e) && lives && keeps_up
            &&& view.entries.contains(e) && lives && keeps_up && !old_enough
                ==> after.entries.contains(e)
            &&& view.entries.contains(e) && lives && keeps_up && old_enough
                ==> after.entries.len() < view.entries.len()
            &&& after.next_idx == view.next_idx
            &&& after.max_peers == view.max_peers
            &&& after.fanout == view.fanout
            &&& after.dead.len() == 0
        }),
{
    let living = view.without_dead();
    let current = living.without_lagging();
    let after = view.maintained(now);
    law_only_ended_sessions_are_dropped(view, e);
    law_lag_is_more_than_six_blocks(living, e);
    law_the_peer_held_longest_is_rotated_out(current, now);
    view.entries.lemma_filter_len(lives(view.dead));
    living.entries.lemma_filter_len(keeps_up(living.reference()));
    match oldest_expired(current.entries, now) {
        Some(out) => {
            if exists|i: int| is_oldest_expired(current.entries, now, i) {
                assert(is_oldest_expired(current.entries, now, out));
            }
            if after.entries.contains(e) {
                let i = choose|i: int| 0 <= i < after.entries.len() && after.entries[i] == e;
                let k = if i < out {
                    i
                } else {
                    i + 1
                };
                assert(current.entries[k] == e);
            }
            if current.entries.contains(e) {
                let k = choose|k: int| 0 <= k < current.entries.len() && current.entries[k] == e;
                if k != out {
                    let i = if k < out {
                        k
                    } else {
                        k - 1
                    };
                    assert(after.entries[i] == e);
                }
            }
        },
        None => {
            if current.entries.contains(e) {
                let k = choose|k: int| 0 <= k < current.entries.len() && current.entries[k] == e;
                if expired(current.entries[k], now) {
                    lemma_oldest_expired(current.entries, now, k);
                }
            }
        },
    }
}

/// A running session that is held can be followed, and what is then followed is the session of the
/// peer held at the address asked for.
pub proof fn law_held_running_session_is_followed<C>(
    before: PoolView<C>,
    i: int,
    capacity: usize,
    after: PoolView<C>,
    subscription: Option<FrameSubscription>,
)
    requires
        before.wf(),
        0 <= i < before.entries.len(),
        before.fanout.next_follower < u64::MAX,
        before.fanout.live.contains(
            FrameSource {
                address: before.entries[i].address,
                session: before.entries[i].session,
            },
        ),
        is_subscribing(before, before.entries[i].address, capacity, after, subscription),
    ensures
        subscription is Some,
        subscription->0.spec_source().address == before.entries[i].address,
        subscription->0.spec_source().session == before.entries[i].session,
        after.entries == before.entries,
        after.next_idx == before.next_idx,
        after.max_peers == before.max_peers,
        after.dead == before.dead,
        after.fanout.live == before.fanout.live,
        after.fanout.followers.len() == before.fanout.followers.len() + 1,
        after.fanout.followers.last().source == subscription->0.spec_source(),
        after.fanout.followers.last().id == subscription->0.follower(),
        after.fanout.followers.last().open,
        after.fanout.followers.last().capacity >= capacity,
{
    assert(before.fanout.live.contains(source_of(before.entries[i])));
}

/// A fill opens a round exactly if it has spent fewer than four, the last one admitted somebody and
/// there is room. The round fills the room there is, opens two dials for each slot, and leaves out
/// the addresses that are held.
pub proof fn law_a_fill_ends_after_four_rounds_or_an_empty_one<C>(
    pool: PeerPool<C>,
    rounds: usize,
    last_admitted: Option<usize>,
    round: Option<DialRound>,
)
    requires
        call_ensures(PeerPool::<C>::next_round, (&pool, rounds, last_admitted), round),
    ensures
        round is Some <==> rounds < 4 && !(last_admitted is Some && last_admitted->0 == 0)
            && pool@.entries.len() < pool@.max_peers,
        round matches Some(r) ==> r.wanted == pool@.max_peers - pool@.entries.len() && (2 * r.wanted
            <= usize::MAX ==> r.dials == 2 * r.wanted) && r.held@.len() == pool@.entries.len()
            && forall|i: int|
            0 <= i < r.held@.len() ==> #[trigger] r.held@[i] == pool@.entries[i].address,
{
}

/// An empty pool is of no use exactly if a peer is required.
pub proof fn law_an_empty_pool_fails_where_a_peer_is_required<C>(
    pool: PeerPool<C>,
    requirement: PeerRequirement,
    usable: Result<(), ChiaQueryError>,
)
    requires
        call_ensures(PeerPool::<C>::check_requirement, (&pool, requirement), usable),
    ensures
        usable is Err <==> pool@.entries.len() == 0 && requirement is Required,
        usable is Err ==> usable->Err_0 is PeerDiscoveryFailed,
{
}

/// The peers that are asked besides the one that answered are the discovered ones at other addresses,
/// all of them and each once.
pub proof fn law_every_other_discovered_peer_is_asked<C>(
    pool: PeerPool<C>,
    asked: SocketAddr,
    peers: Vec<SocketAddr>,
    address: SocketAddr,
)
    requires
        pool@.wf(),
        call_ensures(PeerPool::<C>::select_corroborating_peers, (&pool, asked), peers),
    ensures
        peers@.contains(address) <==> address != asked && exists|i: int|
            0 <= i < pool@.entries.len() && (#[trigger] pool@.entries[i]).address == address
                && pool@.entries[i].origin is Discovered,
{
    let entries = pool@.entries;
    let keep = corroborates::<C>(asked);
    let kept = entries.filter(keep);
    if peers@.contains(address) {
        let k = choose|k: int| 0 <= k < peers@.len() && peers@[k] == address;
        assert(kept[k].address == address);
        entries.lemma_filter_pred(keep, k);
        assert(kept.contains(kept[k]));
        entries.lemma_filter_contains_rev(keep, kept[k]);
        let i = choose|i: int| 0 <= i < entries.len() && entries[i] == kept[k];
        assert(entries[i].address == address);
    }
    if address != asked && exists|i: int|
        0 <= i < entries.len() && (#[trigger] entries[i]).address == address
            && entries[i].origin is Discovered {
        let i = choose|i: int|
            0 <= i < entries.len() && (#[trigger] entries[i]).address == address
                && entries[i].origin is Discovered;
        entries.lemma_filter_contains(keep, i);
        let k = choose|k: int| 0 <= k < kept.len() && kept[k] == entries[i];
        assert(peers@[k] == address);
    }
}

/// The peak of the pool lies above a height exactly if more than half of the peers that have spoken
/// announced one above it, and is zero where nobody has.
pub proof fn law_the_peak_goes_with_the_majority<C>(pool: PeerPool<C>, peak: u32, h: int)
    requires
        call_ensures(PeerPool::<C>::peak_height, (&pool,), peak),
    ensures
        announced(pool@.entries).len() == 0 ==> peak == 0,
        announced(pool@.entries).len() > 0 ==> (peak > h <==> 2 * announced(pool@.entries).filter(
            |x: u32| x > h,
        ).len() > announced(pool@.entries).len()),
{
    if announced(pool@.entries).len() > 0 {
        crate::peer::peaks::law_reference_goes_with_the_majority(announced(pool@.entries), h);
    }
}

/// A session that ends is noted for its peer to be dropped, stops running, and touches nothing else.
pub proof fn law_an_ended_session_is_noted<C>(
    pool: &mut PeerPool<C>,
    source: FrameSource,
    reason: SessionEndReason,
    other: FrameSource,
)
    requires
        old(pool)@.fanout.wf(),
        call_ensures(PeerPool::<C>::end_session, (pool, source, reason), ()),
    ensures
        final(pool)@.dead.contains(other) <==> old(pool)@.dead.contains(other) || other == source,
        final(pool)@.entries == old(pool)@.entries,
        final(pool)@.next_idx == old(pool)@.next_idx,
        final(pool)@.max_peers == old(pool)@.max_peers,
        final(pool)@.fanout.live.contains(other) <==> old(pool)@.fanout.live.contains(other) && other
            != source,
{
    let dead = old(pool)@.dead;
    assert(dead.push(source)[dead.len() as int] == source);
    if dead.contains(other) {
        let i = choose|i: int| 0 <= i < dead.len() && dead[i] == other;
        assert(dead.push(source)[i] == other);
    }
    crate::peer::frames::law_only_its_last_frame_stops_a_session(
        old(pool)@.fanout,
        source,
        FrameView::SessionEnded { reason },
        other,
    );
}

/// An update of no more than a hundred thousand coins is passed on as it came to every open follower
/// of the session with room for it. A larger one ends the session, and is passed on to nobody.
pub proof fn law_an_oversized_update_ends_the_session<C>(
    pool: &mut PeerPool<C>,
    source: FrameSource,
    update: CoinStateUpdate,
    ends: Option<SessionEndReason>,
    i: int,
)
    requires
        call_ensures(PeerPool::<C>::coin_states_received, (pool, source, update), ends),
    ensures
        update.items@.len() > 100_000 ==> ends == Some(SessionEndReason::OversizedFrame)
            && final(pool)@ == old(pool)@,
        update.items@.len() <= 100_000 ==> ends is None,
        final(pool)@.entries == old(pool)@.entries,
        final(pool)@.dead == old(pool)@.dead,
        ({
            let before = old(pool)@.fanout.followers[i];
            let after = final(pool)@.fanout.followers[i];
            update.items@.len() <= 100_000 && 0 <= i < old(pool)@.fanout.followers.len()
                && old(pool)@.fanout.live.contains(source) && before.source == source && before.open
                && before.queue.len() < before.capacity ==> after.queue.drop_last() == before.queue
                && after.queue.last().source == source && after.queue.last().frame
                == FrameView::CoinStates {
                height: update.height,
                fork_height: update.fork_height,
                peak_hash: update.peak_hash,
                items: update.items@,
            }
        }),
{
    let before = old(pool)@.fanout.followers[i];
    let frame = FrameView::CoinStates {
        height: update.height,
        fork_height: update.fork_height,
        peak_hash: update.peak_hash,
        items: update.items@,
    };
    if update.items@.len() <= 100_000 && 0 <= i < old(pool)@.fanout.followers.len() && old(
        pool,
    )@.fanout.live.contains(source) && before.source == source && before.open
        && before.queue.len() < before.capacity {
        crate::peer::frames::law_follower_with_room_receives(old(pool)@.fanout, source, frame, i);
        assert(final(pool)@.fanout.followers[i].queue.drop_last() =~= before.queue);
    }
}

/// What a session sends is told apart: a peak of the right length is heard, one of another length
/// ends the session and changes nothing, and any other message is passed over.
pub proof fn law_an_unreadable_peak_ends_the_session<C>(
    pool: &mut PeerPool<C>,
    source: FrameSource,
    message: InboundMessage,
    ends: Option<SessionEndReason>,
)
    requires
        call_ensures(PeerPool::<C>::receive, (pool, source, message), ends),
    ensures
        message is Other ==> ends is None && final(pool)@ == old(pool)@,
        message matches InboundMessage::NewPeakWallet(data) ==> {
            &&& ends is None <==> data@.len() == 56
            &&& data@.len() != 56 ==> ends == Some(SessionEndReason::UndecodableFrame)
                && final(pool)@ == old(pool)@
            &&& data@.len() == 56 ==> exists|peak: NewPeak| #[trigger]
                old(pool)@.peak_heard(source, peak) == final(pool)@ && peak.header_hash@
                    == data@.subrange(0, 32) && crate::wire::be_u32(peak.height)
                    == data@.subrange(32, 36)
        },
        message is CoinStateUpdate ==> ends is None || ends == Some(
            SessionEndReason::UndecodableFrame,
        ) || ends == Some(SessionEndReason::OversizedFrame),
        ends is Some ==> final(pool)@ == old(pool)@,
{
}

/// The peer picked is the one in turn, none exactly if none is held, and the next pick goes on from
/// there.
pub proof fn law_a_pick_takes_the_peer_in_turn<C>(
    pool: &mut PeerPool<C>,
    picked: Option<SocketAddr>,
)
    requires
        call_ensures(PeerPool::<C>::select_peer, (pool,), picked),
        old(pool)@.next_idx < usize::MAX,
    ensures
        picked is Some <==> old(pool)@.entries.len() > 0,
        picked is Some ==> picked->0 == old(pool)@.entries[old(pool)@.next_idx as int % old(
            pool,
        )@.entries.len() as int].address && final(pool)@.next_idx == old(pool)@.next_idx + 1,
        final(pool)@.entries == old(pool)@.entries,
{
}

/// The addresses told as evicted are those of the discovered peers that have spoken and trail the
/// reference by more than six blocks, and the address told as rotated is that of the peer that was
/// held longest.
pub proof fn law_dropped_peers_are_told<C>(
    pool: &mut PeerPool<C>,
    evicted: Vec<SocketAddr>,
    address: SocketAddr,
)
    requires
        call_ensures(PeerPool::<C>::evict_lagging_peers, (pool,), evicted),
    ensures
        evicted@.contains(address) <==> old(pool)@.reference() is Some && exists|i: int|
            0 <= i < old(pool)@.entries.len() && (#[trigger] old(pool)@.entries[i]).address == address
                && old(pool)@.entries[i].origin is Discovered && old(pool)@.entries[i].last_peak > 0
                && old(pool)@.reference()->0 > old(pool)@.entries[i].last_peak + 6,
{
    let entries = old(pool)@.entries;
    let gone = lags::<C>(old(pool)@.reference());
    let dropped = entries.filter(gone);
    if evicted@.contains(address) {
        let k = choose|k: int| 0 <= k < evicted@.len() && evicted@[k] == address;
        assert(dropped[k].address == address);
        entries.lemma_filter_pred(gone, k);
        assert(dropped.contains(dropped[k]));
        entries.lemma_filter_contains_rev(gone, dropped[k]);
        let i = choose|i: int| 0 <= i < entries.len() && entries[i] == dropped[k];
        assert(entries[i].address == address);
    }
    if old(pool)@.reference() is Some && exists|i: int|
        0 <= i < entries.len() && (#[trigger] entries[i]).address == address
            && entries[i].origin is Discovered && entries[i].last_peak > 0
            && old(pool)@.reference()->0 > entries[i].last_peak + 6 {
        let i = choose|i: int|
            0 <= i < entries.len() && (#[trigger] entries[i]).address == address
                && entries[i].origin is Discovered && entries[i].last_peak > 0
                && old(pool)@.reference()->0 > entries[i].last_peak + 6;
        entries.lemma_filter_contains(gone, i);
        let k = choose|k: int| 0 <= k < dropped.len() && dropped[k] == entries[i];
        assert(evicted@[k] == address);
    }
}

/// A connection that is admitted is told by its own session, and one that is not is told by none:
/// exactly one whose address is not held already, where there is room.
pub proof fn law_an_admitted_connection_is_told_by_its_session<C>(
    pool: &mut PeerPool<C>,
    connection: C,
    address: SocketAddr,
    origin: PeerOrigin,
    now: u128,
    admitted: Option<FrameSource>,
)
    requires
        call_ensures(
            PeerPool::<C>::admit_and_follow,
            (pool, connection, address, origin, now),
            admitted,
        ),
    ensures
        admitted is Some <==> old(pool)@.entries.len() < old(pool)@.max_peers && forall|i: int|
            0 <= i < old(pool)@.entries.len() ==> (#[trigger] old(pool)@.entries[i]).address
                != address,
        admitted is Some ==> (admitted->0).address == address && (admitted->0).session
            == SessionId(old(pool)@.fanout.next_session) && final(pool)@.entries.len()
            == old(pool)@.entries.len() + 1 && final(pool)@.entries.last().address == address
            && final(pool)@.entries.last().origin == origin,
        admitted is None ==> final(pool)@.entries == old(pool)@.entries,
{
    law_admitted_peer_is_held_as_offered(old(pool)@, connection, address, origin, now);
}

/// A pool that has room after maintenance asks to be refilled, and names the addresses it holds.
pub proof fn law_a_pool_with_room_is_refilled<C>(
    pool: &mut PeerPool<C>,
    now: u128,
    refill: Option<Vec<SocketAddr>>,
)
    requires
        call_ensures(PeerPool::<C>::maintain, (pool, now), refill),
    ensures
        refill is Some <==> final(pool)@.entries.len() < final(pool)@.max_peers,
        refill matches Some(held) ==> held@.len() == final(pool)@.entries.len() && forall|i: int|
            0 <= i < held@.len() ==> #[trigger] held@[i] == final(pool)@.entries[i].address,
        final(pool)@.dead.len() == 0,
        final(pool)@.max_peers == old(pool)@.max_peers,
{
}

/// Every pick moves the turn on by one, and after the last number that a `usize` holds it starts
/// again; nothing else of the pool changes, and a pool with nobody in it stays as it is.
pub proof fn law_a_pick_moves_the_turn_on<C>(pool: &mut PeerPool<C>, picked: Option<SocketAddr>)
    requires
        call_ensures(PeerPool::<C>::select_peer, (pool,), picked),
    ensures
        picked is Some <==> old(pool)@.entries.len() > 0,
        picked is Some ==> final(pool)@.next_idx as int == (old(pool)@.next_idx as int + 1) % (
        usize::MAX as int + 1),
        picked is None ==> final(pool)@.next_idx == old(pool)@.next_idx,
        final(pool)@.entries == old(pool)@.entries,
        final(pool)@.fanout == old(pool)@.fanout,
{
    let n = old(pool)@.next_idx as int;
    let m = usize::MAX as int + 1;
    if n + 1 < m {
        vstd::arithmetic::div_mod::lemma_small_mod((n + 1) as nat, m as nat);
    } else {
        vstd::arithmetic::div_mod::lemma_mod_self_0(m);
    }
}

} // verus!
