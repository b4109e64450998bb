//! Which session a light client reads from.
//!
//! A subscription is state a peer keeps for one connection. Every read that arms one therefore
//! goes to the anchor, the one session this client has pinned; the others go to whichever peer is
//! next in turn.

use vstd::prelude::*;

use crate::address::SocketAddr;
use crate::peer::backend::PeerBackend;
use crate::peer::connect::PeerOrigin;
use crate::peer::frames::{FrameSource, FrameSubscription};
use crate::peer::pool::{source_of, PoolView};
use crate::peer::reads::{Reply, Response};
use crate::protocol::{Bytes32, CoinState, CoinStateFilters, PuzzleStatePage};
use crate::types::ErrorView;

use super::error::LightClientError;

verus! {

/// The most pages one paged read may take.
pub const MAX_PUZZLE_STATE_PAGES: usize = 10_000;

/// The most coin states one paged read may gather.
pub const MAX_ACCUMULATED_COIN_STATES: usize = 500_000;

/// How many frames a light client may fall behind before its subscription ends.
pub const FRAME_BUFFER: usize = 1024;

/// The reads a provider makes of a full node when its cache does not have the answer.
///
/// A read with `subscribe` arms a subscription; one without never does.
pub trait CoinStateFetcher {
    /// The states of `coin_ids`. None of a coin means that the peer does not know it.
    fn coin_states(&self, coin_ids: Vec<Bytes32>, subscribe: bool) -> Result<
        Vec<CoinState>,
        LightClientError,
    >;

    /// The states of every coin at `puzzle_hashes`.
    fn puzzle_states(
        &self,
        puzzle_hashes: Vec<Bytes32>,
        filters: CoinStateFilters,
        subscribe: bool,
    ) -> Result<Vec<CoinState>, LightClientError>;

    /// The states of the children of `coin_id`.
    fn children(&self, coin_id: Bytes32) -> Result<Vec<CoinState>, LightClientError>;

    /// The puzzle and the solution that spent `coin_id` at `height`. Only asked of a coin that is
    /// known to be spent, so there is no such thing as none.
    fn puzzle_and_solution(&self, coin_id: Bytes32, height: u32) -> Result<
        (Vec<u8>, Vec<u8>),
        LightClientError,
    >;
}

/// The pinned session, and how its peer was found.
#[derive(Clone, Copy, Debug, PartialEq, Eq, Structural)]
pub struct Anchor {
    pub address: SocketAddr,
    /// The session tells this connection from a later one to the same address.
    pub source: FrameSource,
    pub origin: PeerOrigin,
}

/// Which session is pinned, and whether the subscriptions have to be armed again.
pub struct FetcherView {
    pub anchor: Option<Anchor>,
    pub rearm_needed: bool,
}

impl FetcherView {
    /// After the anchor is unpinned. Whoever loses the pin loses the subscriptions with it.
    pub open spec fn unpinned(self) -> FetcherView {
        FetcherView { anchor: None, rearm_needed: true }
    }

    /// After the end of the session `source`.
    pub open spec fn released(self, source: FrameSource) -> FetcherView {
        if self.anchor matches Some(anchor) && anchor.source == source {
            self.unpinned()
        } else {
            self
        }
    }

    /// After a read of the peer at `address` failed.
    pub open spec fn released_at(self, address: SocketAddr) -> FetcherView {
        if self.anchor matches Some(anchor) && anchor.address == address {
            self.unpinned()
        } else {
            self
        }
    }
}

/// Whether asking for the anchor leads from one fetcher and pool to the others, with the outcome
/// `pinned`: an anchor that is held is kept, and otherwise the peer in turn is pinned and its
/// session followed.
pub open spec fn is_anchoring<C>(
    fetcher: FetcherView,
    pool: PoolView<C>,
    fetcher_after: FetcherView,
    pool_after: PoolView<C>,
    pinned: Result<(Anchor, Option<FrameSubscription>), LightClientError>,
) -> bool {
    match fetcher.anchor {
        Some(anchor) => {
            &&& pinned matches Ok((same, None)) && same == anchor
            &&& fetcher_after == fetcher
            &&& pool_after == pool
        },
        None => {
            let entry = pool.entry_in_turn();
            match pinned {
                Ok((anchor, Some(subscription))) => {
                    &&& pool.entries.len() > 0 && pool.can_follow(entry)
                    &&& anchor == Anchor {
                        address: entry.address,
                        source: source_of(entry),
                        origin: entry.origin,
                    }
                    &&& subscription.spec_source() == anchor.source
                    &&& fetcher_after == FetcherView { anchor: Some(anchor), ..fetcher }
                    &&& pool_after == PoolView {
                        fanout: pool.fanout.joined(anchor.source, FRAME_BUFFER),
                        ..pool.turned()
                    }
                },
                Ok((_, None)) => false,
                Err(e) => {
                    &&& fetcher_after == fetcher
                    &&& pool_after == pool.turned()
                    &&& if pool.entries.len() == 0 {
                        e matches LightClientError::Transport(text) && text@
                            == ErrorView::PeerConnection("no peers available"@).text()
                    } else {
                        !pool.can_follow(entry) && e is NotConnected
                    }
                },
            }
        },
    }
}

/// Reads drawn from the shared pool.
pub struct PooledFetcher {
    anchor: Option<Anchor>,
    rearm_needed: bool,
}

impl View for PooledFetcher {
    type V = FetcherView;

    closed spec fn view(&self) -> FetcherView {
        FetcherView { anchor: self.anchor, rearm_needed: self.rearm_needed }
    }
}

impl PooledFetcher {
    /// A fetcher that has pinned nothing.
    pub fn new() -> (fetcher: Self)
        ensures
            fetcher@ == (FetcherView { anchor: None, rearm_needed: false }),
    {
        PooledFetcher { anchor: None, rearm_needed: false }
    }

    /// Whether the subscriptions are armed on no session that is being followed.
    pub fn needs_rearm(&self) -> (needed: bool)
        ensures
            needed == self@.rearm_needed,
    {
        self.rearm_needed
    }

    /// Notes that the subscriptions have been armed again.
    pub fn clear_rearm(&mut self)
        ensures
            final(self)@ == (FetcherView { rearm_needed: false, ..old(self)@ }),
    {
        self.rearm_needed = false;
    }

    /// The pinned session. The first call pins the peer in turn and opens a subscription to its
    /// frames, which the caller is to follow.
    ///
    /// A peer whose session has ended cannot be pinned: nothing would ever be pushed on it.
    pub fn anchor<C>(&mut self, backend: &mut PeerBackend<C>) -> (pinned: Result<
        (Anchor, Option<FrameSubscription>),
        LightClientError,
    >)
        requires
            old(backend).pool@.wf(),
        ensures
            final(backend).pool@.wf(),
            final(backend).network == old(backend).network,
            is_anchoring(old(self)@, old(backend).pool@, final(self)@, final(backend).pool@, pinned),
    {
        if let Some(anchor) = self.anchor {
            return Ok((anchor, None));
        }
        let ghost before = backend.pool@;
        let ghost turn = before.next_idx as int % before.entries.len() as int;
        let address = match backend.pick() {
            Ok(address) => address,
            Err(e) => return Err(LightClientError::Transport(e.message())),
        };
        assert(before.entries[turn].address == address);
        let origin = match backend.pool.origin_of(address) {
            Some(origin) => origin,
            None => return Err(LightClientError::NotConnected),
        };
        let subscription = match backend.pool.subscribe_frames(address, FRAME_BUFFER) {
            Some(subscription) => subscription,
            None => return Err(LightClientError::NotConnected),
        };
        let anchor = Anchor { address, source: subscription.source(), origin };
        self.anchor = Some(anchor);
        Ok((anchor, Some(subscription)))
    }

    /// The pinned session, without pinning one.
    pub fn current_anchor(&self) -> (anchor: Option<Anchor>)
        ensures
            anchor == self@.anchor,
    {
        self.anchor
    }

    /// The frames the pinned session goes by.
    pub fn anchor_source(&self) -> (source: Option<FrameSource>)
        ensures
            source == (match self@.anchor {
                Some(anchor) => Some(anchor.source),
                None => None,
            }),
    {
        match self.anchor {
            Some(anchor) => Some(anchor.source),
            None => None,
        }
    }

    /// Unpins the anchor if it is the session `source`. A session that has been replaced since,
    /// even at the same address, unpins nothing.
    pub fn release_anchor(&mut self, source: FrameSource)
        ensures
            final(self)@ == old(self)@.released(source),
    {
        if let Some(anchor) = self.anchor {
            if anchor.source == source {
                self.anchor = None;
                self.rearm_needed = true;
            }
        }
    }

    /// Unpins the anchor if it is held at `address`.
    pub fn release_anchor_at(&mut self, address: SocketAddr)
        ensures
            final(self)@ == old(self)@.released_at(address),
    {
        if let Some(anchor) = self.anchor {
            if anchor.address == address {
                self.anchor = None;
                self.rearm_needed = true;
            }
        }
    }

    /// The peer a read is to be sent to: the anchor where it arms a subscription, and otherwise
    /// the peer in turn.
    pub fn session<C>(&mut self, backend: &mut PeerBackend<C>, subscribe: bool) -> (chosen: Result<
        (SocketAddr, Option<FrameSubscription>),
        LightClientError,
    >)
        requires
            old(backend).pool@.wf(),
        ensures
            final(backend).pool@.wf(),
            final(backend).network == old(backend).network,
            subscribe ==> exists|pinned: Result<(Anchor, Option<FrameSubscription>), LightClientError>|
                #[trigger] is_anchoring(
                    old(self)@,
                    old(backend).pool@,
                    final(self)@,
                    final(backend).pool@,
                    pinned,
                ) && chosen == (match pinned {
                    Ok((anchor, subscription)) => Ok((anchor.address, subscription)),
                    Err(e) => Err(e),
                }),
            !subscribe ==> {
                &&& final(self)@ == old(self)@
                &&& final(backend).pool@ == old(backend).pool@.turned()
                &&& match chosen {
                    Ok((address, subscription)) => old(backend).pool@.entries.len() > 0 && address
                        == old(backend).pool@.in_turn() && subscription is None,
                    Err(e) => old(backend).pool@.entries.len() == 0 && (
                    e matches LightClientError::Transport(text) && text@
                        == ErrorView::PeerConnection("no peers available"@).text()),
                }
            },
    {
        if subscribe {
            match self.anchor(backend) {
                Ok((anchor, subscription)) => Ok((anchor.address, subscription)),
                Err(e) => Err(e),
            }
        } else {
            match backend.pick() {
                Ok(address) => Ok((address, None)),
                Err(e) => Err(LightClientError::Transport(e.message())),
            }
        }
    }

    /// Drops a peer that failed a read from the pool, and unpins it if it was the anchor.
    pub fn discard<C>(&mut self, backend: &mut PeerBackend<C>, address: SocketAddr)
        requires
            old(backend).pool@.wf(),
        ensures
            final(backend).pool@.wf(),
            final(backend).network == old(backend).network,
            final(backend).pool@ == old(backend).pool@.without(address),
            final(self)@ == old(self)@.released_at(address),
    {
        backend.pool.eject_peer(address);
        self.release_anchor_at(address);
    }

    /// Discards the peer at `address` if what it was asked for failed.
    pub fn keep_or_discard<C, T>(
        &mut self,
        backend: &mut PeerBackend<C>,
        address: SocketAddr,
        outcome: Result<T, LightClientError>,
    ) -> (same: Result<T, LightClientError>)
        requires
            old(backend).pool@.wf(),
        ensures
            same == outcome,
            final(backend).pool@.wf(),
            final(backend).network == old(backend).network,
            outcome is Ok ==> final(self)@ == old(self)@ && final(backend).pool@ == old(
                backend,
            ).pool@,
            outcome is Err ==> final(self)@ == old(self)@.released_at(address)
                && final(backend).pool@ == old(backend).pool@.without(address),
    {
        if outcome.is_err() {
            self.discard(backend, address);
        }
        outcome
    }
}

/// Whether `outcome` is what a light client makes of `reply`, with `rejected` as the text of a
/// refusal.
pub open spec fn is_taken<T>(
    reply: Reply<T>,
    rejected: Seq<char>,
    outcome: Result<T, LightClientError>,
) -> bool {
    match (outcome, reply) {
        (Ok(value), Reply::Answered(sent)) => value == sent,
        (Err(e), Reply::TimedOut) => e is Timeout,
        (Err(e), Reply::Failed(text)) => e == LightClientError::Transport(text),
        (Err(e), Reply::Rejected) => e matches LightClientError::Rejected(text) && text@ == rejected,
        _ => false,
    }
}

/// Whether `outcome` is what a light client makes of `response`.
pub open spec fn is_received<T>(response: Response<T>, outcome: Result<T, LightClientError>) -> bool {
    match (outcome, response) {
        (Ok(value), Response::Answered(sent)) => value == sent,
        (Err(e), Response::TimedOut) => e is Timeout,
        (Err(e), Response::Failed(text)) => e == LightClientError::Transport(text),
        _ => false,
    }
}

/// A reply as a light client takes it, with `rejected` as the text of a refusal.
pub fn light_reply<T>(reply: Reply<T>, rejected: &str) -> (outcome: Result<T, LightClientError>)
    ensures
        is_taken(reply, rejected@, outcome),
{
    match reply {
        Reply::TimedOut => Err(LightClientError::Timeout),
        Reply::Failed(text) => Err(LightClientError::Transport(text)),
        Reply::Rejected => Err(LightClientError::Rejected(String::from_str(rejected))),
        Reply::Answered(value) => Ok(value),
    }
}

/// A response as a light client takes it.
pub fn light_response<T>(response: Response<T>) -> (outcome: Result<T, LightClientError>)
    ensures
        is_received(response, outcome),
{
    match response {
        Response::TimedOut => Err(LightClientError::Timeout),
        Response::Failed(text) => Err(LightClientError::Transport(text)),
        Response::Answered(value) => Ok(value),
    }
}

/// Whether a read of the peer at `address` leads from one fetcher and pool to the others: a peer
/// that failed it is dropped, and unpinned if it was the anchor.
pub open spec fn is_settled<C>(
    fetcher: FetcherView,
    pool: PoolView<C>,
    address: SocketAddr,
    succeeded: bool,
    fetcher_after: FetcherView,
    pool_after: PoolView<C>,
) -> bool {
    if succeeded {
        fetcher_after == fetcher && pool_after == pool
    } else {
        fetcher_after == fetcher.released_at(address) && pool_after == pool.without(address)
    }
}

impl PooledFetcher {
    /// The states of some coins, as the peer at `address` sent them.
    pub fn coin_states<C>(
        &mut self,
        backend: &mut PeerBackend<C>,
        address: SocketAddr,
        reply: Reply<Vec<CoinState>>,
    ) -> (states: Result<Vec<CoinState>, LightClientError>)
        requires
            old(backend).pool@.wf(),
        ensures
            final(backend).pool@.wf(),
            final(backend).network == old(backend).network,
            is_taken(reply, "coin-state request rejected"@, states),
            is_settled(
                old(self)@,
                old(backend).pool@,
                address,
                states is Ok,
                final(self)@,
                final(backend).pool@,
            ),
    {
        self.keep_or_discard(backend, address, light_reply(reply, "coin-state request rejected"))
    }

    /// The children of a coin, as the peer at `address` sent them.
    pub fn children<C>(
        &mut self,
        backend: &mut PeerBackend<C>,
        address: SocketAddr,
        response: Response<Vec<CoinState>>,
    ) -> (states: Result<Vec<CoinState>, LightClientError>)
        requires
            old(backend).pool@.wf(),
        ensures
            final(backend).pool@.wf(),
            final(backend).network == old(backend).network,
            is_received(response, states),
            is_settled(
                old(self)@,
                old(backend).pool@,
                address,
                states is Ok,
                final(self)@,
                final(backend).pool@,
            ),
    {
        self.keep_or_discard(backend, address, light_response(response))
    }

    /// The puzzle and the solution that spent a coin, as the peer at `address` sent them. The coin
    /// is known to be spent, so a refusal is not an absence.
    pub fn puzzle_and_solution<C>(
        &mut self,
        backend: &mut PeerBackend<C>,
        address: SocketAddr,
        reply: Reply<(Vec<u8>, Vec<u8>)>,
    ) -> (spend: Result<(Vec<u8>, Vec<u8>), LightClientError>)
        requires
            old(backend).pool@.wf(),
        ensures
            final(backend).pool@.wf(),
            final(backend).network == old(backend).network,
            is_taken(reply, "peer rejected puzzle/solution for a known-spent coin"@, spend),
            is_settled(
                old(self)@,
                old(backend).pool@,
                address,
                spend is Ok,
                final(self)@,
                final(backend).pool@,
            ),
    {
        self.keep_or_discard(
            backend,
            address,
            light_reply(reply, "peer rejected puzzle/solution for a known-spent coin"),
        )
    }

    /// The acknowledgement of a transaction, as the peer at `address` sent it.
    pub fn send_transaction<C>(
        &mut self,
        backend: &mut PeerBackend<C>,
        address: SocketAddr,
        response: Response<(u8, Option<String>)>,
    ) -> (ack: Result<(u8, Option<String>), LightClientError>)
        requires
            old(backend).pool@.wf(),
        ensures
            final(backend).pool@.wf(),
            final(backend).network == old(backend).network,
            is_received(response, ack),
            is_settled(
                old(self)@,
                old(backend).pool@,
                address,
                ack is Ok,
                final(self)@,
                final(backend).pool@,
            ),
    {
        self.keep_or_discard(backend, address, light_response(response))
    }

    /// Whether the peer at `address` has dropped a subscription to some coins.
    pub fn remove_coin_subscriptions<C>(
        &mut self,
        backend: &mut PeerBackend<C>,
        address: SocketAddr,
        response: Response<()>,
    ) -> (removed: Result<(), LightClientError>)
        requires
            old(backend).pool@.wf(),
        ensures
            final(backend).pool@.wf(),
            final(backend).network == old(backend).network,
            is_received(response, removed),
            is_settled(
                old(self)@,
                old(backend).pool@,
                address,
                removed is Ok,
                final(self)@,
                final(backend).pool@,
            ),
    {
        self.keep_or_discard(backend, address, light_response(response))
    }
}

/// What a page does to a paged read.
pub enum PagedStep {
    /// The read is complete.
    Complete(Vec<CoinState>),
    /// The read is refused.
    Refused(LightClientError),
    /// Ask for the page after this height, whose header is this.
    Next(Option<u32>, Bytes32),
}

/// How far a paged read has come.
#[verifier::ext_equal]
pub struct PagedView {
    pub states: Seq<CoinState>,
    pub previous_height: Option<u32>,
    pub header_hash: Bytes32,
    pub pages: nat,
}

impl PagedView {
    /// Whether `page` carries the read past the most coins it may gather.
    pub open spec fn overflows(self, page: PuzzleStatePage) -> bool {
        self.states.len() + page.coin_states@.len() > MAX_ACCUMULATED_COIN_STATES
    }

    /// Whether `page` goes no further than the page before it.
    pub open spec fn stalls(self, page: PuzzleStatePage) -> bool {
        self.previous_height matches Some(previous) && page.height <= previous
    }

    /// Whether `page` is the last the read may take.
    pub open spec fn runs_out(self) -> bool {
        self.pages + 1 >= MAX_PUZZLE_STATE_PAGES
    }
}

/// Whether taking `page` leads from one read to the other, with the outcome `step`.
pub open spec fn is_paged(
    read: PagedView,
    page: PuzzleStatePage,
    step: PagedStep,
    after: PagedView,
) -> bool {
    &&& after.pages == read.pages + 1
    &&& match step {
        PagedStep::Complete(states) => {
            &&& !read.overflows(page) && page.is_finished
            &&& states@ == read.states + page.coin_states@
        },
        PagedStep::Refused(e) => if read.overflows(page) {
            e matches LightClientError::Rejected(text) && text@
                == "puzzle-state response exceeded 500000 coins"@
        } else {
            &&& !page.is_finished
            &&& if read.stalls(page) {
                e matches LightClientError::Rejected(text) && text@
                    == "puzzle-state paging did not advance the height"@
            } else {
                read.runs_out() && (e matches LightClientError::Rejected(text) && text@
                    == "puzzle-state paging exceeded 10000 pages"@)
            }
        },
        PagedStep::Next(height, header) => {
            &&& !read.overflows(page) && !page.is_finished && !read.stalls(page)
                && !read.runs_out()
            &&& height == Some(page.height) && header == page.header_hash
            &&& after == PagedView {
                states: read.states + page.coin_states@,
                previous_height: height,
                header_hash: header,
                pages: read.pages + 1,
            }
        },
    }
}

/// A paged read in progress. The peer is not trusted to end it, to make progress, or to keep it
/// small.
pub struct PagedRead {
    states: Vec<CoinState>,
    previous_height: Option<u32>,
    header_hash: Bytes32,
    pages: usize,
}

impl View for PagedRead {
    type V = PagedView;

    closed spec fn view(&self) -> PagedView {
        PagedView {
            states: self.states@,
            previous_height: self.previous_height,
            header_hash: self.header_hash,
            pages: self.pages as nat,
        }
    }
}

impl PagedRead {
    /// Fewer pages have been taken than may be.
    pub open spec fn wf(&self) -> bool {
        self@.pages < MAX_PUZZLE_STATE_PAGES
    }

    /// A read from the beginning of the chain.
    pub fn start(genesis_challenge: Bytes32) -> (read: Self)
        ensures
            read.wf(),
            read@ == (PagedView {
                states: Seq::empty(),
                previous_height: None,
                header_hash: genesis_challenge,
                pages: 0,
            }),
    {
        PagedRead {
            states: Vec::new(),
            previous_height: None,
            header_hash: genesis_challenge,
            pages: 0,
        }
    }

    /// Where the next page is to be asked from.
    pub fn position(&self) -> (from: (Option<u32>, Bytes32))
        ensures
            from == (self@.previous_height, self@.header_hash),
    {
        (self.previous_height, self.header_hash)
    }

    /// Takes what came back of a request for a page.
    pub fn page(&mut self, reply: Reply<PuzzleStatePage>) -> (step: PagedStep)
        requires
            old(self).wf(),
        ensures
            match reply {
                Reply::Answered(page) => is_paged(old(self)@, page, step, final(self)@),
                _ => {
                    &&& step matches PagedStep::Refused(e) && is_taken(
                        reply,
                        "puzzle-state request rejected"@,
                        Err(e),
                    )
                    &&& final(self)@ == old(self)@
                },
            },
            step is Next ==> final(self).wf(),
            final(self)@.pages <= MAX_PUZZLE_STATE_PAGES,
    {
        let page = match light_reply(reply, "puzzle-state request rejected") {
            Ok(page) => page,
            Err(e) => return PagedStep::Refused(e),
        };
        let PuzzleStatePage { mut coin_states, height, header_hash, is_finished } = page;
        let fits: bool = self.states.len() <= MAX_ACCUMULATED_COIN_STATES && coin_states.len()
            <= MAX_ACCUMULATED_COIN_STATES - self.states.len();
        self.pages = self.pages + 1;
        if !fits {
            return PagedStep::Refused(
                LightClientError::Rejected(
                    String::from_str("puzzle-state response exceeded 500000 coins"),
                ),
            );
        }
        self.states.append(&mut coin_states);
        if is_finished {
            let mut states: Vec<CoinState> = Vec::new();
            states.append(&mut self.states);
            assert(states@ =~= old(self)@.states + page.coin_states@);
            return PagedStep::Complete(states);
        }
        if let Some(previous) = self.previous_height {
            if height <= previous {
                return PagedStep::Refused(
                    LightClientError::Rejected(
                        String::from_str("puzzle-state paging did not advance the height"),
                    ),
                );
            }
        }
        self.previous_height = Some(height);
        self.header_hash = header_hash;
        if self.pages >= MAX_PUZZLE_STATE_PAGES {
            return PagedStep::Refused(
                LightClientError::Rejected(
                    String::from_str("puzzle-state paging exceeded 10000 pages"),
                ),
            );
        }
        PagedStep::Next(Some(height), header_hash)
    }
}

/// A read that stays in progress stays bounded: every page it takes leaves it with no more coins
/// and no more pages than it may have.
pub proof fn law_paged_read_is_bounded(read: PagedView, page: PuzzleStatePage)
    requires
        !read.overflows(page),
        !read.runs_out(),
    ensures
        (read.states + page.coin_states@).len() <= MAX_ACCUMULATED_COIN_STATES,
        read.pages + 1 < MAX_PUZZLE_STATE_PAGES,
{
}

/// The end of a session that is not the anchor leaves the anchor alone, and one that is asks for
/// the subscriptions to be armed again.
pub proof fn law_only_the_anchors_end_unpins_it(fetcher: FetcherView, source: FrameSource)
    ensures
        fetcher.released(source) == fetcher || (fetcher.anchor is Some && (
        fetcher.anchor->0).source == source && fetcher.released(source).anchor is None
            && fetcher.released(source).rearm_needed),
        (fetcher.anchor is Some && (fetcher.anchor->0).source == source)
            ==> fetcher.released(source).anchor is None,
{
}

/// An anchor that is held is kept, and nothing changes.
pub proof fn law_a_held_anchor_is_kept<C>(
    fetcher: FetcherView,
    pool: PoolView<C>,
    fetcher_after: FetcherView,
    pool_after: PoolView<C>,
    pinned: Result<(Anchor, Option<FrameSubscription>), LightClientError>,
)
    requires
        fetcher.anchor is Some,
        is_anchoring(fetcher, pool, fetcher_after, pool_after, pinned),
    ensures
        pinned is Ok,
        (pinned->Ok_0).0 == fetcher.anchor->0,
        (pinned->Ok_0).1 is None,
        fetcher_after == fetcher,
        pool_after == pool,
{
}

/// Without an anchor the peer in turn is pinned as it is held, if its session runs, and that session
/// followed. Without a peer, or where its session has ended, nothing is pinned.
pub proof fn law_the_peer_in_turn_is_pinned<C>(
    fetcher: FetcherView,
    pool: PoolView<C>,
    fetcher_after: FetcherView,
    pool_after: PoolView<C>,
    pinned: Result<(Anchor, Option<FrameSubscription>), LightClientError>,
)
    requires
        fetcher.anchor is None,
        pool.fanout.next_follower < u64::MAX,
        is_anchoring(fetcher, pool, fetcher_after, pool_after, pinned),
    ensures
        ({
            let turn = pool.entries[pool.next_idx as int % pool.entries.len() as int];
            let session = FrameSource { address: turn.address, session: turn.session };
            &&& pinned is Ok <==> pool.entries.len() > 0 && pool.fanout.live.contains(session)
            &&& pinned is Ok ==> {
                let anchor = (pinned->Ok_0).0;
                let subscription = (pinned->Ok_0).1;
                &&& anchor.address == turn.address
                &&& anchor.source == session
                &&& anchor.origin == turn.origin
                &&& subscription is Some && subscription->0.spec_source() == session
                &&& fetcher_after.anchor == Some(anchor)
            }
            &&& pinned is Err ==> fetcher_after.anchor is None
            &&& pool.entries.len() == 0 ==> pinned->Err_0 is Transport
            &&& pool.entries.len() > 0 && pinned is Err ==> pinned->Err_0 is NotConnected
            &&& fetcher_after.rearm_needed == fetcher.rearm_needed
            &&& pool_after.entries == pool.entries
            &&& pool_after.max_peers == pool.max_peers
            &&& pool_after.dead == pool.dead
        }),
{
}

/// A read that fails at an address unpins the anchor exactly if it is held there, and then the
/// subscriptions have to be armed again.
pub proof fn law_only_the_anchors_failure_unpins_it(fetcher: FetcherView, address: SocketAddr)
    ensures
        ({
            let after = fetcher.released_at(address);
            let own = fetcher.anchor is Some && (fetcher.anchor->0).address == address;
            &&& own ==> after.anchor is None && after.rearm_needed
            &&& !own ==> after.anchor == fetcher.anchor && after.rearm_needed
                == fetcher.rearm_needed
        }),
{
}

/// A peer loses its place exactly if it fails the read, and no other peer ever does.
pub proof fn law_only_the_peer_that_failed_is_dropped<C>(
    fetcher: FetcherView,
    pool: PoolView<C>,
    address: SocketAddr,
    succeeded: bool,
    fetcher_after: FetcherView,
    pool_after: PoolView<C>,
    entry: crate::peer::pool::PeerEntry<C>,
)
    requires
        is_settled(fetcher, pool, address, succeeded, fetcher_after, pool_after),
    ensures
        pool_after.entries.contains(entry) <==> pool.entries.contains(entry) && (succeeded
            || entry.address != address),
        succeeded ==> fetcher_after == fetcher && pool_after == pool,
        !succeeded && fetcher.anchor is Some && (fetcher.anchor->0).address == address
            ==> fetcher_after.anchor is None && fetcher_after.rearm_needed,
{
    crate::peer::pool::law_only_the_ejected_address_is_dropped(pool, address, entry);
}

/// A light client takes exactly an answer, as it was sent; a silence is a timeout, a broken
/// connection a failure of the transport, and a refusal is told with its own words.
pub proof fn law_a_light_client_takes_only_an_answer<T>(
    reply: Reply<T>,
    response: Response<T>,
    rejected: Seq<char>,
    taken: Result<T, LightClientError>,
    received: Result<T, LightClientError>,
)
    requires
        is_taken(reply, rejected, taken),
        is_received(response, received),
    ensures
        taken is Ok <==> reply is Answered,
        taken is Ok ==> taken->Ok_0 == reply->Answered_0,
        reply is TimedOut <==> taken is Err && taken->Err_0 is Timeout,
        reply is Failed <==> taken is Err && taken->Err_0 is Transport,
        reply is Rejected <==> taken is Err && taken->Err_0 is Rejected,
        reply is Rejected ==> taken->Err_0->Rejected_0@ == rejected,
        reply is Failed ==> taken->Err_0->Transport_0 == reply->Failed_0,
        received is Ok <==> response is Answered,
        received is Ok ==> received->Ok_0 == response->Answered_0,
        response is TimedOut <==> received is Err && received->Err_0 is Timeout,
        response is Failed <==> received is Err && received->Err_0 is Transport,
        response is Failed ==> received->Err_0->Transport_0 == response->Failed_0,
{
}

/// A paged read ends with all the coins of all its pages exactly when a page says that it is the last
/// and no more than half a million coins have come. It goes on from a page that is not the last, that
/// goes further than the one before it and that is not the ten thousandth. Any other page is refused.
pub proof fn law_a_paged_read_ends_or_goes_on(
    read: PagedView,
    page: PuzzleStatePage,
    step: PagedStep,
    after: PagedView,
)
    requires
        is_paged(read, page, step, after),
    ensures
        ({
            let small = read.states.len() + page.coin_states@.len() <= 500_000;
            let advances = read.previous_height is None || read.previous_height->0 < page.height;
            &&& step is Complete <==> small && page.is_finished
            &&& step matches PagedStep::Complete(states) ==> states@ == read.states
                + page.coin_states@
            &&& step is Next <==> small && !page.is_finished && advances && read.pages + 1 < 10_000
            &&& step is Next ==> step->Next_0 == Some(page.height) && step->Next_1
                == page.header_hash && after.states == read.states + page.coin_states@
                && after.previous_height == Some(page.height) && after.header_hash
                == page.header_hash
            &&& step is Refused ==> step->Refused_0 is Rejected
            &&& after.pages == read.pages + 1
        }),
{
}

/// A read that arms no subscription goes to the peer in turn and leaves the anchor alone; one that
/// arms one goes to the anchor where there is one.
pub proof fn law_only_a_subscribing_read_goes_to_the_anchor<C>(
    fetcher: &mut PooledFetcher,
    backend: &mut PeerBackend<C>,
    subscribe: bool,
    chosen: Result<(SocketAddr, Option<FrameSubscription>), LightClientError>,
)
    requires
        call_ensures(PooledFetcher::session::<C>, (fetcher, backend, subscribe), chosen),
    ensures
        !subscribe ==> final(fetcher)@ == old(fetcher)@,
        !subscribe && old(backend).pool@.entries.len() > 0 ==> chosen is Ok && (chosen->Ok_0).0
            == old(backend).pool@.entries[old(backend).pool@.next_idx as int % old(
            backend,
        ).pool@.entries.len() as int].address && (chosen->Ok_0).1 is None,
        !subscribe && old(backend).pool@.entries.len() == 0 ==> chosen is Err
            && chosen->Err_0 is Transport,
        subscribe && old(fetcher)@.anchor is Some ==> chosen is Ok && (chosen->Ok_0).0 == (
        old(fetcher)@.anchor->0).address && (chosen->Ok_0).1 is None && final(fetcher)@
            == old(fetcher)@ && final(backend).pool@ == old(backend).pool@,
        subscribe && chosen is Ok ==> final(fetcher)@.anchor is Some && (
        final(fetcher)@.anchor->0).address == (chosen->Ok_0).0,
{
}

} // verus!
