//! The loop that keeps a light client's cache current.
//!
//! One session is followed at a time: the anchor. A newly pinned anchor is followed at once, while
//! the session before it may still be open, because nothing forces that one shut: a peer that goes
//! quiet after a failed read would otherwise hold the loop for as long as it liked.

use vstd::prelude::*;

use crate::peer::frames::{FrameSource, FrameSubscription, FrameView, PoolFrame, SourcedFrame};
use crate::protocol::{Bytes32, CoinState};

use super::cache::{CacheView, CoinStateCache};
use super::fetcher::{Anchor, PooledFetcher};

verus! {

/// Whether a frame from `source` belongs to the session that is pinned. Nothing pinned follows
/// nothing: no push could have been asked for.
pub open spec fn is_followed(anchor: Option<FrameSource>, source: FrameSource) -> bool {
    anchor == Some(source)
}

/// Whether a frame from `source` belongs to the session that is pinned.
pub fn follows(anchor: Option<FrameSource>, source: FrameSource) -> (followed: bool)
    ensures
        followed == is_followed(anchor, source),
{
    match anchor {
        Some(anchored) => anchored == source,
        None => false,
    }
}

/// What has to be done about the session once a frame has been applied.
#[derive(Clone, Copy, Debug, PartialEq, Eq, Structural)]
pub enum AfterFrame {
    Continue,
    /// The session is gone: unpin it, and have the subscriptions armed again.
    Resubscribe,
}

/// Whether a state reports its coin spent.
pub open spec fn is_spent() -> spec_fn(CoinState) -> bool {
    |s: CoinState| s.spent_height is Some
}

/// The ids of the coins that `items` report spent, in order.
pub open spec fn spent_ids(items: Seq<CoinState>) -> Seq<Bytes32> {
    items.filter(is_spent()).map_values(|s: CoinState| s.coin.id())
}

/// A cache after a frame of the followed session. A coin that is reported spent is no longer
/// subscribed to, and its state stays.
pub open spec fn applied(cache: CacheView, frame: FrameView) -> CacheView {
    match frame {
        FrameView::Reset => cache,
        FrameView::Peak { height, header_hash } => cache.with_peak(height, header_hash, false),
        FrameView::CoinStates { height, fork_height, peak_hash, items } => {
            let updated = cache.updated(items, height, fork_height, peak_hash);
            CacheView {
                subscribed_coins: updated.subscribed_coins.difference(spent_ids(items).to_set()),
                ..updated
            }
        },
        FrameView::SessionEnded { reason } => cache,
    }
}

/// The ids of the coins that `items` report spent.
fn collect_spent(items: &[CoinState]) -> (ids: Vec<Bytes32>)
    ensures
        ids@ == spent_ids(items@),
{
    let mut ids: Vec<Bytes32> = Vec::new();
    let mut i: usize = 0;
    proof {
        reveal(Seq::filter);
    }
    while i < items.len()
        invariant
            i <= items.len(),
            ids@ == spent_ids(items@.take(i as int)),
        decreases items.len() - i,
    {
        proof {
            assert(items@.take(i + 1) =~= items@.take(i as int).push(items@[i as int]));
            items@.take(i as int).lemma_filter_push(items@[i as int], is_spent());
        }
        if items[i].spent_height.is_some() {
            let id = items[i].coin.coin_id();
            assert(spent_ids(items@.take(i + 1)) =~= spent_ids(items@.take(i as int)).push(id));
            ids.push(id);
        }
        i = i + 1;
    }
    assert(items@.take(i as int) =~= items@);
    ids
}

/// Applies a frame of the followed session.
///
/// The reset that opens a subscription says nothing new: it arrives because the anchor was pinned.
/// A session that is replaced says so by ending.
pub fn apply_frame(cache: &mut CoinStateCache, frame: PoolFrame) -> (after: AfterFrame)
    requires
        old(cache).wf(),
    ensures
        final(cache).wf(),
        final(cache)@ == applied(old(cache)@, frame@),
        after == (if frame is SessionEnded {
            AfterFrame::Resubscribe
        } else {
            AfterFrame::Continue
        }),
{
    match frame {
        PoolFrame::Reset => AfterFrame::Continue,
        PoolFrame::Peak { height, header_hash } => {
            cache.set_peak(height, header_hash);
            AfterFrame::Continue
        },
        PoolFrame::CoinStates { height, fork_height, peak_hash, items } => {
            let spent = collect_spent(items.as_slice());
            cache.apply_update(items.as_slice(), height, fork_height, peak_hash);
            cache.untrack_coins(spent.as_slice());
            AfterFrame::Continue
        },
        PoolFrame::SessionEnded { .. } => AfterFrame::Resubscribe,
    }
}

/// What the loop waits for next.
#[derive(Clone, Copy, Debug, PartialEq, Eq, Structural)]
pub enum Wait {
    /// The loop is over: nothing is followed and nothing can be.
    Nothing,
    /// A newly pinned anchor.
    Anchoring,
    /// A frame of the followed session.
    Frame,
    /// Either, and a newly pinned anchor before a frame.
    AnchoringOrFrame,
}

/// What a wait came to.
pub enum Turn {
    /// A newly pinned anchor's subscription, or nothing once no further anchor can be pinned.
    Anchored(Option<FrameSubscription>),
    /// A frame of the followed session, or nothing once its subscription has ended.
    Received(Option<SourcedFrame>),
}

/// The session followed, and whether another anchor can still be pinned.
pub struct DriveLoop {
    pub followed: Option<FrameSubscription>,
    pub anchorings_open: bool,
}

impl DriveLoop {
    /// A loop that follows nothing yet.
    pub fn new() -> (drive: Self)
        ensures
            drive.followed is None,
            drive.anchorings_open,
    {
        DriveLoop { followed: None, anchorings_open: true }
    }

    /// What to wait for. A session that is followed is drained even when no further anchor can be
    /// pinned.
    pub fn wait(&self) -> (wait: Wait)
        ensures
            wait == (match (self.followed is Some, self.anchorings_open) {
                (false, false) => Wait::Nothing,
                (false, true) => Wait::Anchoring,
                (true, false) => Wait::Frame,
                (true, true) => Wait::AnchoringOrFrame,
            }),
    {
        match (self.followed.is_some(), self.anchorings_open) {
            (false, false) => Wait::Nothing,
            (false, true) => Wait::Anchoring,
            (true, false) => Wait::Frame,
            (true, true) => Wait::AnchoringOrFrame,
        }
    }

    /// Takes what a wait came to, and gives back the subscription that is no longer followed.
    ///
    /// A frame is applied only if it comes from the session that is pinned now: between a failed
    /// read and the next anchor, frames of a session that is no longer relied on still arrive.
    pub fn turn(
        &mut self,
        turn: Turn,
        cache: &mut CoinStateCache,
        fetcher: &mut PooledFetcher,
    ) -> (superseded: Option<FrameSubscription>)
        requires
            old(cache).wf(),
            turn matches Turn::Received(_) ==> old(self).followed is Some,
        ensures
            final(cache).wf(),
            match turn {
                Turn::Anchored(Some(next)) => {
                    &&& final(self).followed == Some(next)
                    &&& superseded == old(self).followed
                    &&& final(self).anchorings_open == old(self).anchorings_open
                    &&& final(cache)@ == old(cache)@
                    &&& final(fetcher)@ == old(fetcher)@
                },
                Turn::Anchored(None) => {
                    &&& final(self).followed == old(self).followed
                    &&& superseded is None
                    &&& !final(self).anchorings_open
                    &&& final(cache)@ == old(cache)@
                    &&& final(fetcher)@ == old(fetcher)@
                },
                Turn::Received(Some(sourced)) => {
                    let followed = old(fetcher)@.anchor matches Some(anchor) && anchor.source
                        == sourced.source;
                    &&& final(self).followed == old(self).followed
                    &&& superseded is None
                    &&& final(self).anchorings_open == old(self).anchorings_open
                    &&& final(cache)@ == if followed {
                        applied(old(cache)@, sourced.frame@)
                    } else {
                        old(cache)@
                    }
                    &&& final(fetcher)@ == if followed && sourced.frame is SessionEnded {
                        old(fetcher)@.released(old(self).followed->0.spec_source())
                    } else {
                        old(fetcher)@
                    }
                },
                Turn::Received(None) => {
                    &&& final(self).followed is None
                    &&& superseded == old(self).followed
                    &&& final(self).anchorings_open == old(self).anchorings_open
                    &&& final(cache)@ == old(cache)@
                    &&& final(fetcher)@ == old(fetcher)@.released(
                        old(self).followed->0.spec_source(),
                    )
                },
            },
    {
        match turn {
            Turn::Anchored(Some(next)) => {
                let superseded = self.followed.take();
                self.followed = Some(next);
                superseded
            },
            Turn::Anchored(None) => {
                self.anchorings_open = false;
                None
            },
            Turn::Received(Some(sourced)) => {
                let anchor = fetcher.anchor_source();
                if follows(anchor, sourced.source) {
                    if let AfterFrame::Resubscribe = apply_frame(cache, sourced.frame) {
                        if let Some(subscription) = &self.followed {
                            fetcher.release_anchor(subscription.source());
                        }
                    }
                }
                None
            },
            Turn::Received(None) => {
                if let Some(subscription) = &self.followed {
                    fetcher.release_anchor(subscription.source());
                }
                self.followed.take()
            },
        }
    }
}

/// A frame of a session that is not pinned changes nothing.
pub proof fn law_unpinned_session_is_not_followed(anchor: Option<Anchor>, source: FrameSource)
    requires
        anchor matches Some(pinned) ==> pinned.source != source,
    ensures
        !is_followed(
            match anchor {
                Some(pinned) => Some(pinned.source),
                None => None,
            },
            source,
        ),
{
}

/// What a spent coin's state says stays readable once the coin is no longer subscribed to.
pub proof fn law_spent_coin_keeps_its_state(
    cache: CacheView,
    height: u32,
    fork_height: u32,
    peak_hash: Bytes32,
    items: Seq<CoinState>,
)
    ensures
        ({
            let frame = FrameView::CoinStates { height, fork_height, peak_hash, items };
            &&& applied(cache, frame).coins == cache.updated(
                items,
                height,
                fork_height,
                peak_hash,
            ).coins
            &&& forall|i: int|
                0 <= i < items.len() && items[i].spent_height is Some ==> !applied(
                    cache,
                    frame,
                ).subscribed_coins.contains((#[trigger] items[i]).coin.id())
        }),
{
    let frame = FrameView::CoinStates { height, fork_height, peak_hash, items };
    assert forall|i: int| 0 <= i < items.len() && items[i].spent_height is Some implies !applied(
        cache,
        frame,
    ).subscribed_coins.contains((#[trigger] items[i]).coin.id()) by {
        items.lemma_filter_contains(is_spent(), i);
        let spent = items.filter(is_spent());
        let j = choose|j: int| 0 <= j < spent.len() && spent[j] == items[i];
        assert(spent_ids(items)[j] == items[i].coin.id());
        assert(spent_ids(items).to_set().contains(items[i].coin.id()));
    }
}

/// A frame of coin states ends the subscription to exactly the coins it reports spent.
pub proof fn law_only_spent_coins_are_no_longer_subscribed_to(
    cache: CacheView,
    height: u32,
    fork_height: u32,
    peak_hash: Bytes32,
    items: Seq<CoinState>,
    id: Bytes32,
)
    ensures
        ({
            let after = applied(
                cache,
                FrameView::CoinStates { height, fork_height, peak_hash, items },
            );
            let updated = cache.updated(items, height, fork_height, peak_hash);
            &&& after.subscribed_coins.contains(id) <==> cache.subscribed_coins.contains(id)
                && !exists|i: int|
                0 <= i < items.len() && (#[trigger] items[i]).coin.id() == id
                    && items[i].spent_height is Some
            &&& after.subscribed_puzzle_hashes == cache.subscribed_puzzle_hashes
            &&& after.peak == updated.peak
            &&& after.coins == updated.coins
        }),
{
    super::cache::law_an_update_moves_the_peak(cache, items, height, fork_height, peak_hash);
    let spent = items.filter(is_spent());
    if spent_ids(items).contains(id) {
        let k = choose|k: int| 0 <= k < spent_ids(items).len() && spent_ids(items)[k] == id;
        items.lemma_filter_pred(is_spent(), k);
        assert(spent.contains(spent[k]));
        items.lemma_filter_contains_rev(is_spent(), spent[k]);
        let i = choose|i: int| 0 <= i < items.len() && items[i] == spent[k];
        assert(items[i].coin.id() == id && items[i].spent_height is Some);
    }
    if exists|i: int|
        0 <= i < items.len() && (#[trigger] items[i]).coin.id() == id
            && items[i].spent_height is Some {
        let i = choose|i: int|
            0 <= i < items.len() && (#[trigger] items[i]).coin.id() == id
                && items[i].spent_height is Some;
        items.lemma_filter_contains(is_spent(), i);
        let k = choose|k: int| 0 <= k < spent.len() && spent[k] == items[i];
        assert(spent_ids(items)[k] == id);
    }
}

/// A reset and the end of a session say nothing of any coin, and a peak that is no lower than the one
/// held is taken with its header.
pub proof fn law_other_frames_move_the_peak_only(cache: CacheView, height: u32, header_hash: Bytes32)
    ensures
        applied(cache, FrameView::Reset) == cache,
        forall|reason: crate::peer::frames::SessionEndReason| #[trigger]
            applied(cache, FrameView::SessionEnded { reason }) == cache,
        cache.peak is None || (cache.peak->0).0 <= height ==> applied(
            cache,
            FrameView::Peak { height, header_hash },
        ).peak == Some((height, header_hash)),
        cache.peak is Some && (cache.peak->0).0 > height ==> applied(
            cache,
            FrameView::Peak { height, header_hash },
        ) == cache,
{
}

/// A frame of the pinned session is followed.
pub proof fn law_the_pinned_session_is_followed(anchor: Option<FrameSource>, source: FrameSource)
    ensures
        is_followed(anchor, source) <==> anchor is Some && (anchor->0).address == source.address && (
        anchor->0).session == source.session,
{
}

/// The loop is over exactly if nothing is followed and nothing can be pinned; until then it waits for
/// whatever can still come.
pub proof fn law_the_loop_waits_for_what_can_still_come(drive: DriveLoop, wait: Wait)
    requires
        call_ensures(DriveLoop::wait, (&drive,), wait),
    ensures
        wait is Nothing <==> drive.followed is None && !drive.anchorings_open,
        wait is Frame || wait is AnchoringOrFrame <==> drive.followed is Some,
        wait is Anchoring || wait is AnchoringOrFrame <==> drive.anchorings_open,
{
}

/// Between a failed read and the next anchor nothing is applied: a frame changes the cache only if it
/// comes from the session that is pinned. The end of that session unpins it, and so does the end of
/// the subscription to it; a newly pinned anchor is followed at once.
pub proof fn law_only_the_pinned_session_is_applied(
    drive: &mut DriveLoop,
    turn: Turn,
    cache: &mut CoinStateCache,
    fetcher: &mut PooledFetcher,
    superseded: Option<FrameSubscription>,
)
    requires
        call_ensures(DriveLoop::turn, (drive, turn, cache, fetcher), superseded),
    ensures
        turn matches Turn::Received(Some(sourced)) ==> {
            let pinned = old(fetcher)@.anchor is Some && (old(fetcher)@.anchor->0).source
                == sourced.source;
            &&& !pinned ==> final(cache)@ == old(cache)@ && final(fetcher)@ == old(fetcher)@
            &&& pinned && !(sourced.frame is SessionEnded) ==> final(fetcher)@ == old(fetcher)@
            &&& pinned ==> final(cache)@ == applied(old(cache)@, sourced.frame@)
            &&& superseded is None
        },
        turn matches Turn::Received(None) ==> final(drive).followed is None && superseded == old(
            drive,
        ).followed && final(cache)@ == old(cache)@,
        turn matches Turn::Anchored(Some(next)) ==> final(drive).followed == Some(next)
            && superseded == old(drive).followed && final(cache)@ == old(cache)@ && final(fetcher)@
            == old(fetcher)@,
        turn matches Turn::Anchored(None) ==> !final(drive).anchorings_open
            && final(drive).followed == old(drive).followed && final(cache)@ == old(cache)@,
        !(turn matches Turn::Anchored(None)) ==> final(drive).anchorings_open == old(
            drive,
        ).anchorings_open,
{
}

/// A session that ends has the subscriptions armed again, and no other frame does.
pub proof fn law_only_an_ended_session_is_subscribed_to_again(
    cache: &mut CoinStateCache,
    frame: PoolFrame,
    after: AfterFrame,
)
    requires
        call_ensures(apply_frame, (cache, frame), after),
    ensures
        after is Resubscribe <==> frame is SessionEnded,
        frame is SessionEnded || frame is Reset ==> final(cache)@ == old(cache)@,
        frame matches PoolFrame::Peak { height, header_hash } ==> final(cache)@.peak is Some && (
        final(cache)@.peak->0).0 >= height,
{
}

} // verus!
