//! The walk through every coin at some puzzle hashes, page by page.
//!
//! The walk asks for spent coins and filters nothing, whatever the caller wants to see: a coin
//! that one source leaves out could not be brought back when the sets are compared.

use vstd::prelude::*;

use crate::hexadecimal::{parse_bytes32, read_bytes32};
use crate::protocol::{Bytes32, CoinState, CoinStateFilters, PuzzleStatePage};
use crate::text::{decimal, decimal_text};
use crate::types::{records_view, texts_view, ChiaQueryError, CoinRecord, ErrorView};

use super::plurality::PEAK_LAG_TOLERANCE;
use super::reads::{take, taken, Reply};
use super::set_agreement::{as_of_is_supported, HeightedSet};
use super::translate::{coin_states_to_records, records_of};

verus! {

/// Reads `texts` as ids, up to the first that is not one.
pub open spec fn read_ids(texts: Seq<Seq<char>>) -> Result<Seq<Seq<u8>>, ErrorView>
    decreases texts.len(),
{
    if texts.len() == 0 {
        Ok(Seq::empty())
    } else {
        match read_ids(texts.drop_last()) {
            Err(e) => Err(e),
            Ok(ids) => match read_bytes32(texts.last()) {
                Err(e) => Err(e),
                Ok(id) => Ok(ids.push(id)),
            },
        }
    }
}

/// The bytes of each of `ids`, in order.
pub open spec fn ids_view(ids: Seq<Bytes32>) -> Seq<Seq<u8>> {
    ids.map_values(|id: Bytes32| id@)
}

/// Reads `texts` as ids.
pub fn parse_ids(texts: &[String]) -> (ids: Result<Vec<Bytes32>, ChiaQueryError>)
    ensures
        match ids {
            Ok(i) => read_ids(texts_view(texts@)) == Ok::<Seq<Seq<u8>>, ErrorView>(ids_view(i@)),
            Err(e) => read_ids(texts_view(texts@)) == Err::<Seq<Seq<u8>>, ErrorView>(e@),
        },
{
    let ghost all = texts_view(texts@);
    let mut ids: Vec<Bytes32> = Vec::new();
    let mut i: usize = 0;
    assert(ids_view(ids@) =~= Seq::<Seq<u8>>::empty());
    while i < texts.len()
        invariant
            i <= texts.len(),
            all == texts_view(texts@),
            read_ids(all.take(i as int)) == Ok::<Seq<Seq<u8>>, ErrorView>(ids_view(ids@)),
        decreases texts.len() - i,
    {
        assert(all.take(i + 1).drop_last() =~= all.take(i as int));
        match parse_bytes32(texts[i].as_str()) {
            Ok(id) => {
                assert(ids_view(ids@.push(id)) =~= ids_view(ids@).push(id@));
                ids.push(id);
            },
            Err(e) => {
                proof {
                    lemma_error_stays(all, i + 1);
                }
                return Err(e);
            },
        }
        i = i + 1;
    }
    assert(all.take(i as int) =~= all);
    Ok(ids)
}

proof fn lemma_error_stays(texts: Seq<Seq<char>>, n: int)
    requires
        0 <= n <= texts.len(),
        read_ids(texts.take(n)) is Err,
    ensures
        read_ids(texts) == read_ids(texts.take(n)),
    decreases texts.len(),
{
    if n == texts.len() {
        assert(texts.take(n) =~= texts);
    } else {
        assert(texts.drop_last().take(n) =~= texts.take(n));
        lemma_error_stays(texts.drop_last(), n);
    }
}

/// How far a walk has come.
#[verifier::ext_equal]
pub struct WalkView {
    pub states: Seq<CoinState>,
    pub previous_height: Option<u32>,
    pub previous_header: Bytes32,
}

impl WalkView {
    /// The walk after `page`. The last page leaves the position alone.
    pub open spec fn after(self, page: PuzzleStatePage) -> WalkView {
        if page.is_finished {
            WalkView { states: self.states + page.coin_states@, ..self }
        } else {
            WalkView {
                states: self.states + page.coin_states@,
                previous_height: Some(page.height),
                previous_header: page.header_hash,
            }
        }
    }

    /// The walk after `pages`, in order.
    pub open spec fn after_all(self, pages: Seq<PuzzleStatePage>) -> WalkView
        decreases pages.len(),
    {
        if pages.len() == 0 {
            self
        } else {
            self.after_all(pages.drop_last()).after(pages.last())
        }
    }
}

/// The coins of `pages`, in order.
pub open spec fn states_of(pages: Seq<PuzzleStatePage>) -> Seq<CoinState>
    decreases pages.len(),
{
    if pages.len() == 0 {
        Seq::empty()
    } else {
        states_of(pages.drop_last()) + pages.last().coin_states@
    }
}

/// A walk in progress.
pub struct PuzzleStateWalk {
    states: Vec<CoinState>,
    previous_height: Option<u32>,
    previous_header: Bytes32,
}

impl View for PuzzleStateWalk {
    type V = WalkView;

    closed spec fn view(&self) -> WalkView {
        WalkView {
            states: self.states@,
            previous_height: self.previous_height,
            previous_header: self.previous_header,
        }
    }
}

/// How an announced peak is written in a message.
pub open spec fn announcement(announced: Option<u32>) -> Seq<char> {
    match announced {
        Some(peak) => "Some("@ + decimal(peak as nat) + ")"@,
        None => "None"@,
    }
}

fn announcement_text(announced: Option<u32>) -> (text: String)
    ensures
        text@ == announcement(announced),
{
    match announced {
        Some(peak) => {
            let number = decimal_text(peak as u64);
            String::from_str("Some(").concat(number.as_str()).concat(")")
        },
        None => String::from_str("None"),
    }
}

impl PuzzleStateWalk {
    /// A walk from the beginning of the chain. The protocol wants the header of the height it
    /// goes on from, and the genesis challenge is the only one known beforehand.
    pub fn start(genesis_challenge: Bytes32) -> (walk: Self)
        ensures
            walk@ == (WalkView {
                states: Seq::empty(),
                previous_height: None,
                previous_header: genesis_challenge,
            }),
    {
        PuzzleStateWalk {
            states: Vec::new(),
            previous_height: None,
            previous_header: genesis_challenge,
        }
    }

    /// Which coins a walk asks for: the spent ones too, whatever the caller wants to see. A coin
    /// that a peer a block ahead has seen spent would otherwise be missing from its answer.
    pub fn filters(include_hinted: bool) -> (filters: CoinStateFilters)
        ensures
            filters.include_spent && filters.include_unspent,
            filters.include_hinted == include_hinted,
            filters.min_amount == 0,
    {
        CoinStateFilters {
            include_spent: true,
            include_unspent: true,
            include_hinted,
            min_amount: 0,
        }
    }

    /// Where the next page is to be asked from.
    pub fn position(&self) -> (from: (Option<u32>, Bytes32))
        ensures
            from == (self@.previous_height, self@.previous_header),
    {
        (self.previous_height, self.previous_header)
    }

    /// Takes what came back of a request for a page, and tells the height the whole answer is a
    /// snapshot of if the page was the last.
    pub fn page(&mut self, reply: Reply<PuzzleStatePage>) -> (as_of: Result<
        Option<u32>,
        ChiaQueryError,
    >)
        ensures
            match (as_of, taken(reply, "request timed out"@, "puzzle state request rejected"@)) {
                (Ok(height), Ok(page)) => {
                    &&& final(self)@ == old(self)@.after(page)
                    &&& height == if page.is_finished {
                        Some(page.height)
                    } else {
                        None::<u32>
                    }
                },
                (Err(e), Err(failure)) => e@ == failure && final(self)@ == old(self)@,
                _ => false,
            },
    {
        let page = match take(reply, "request timed out", "puzzle state request rejected") {
            Ok(page) => page,
            Err(e) => return Err(e),
        };
        let PuzzleStatePage { mut coin_states, height, header_hash, is_finished } = page;
        self.states.append(&mut coin_states);
        if is_finished {
            Ok(Some(height))
        } else {
            self.previous_height = Some(height);
            self.previous_header = header_hash;
            Ok(None)
        }
    }

    /// The answer of the peer `name`, as of the height of its last page.
    ///
    /// That height comes from the peer alone and the common height is a minimum over it, so it is
    /// held to the peak the peer announced. An answer that fails this is unusable as it stands,
    /// and is not made usable by another height.
    pub fn settle(self, as_of_height: u32, announced: Option<u32>, name: &str) -> (set: Result<
        HeightedSet<CoinRecord>,
        ChiaQueryError,
    >)
        ensures
            match set {
                Ok(s) => {
                    &&& announced is Some
                    &&& announced->0 - PEAK_LAG_TOLERANCE <= as_of_height <= announced->0
                        + PEAK_LAG_TOLERANCE
                    &&& records_view(s.items@) == records_of(self@.states)
                    &&& s.as_of_height == as_of_height
                },
                Err(e) => {
                    &&& !(announced is Some && announced->0 - PEAK_LAG_TOLERANCE <= as_of_height
                        <= announced->0 + PEAK_LAG_TOLERANCE)
                    &&& e@ == ErrorView::PeerRejection(
                        "peer "@ + name@ + " answered as of height "@ + decimal(
                            as_of_height as nat,
                        ) + ", which its own announced peak ("@ + announcement(announced)
                            + ") does not support"@,
                    )
                },
            },
    {
        if !as_of_is_supported(announced, as_of_height) {
            let height = decimal_text(as_of_height as u64);
            let peak = announcement_text(announced);
            let message = String::from_str("peer ").concat(name).concat(
                " answered as of height ",
            ).concat(height.as_str()).concat(", which its own announced peak (").concat(
                peak.as_str(),
            ).concat(") does not support");
            return Err(ChiaQueryError::PeerRejection(message));
        }
        Ok(HeightedSet { items: coin_states_to_records(self.states.as_slice()), as_of_height })
    }
}

/// A walk keeps every coin of every page, in the order the pages came.
pub proof fn law_walk_keeps_every_coin(walk: WalkView, pages: Seq<PuzzleStatePage>)
    ensures
        walk.after_all(pages).states == walk.states + states_of(pages),
    decreases pages.len(),
{
    if pages.len() == 0 {
        assert(walk.states + Seq::<CoinState>::empty() =~= walk.states);
    } else {
        law_walk_keeps_every_coin(walk, pages.drop_last());
        assert(walk.after_all(pages).states =~= walk.states + states_of(pages));
    }
}

/// Each page is asked for from where the page before it ended.
pub proof fn law_walk_goes_on_where_it_stopped(walk: WalkView, pages: Seq<PuzzleStatePage>)
    requires
        pages.len() > 0,
        !pages.last().is_finished,
    ensures
        walk.after_all(pages).previous_height == Some(pages.last().height),
        walk.after_all(pages).previous_header == pages.last().header_hash,
{
}

/// Ids are read one by one, each where its text stands, and all of them must read: the first that
/// does not decides the error.
pub proof fn law_ids_are_read_one_by_one(texts: Seq<Seq<char>>, i: int)
    requires
        0 <= i < texts.len(),
    ensures
        read_ids(texts) is Ok <==> forall|k: int|
            0 <= k < texts.len() ==> read_bytes32(#[trigger] texts[k]) is Ok,
        read_ids(texts) matches Ok(ids) ==> ids.len() == texts.len() && read_bytes32(texts[i])
            == Ok::<Seq<u8>, ErrorView>(ids[i]),
        read_bytes32(texts[i]) is Err && (forall|k: int|
            0 <= k < i ==> read_bytes32(#[trigger] texts[k]) is Ok) ==> read_ids(texts) == Err::<
            Seq<Seq<u8>>,
            ErrorView,
        >(read_bytes32(texts[i])->Err_0),
    decreases texts.len(),
{
    let init = texts.drop_last();
    let last = texts.len() - 1;
    assert forall|k: int| 0 <= k < init.len() implies init[k] == texts[k] by {}
    if init.len() > 0 {
        let k = if i < init.len() {
            i
        } else {
            0
        };
        law_ids_are_read_one_by_one(init, k);
        if forall|k: int| 0 <= k < init.len() ==> read_bytes32(#[trigger] init[k]) is Ok {
            assert forall|k: int| 0 <= k < last implies read_bytes32(#[trigger] texts[k]) is Ok by {
                assert(read_bytes32(init[k]) is Ok);
            }
        } else {
            let k = choose|k: int| 0 <= k < init.len() && read_bytes32(#[trigger] init[k]) is Err;
            assert(read_bytes32(texts[k]) is Err);
        }
        if i < last {
            assert(init[i] == texts[i]);
        }
    }
    assert(texts[last] == texts.last());
}

/// A page adds its coins after those there are. One that is not the last moves the walk on to its
/// height and header; the last leaves it where it is.
pub proof fn law_a_page_moves_the_walk_on(walk: WalkView, page: PuzzleStatePage)
    ensures
        walk.after(page).states.len() == walk.states.len() + page.coin_states@.len(),
        forall|i: int|
            0 <= i < walk.states.len() ==> #[trigger] walk.after(page).states[i]
                == walk.states[i],
        forall|i: int|
            0 <= i < page.coin_states@.len() ==> walk.after(page).states[walk.states.len() + i]
                == #[trigger] page.coin_states@[i],
        !page.is_finished ==> walk.after(page).previous_height == Some(page.height)
            && walk.after(page).previous_header == page.header_hash,
        page.is_finished ==> walk.after(page).previous_height == walk.previous_height
            && walk.after(page).previous_header == walk.previous_header,
{
}

/// A walk asks for every coin, spent or not and however small, and its answer is accepted exactly if
/// its height lies within three blocks of the peak its peer announced: all the coins of all its pages,
/// as of that height.
pub proof fn law_a_walk_is_held_to_the_announced_peak(
    walk: PuzzleStateWalk,
    as_of_height: u32,
    announced: Option<u32>,
    name: &str,
    set: Result<HeightedSet<CoinRecord>, ChiaQueryError>,
    hinted: bool,
    filters: CoinStateFilters,
)
    requires
        call_ensures(PuzzleStateWalk::settle, (walk, as_of_height, announced, name), set),
        call_ensures(PuzzleStateWalk::filters, (hinted,), filters),
    ensures
        set is Ok <==> announced is Some && as_of_height <= announced->0 + 3 && announced->0
            <= as_of_height + 3,
        set is Ok ==> set->Ok_0.as_of_height == as_of_height && set->Ok_0.items@.len()
            == walk@.states.len(),
        set is Err ==> set->Err_0@ is PeerRejection,
        filters.include_spent && filters.include_unspent && filters.min_amount == 0,
        filters.include_hinted == hinted,
{
    if set is Ok {
        assert(records_view(set->Ok_0.items@).len() == set->Ok_0.items@.len());
    }
}

/// A page that is answered is taken into the walk, and its height is the answer's exactly if it is the
/// last. A page that is not answered leaves the walk as it was.
pub proof fn law_a_page_is_taken_or_leaves_the_walk(
    walk: &mut PuzzleStateWalk,
    reply: Reply<PuzzleStatePage>,
    as_of: Result<Option<u32>, ChiaQueryError>,
)
    requires
        call_ensures(PuzzleStateWalk::page, (walk, reply), as_of),
    ensures
        as_of is Ok <==> reply is Answered,
        reply matches Reply::Answered(page) ==> {
            &&& as_of->Ok_0 is Some <==> page.is_finished
            &&& page.is_finished ==> as_of->Ok_0->0 == page.height
            &&& final(walk)@.states == old(walk)@.states + page.coin_states@
            &&& !page.is_finished ==> final(walk)@.previous_height == Some(page.height)
                && final(walk)@.previous_header == page.header_hash
        },
        !(reply is Answered) ==> final(walk)@ == old(walk)@,
{
}

} // verus!
