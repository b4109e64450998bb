//! When two sources agree about a set of coins.
//!
//! Two honest peers a block apart hold different sets, so sets are not compared as sent. Each is
//! taken back to a height every source has settled past, and only then are they compared: a coin
//! created above that height is left out, and a spend above it is undone. What the caller asked
//! to see is cut out of the agreed set, never out of a source's answer.

use vstd::prelude::*;

use crate::claim::{is_one_word, law_record_claim_fixes_the_record, record_claim, ChainClaim};
use crate::text::decimal;
use crate::types::{records_view, texts_view, CoinRecord, RecordView};

use super::plurality::PEAK_LAG_TOLERANCE;

verus! {

/// How far below the lowest as-of height an answer counts as settled: as far as a peer may trail
/// and still be current.
pub const SETTLED_LAG: u32 = PEAK_LAG_TOLERANCE;

/// What one source holds, and the height it says its answer is a snapshot of.
#[derive(Debug, PartialEq, Eq)]
pub struct HeightedSet<T> {
    pub items: Vec<T>,
    pub as_of_height: u32,
}

/// What the caller wants to see of an agreed set.
#[derive(Clone, Copy, Debug, PartialEq, Eq)]
pub struct SetProjection {
    /// Only coins created at this height or above.
    pub start_height: Option<u32>,
    /// Only coins created below this height.
    pub end_height: Option<u32>,
    pub include_spent: bool,
}

/// A set as graded by the sources that were asked.
#[derive(Debug, PartialEq, Eq)]
pub enum SetAnswer<T> {
    /// Enough independent sources hold the same set.
    Corroborated { items: Vec<T>, as_of_height: u32 },
    /// Nobody contradicted the set, and too few agreed with it.
    Uncorroborated { items: Vec<T>, as_of_height: u32 },
}

/// The lowest of `heights`.
pub open spec fn lowest(heights: Seq<u32>) -> u32
    decreases heights.len(),
{
    if heights.len() <= 1 || heights.last() < lowest(heights.drop_last()) {
        heights.last()
    } else {
        lowest(heights.drop_last())
    }
}

/// The height sources at `as_of` are compared at: settled by all of them, and no higher than the
/// end of the window.
pub open spec fn settled_height(as_of: Seq<u32>, end_height: Option<u32>) -> Option<u32> {
    if as_of.len() == 0 || lowest(as_of) < SETTLED_LAG {
        None
    } else {
        let settled = (lowest(as_of) - SETTLED_LAG) as u32;
        match end_height {
            Some(end) => Some(
                if end < settled {
                    end
                } else {
                    settled
                },
            ),
            None => Some(settled),
        }
    }
}

/// The height sources at `as_of` are compared at, if they have settled past any.
pub fn common_height(as_of: &[u32], end_height: Option<u32>) -> (height: Option<u32>)
    ensures
        height == settled_height(as_of@, end_height),
{
    if as_of.len() == 0 {
        return None;
    }
    let mut least: u32 = as_of[0];
    let mut i: usize = 1;
    assert(as_of@.take(1).last() == as_of@[0]);
    while i < as_of.len()
        invariant
            1 <= i <= as_of.len(),
            least == lowest(as_of@.take(i as int)),
        decreases as_of.len() - i,
    {
        assert(as_of@.take(i + 1).drop_last() =~= as_of@.take(i as int));
        if as_of[i] < least {
            least = as_of[i];
        }
        i = i + 1;
    }
    assert(as_of@.take(i as int) =~= as_of@);
    if least < SETTLED_LAG {
        return None;
    }
    let settled: u32 = least - SETTLED_LAG;
    match end_height {
        Some(end) => Some(
            if end < settled {
                end
            } else {
                settled
            },
        ),
        None => Some(settled),
    }
}

/// Whether an answer as of `as_of` is borne out by the peak its source announced: no further from
/// it than a current peer may trail. A source that announced nothing bears out nothing.
pub fn as_of_is_supported(announced: Option<u32>, as_of: u32) -> (supported: bool)
    ensures
        supported == (announced is Some && announced->0 - PEAK_LAG_TOLERANCE <= as_of
            <= announced->0 + PEAK_LAG_TOLERANCE),
{
    match announced {
        Some(peak) => if as_of <= peak {
            peak - as_of <= PEAK_LAG_TOLERANCE
        } else {
            as_of - peak <= PEAK_LAG_TOLERANCE
        },
        None => false,
    }
}

/// Whether a coin existed at `height`.
pub open spec fn existed_at(height: u32) -> spec_fn(RecordView) -> bool {
    |r: RecordView| r.confirmed_block_index <= height
}

/// A record as it stood at `height`: a spend above it had not happened.
pub open spec fn as_at(height: u32) -> spec_fn(RecordView) -> RecordView {
    |r: RecordView|
        if r.spent_block_index > height {
            RecordView { spent_block_index: 0, spent: false, ..r }
        } else {
            r
        }
}

/// `records` as they stood at `height`.
pub open spec fn normalised(records: Seq<RecordView>, height: u32) -> Seq<RecordView> {
    records.filter(existed_at(height)).map_values(as_at(height))
}

/// Takes `records` back to how they stood at `height`.
pub fn normalise_at(records: &[CoinRecord], height: u32) -> (kept: Vec<CoinRecord>)
    ensures
        records_view(kept@) == normalised(records_view(records@), height),
{
    let mut kept: Vec<CoinRecord> = Vec::new();
    let mut i: usize = 0;
    let ghost all = records_view(records@);
    proof {
        reveal(Seq::filter);
        assert(normalised(all.take(0), height) =~= Seq::<RecordView>::empty());
    }
    while i < records.len()
        invariant
            i <= records.len(),
            all == records_view(records@),
            records_view(kept@) == normalised(all.take(i as int), height),
        decreases records.len() - i,
    {
        proof {
            assert(all.take(i + 1) =~= all.take(i as int).push(all[i as int]));
            all.take(i as int).lemma_filter_push(all[i as int], existed_at(height));
        }
        if records[i].confirmed_block_index <= height {
            let mut record = records[i].duplicate();
            if record.spent_block_index > height {
                record.spent_block_index = 0;
                record.spent = false;
            }
            assert(record@ == as_at(height)(all[i as int]));
            assert(normalised(all.take(i + 1), height) =~= normalised(
                all.take(i as int),
                height,
            ).push(record@));
            assert(records_view(kept@.push(record)) =~= records_view(kept@).push(record@));
            kept.push(record);
        }
        i = i + 1;
    }
    assert(all.take(i as int) =~= all);
    kept
}

/// What each of `records` claims, in order.
pub open spec fn claims_of(records: Seq<RecordView>) -> Seq<Seq<char>> {
    records.map_values(|r: RecordView| record_claim(r))
}

/// What each of `records` claims.
pub fn fingerprint(records: &[CoinRecord]) -> (claims: Vec<String>)
    ensures
        texts_view(claims@) == claims_of(records_view(records@)),
{
    let mut claims: Vec<String> = Vec::new();
    let mut i: usize = 0;
    let ghost all = records_view(records@);
    while i < records.len()
        invariant
            i <= records.len(),
            all == records_view(records@),
            texts_view(claims@) == claims_of(all.take(i as int)),
        decreases records.len() - i,
    {
        let claim = records[i].chain_claim();
        assert(claims_of(all.take(i + 1)) =~= claims_of(all.take(i as int)).push(claim@));
        assert(texts_view(claims@.push(claim)) =~= texts_view(claims@).push(claim@));
        claims.push(claim);
        i = i + 1;
    }
    assert(all.take(i as int) =~= all);
    claims
}

/// The first of `claims` that `others` does not make.
pub open spec fn first_missing(claims: Seq<Seq<char>>, others: Seq<Seq<char>>) -> Option<Seq<char>>
    decreases claims.len(),
{
    if claims.len() == 0 {
        None
    } else if others.contains(claims[0]) {
        first_missing(claims.drop_first(), others)
    } else {
        Some(claims[0])
    }
}

/// Whether `claim` is among `claims`.
fn makes(claims: &[String], claim: &String) -> (found: bool)
    ensures
        found == texts_view(claims@).contains(claim@),
{
    let mut i: usize = 0;
    while i < claims.len()
        invariant
            i <= claims.len(),
            forall|j: int| 0 <= j < i ==> #[trigger] texts_view(claims@)[j] != claim@,
        decreases claims.len() - i,
    {
        if claims[i] == *claim {
            assert(texts_view(claims@)[i as int] == claim@);
            return true;
        }
        i = i + 1;
    }
    false
}

/// The position of the first of `claims` that `others` does not make.
fn missing(claims: &[String], others: &[String]) -> (at: Option<usize>)
    ensures
        match at {
            Some(i) => i < claims.len() && first_missing(texts_view(claims@), texts_view(others@))
                == Some(claims@[i as int]@),
            None => first_missing(texts_view(claims@), texts_view(others@)) is None,
        },
{
    let ghost all = texts_view(claims@);
    let mut i: usize = 0;
    assert(all.skip(0) =~= all);
    while i < claims.len()
        invariant
            i <= claims.len(),
            all == texts_view(claims@),
            first_missing(all, texts_view(others@)) == first_missing(
                all.skip(i as int),
                texts_view(others@),
            ),
        decreases claims.len() - i,
    {
        assert(all.skip(i as int)[0] == claims@[i as int]@);
        if !makes(others, &claims[i]) {
            return Some(i);
        }
        assert(all.skip(i as int).drop_first() =~= all.skip(i + 1));
        i = i + 1;
    }
    None
}

/// What one source claims and another does not, in words.
pub open spec fn one_sided(name: Seq<char>, claim: Seq<char>, other: Seq<char>) -> Seq<char> {
    name + " reports `"@ + claim + "`, "@ + other + " does not"@
}

/// How two sets of claims contradict each other, if they do.
pub open spec fn contradicts(
    name: Seq<char>,
    claims: Seq<Seq<char>>,
    other_name: Seq<char>,
    others: Seq<Seq<char>>,
) -> Option<Seq<char>> {
    match first_missing(claims, others) {
        Some(claim) => Some(one_sided(name, claim, other_name)),
        None => match first_missing(others, claims) {
            Some(claim) => Some(one_sided(other_name, claim, name)),
            None => None,
        },
    }
}

/// Says what is one-sided, in words.
fn say_one_sided(name: &str, claim: &String, other: &str) -> (text: String)
    ensures
        text@ == one_sided(name@, claim@, other@),
{
    String::from_str(name).concat(" reports `").concat(claim.as_str()).concat("`, ").concat(
        other,
    ).concat(" does not")
}

/// How two sets of claims contradict each other, if they do.
pub fn contradiction(name: &str, claims: &[String], other_name: &str, others: &[String]) -> (
    detail: Option<String>)
    ensures
        match detail {
            Some(text) => contradicts(
                name@,
                texts_view(claims@),
                other_name@,
                texts_view(others@),
            ) == Some(text@),
            None => contradicts(
                name@,
                texts_view(claims@),
                other_name@,
                texts_view(others@),
            ) is None,
        },
{
    match missing(claims, others) {
        Some(i) => Some(say_one_sided(name, &claims[i], other_name)),
        None => match missing(others, claims) {
            Some(i) => Some(say_one_sided(other_name, &others[i], name)),
            None => None,
        },
    }
}

/// Whether the caller wants to see a record.
pub open spec fn wanted(projection: SetProjection) -> spec_fn(RecordView) -> bool {
    |r: RecordView|
        {
            &&& projection.start_height matches Some(start) ==> start <= r.confirmed_block_index
            &&& projection.end_height matches Some(end) ==> r.confirmed_block_index < end
            &&& projection.include_spent || !r.spent
        }
}

/// Cuts what the caller wants to see out of an agreed set.
pub fn project(records: Vec<CoinRecord>, projection: SetProjection) -> (seen: Vec<CoinRecord>)
    ensures
        records_view(seen@) == records_view(records@).filter(wanted(projection)),
{
    let mut seen: Vec<CoinRecord> = Vec::new();
    let mut i: usize = 0;
    let ghost all = records_view(records@);
    proof {
        reveal(Seq::filter);
    }
    while i < records.len()
        invariant
            i <= records.len(),
            all == records_view(records@),
            records_view(seen@) == all.take(i as int).filter(wanted(projection)),
        decreases records.len() - i,
    {
        proof {
            assert(all.take(i + 1) =~= all.take(i as int).push(all[i as int]));
            all.take(i as int).lemma_filter_push(all[i as int], wanted(projection));
        }
        let record = &records[i];
        let above: bool = match projection.start_height {
            Some(start) => start <= record.confirmed_block_index,
            None => true,
        };
        let below: bool = match projection.end_height {
            Some(end) => record.confirmed_block_index < end,
            None => true,
        };
        if above && below && (projection.include_spent || !record.spent) {
            let copy = record.duplicate();
            assert(records_view(seen@.push(copy)) =~= records_view(seen@).push(copy@));
            seen.push(copy);
        }
        i = i + 1;
    }
    assert(all.take(i as int) =~= all);
    seen
}

proof fn lemma_filter_of_push<A>(s: Seq<A>, x: A, p: spec_fn(A) -> bool)
    ensures
        s.push(x).filter(p) == if p(x) {
            s.filter(p).push(x)
        } else {
            s.filter(p)
        },
{
    s.lemma_filter_push(x, p);
}

/// Two honest sources at different heights agree at a height both have reached: a snapshot taken
/// above `height` and brought back to it is the snapshot at `height`.
pub proof fn law_snapshots_agree_below_both(records: Seq<RecordView>, height: u32, later: u32)
    requires
        height <= later,
    ensures
        normalised(normalised(records, later), height) == normalised(records, height),
    decreases records.len(),
{
    reveal(Seq::filter);
    if records.len() > 0 {
        let init = records.drop_last();
        let last = records.last();
        law_snapshots_agree_below_both(init, height, later);
        assert(records =~= init.push(last));
        lemma_filter_of_push(init, last, existed_at(later));
        lemma_filter_of_push(init, last, existed_at(height));
        if last.confirmed_block_index <= later {
            let seen = as_at(later)(last);
            assert(normalised(records, later) =~= normalised(init, later).push(seen));
            lemma_filter_of_push(normalised(init, later), seen, existed_at(height));
            if last.confirmed_block_index <= height {
                assert(as_at(height)(seen) == as_at(height)(last));
                assert(normalised(records, height) =~= normalised(init, height).push(
                    as_at(height)(last),
                ));
                assert(normalised(normalised(records, later), height) =~= normalised(
                    normalised(init, later),
                    height,
                ).push(as_at(height)(seen)));
            }
        }
    }
}

proof fn lemma_none_missing(claims: Seq<Seq<char>>, others: Seq<Seq<char>>)
    ensures
        first_missing(claims, others) is None <==> forall|i: int|
            0 <= i < claims.len() ==> others.contains(#[trigger] claims[i]),
        first_missing(claims, others) matches Some(claim) ==> claims.contains(claim)
            && !others.contains(claim),
    decreases claims.len(),
{
    if claims.len() > 0 {
        let tail = claims.drop_first();
        lemma_none_missing(tail, others);
        assert(forall|i: int| 0 <= i < tail.len() ==> tail[i] == claims[i + 1]);
        if others.contains(claims[0]) {
            if forall|i: int| 0 <= i < tail.len() ==> others.contains(#[trigger] tail[i]) {
                assert forall|i: int| 0 <= i < claims.len() implies others.contains(
                    #[trigger] claims[i],
                ) by {
                    if i > 0 {
                        assert(tail[i - 1] == claims[i]);
                    }
                }
            }
            if first_missing(tail, others) is Some {
                let claim = first_missing(tail, others)->0;
                let i = choose|i: int| 0 <= i < tail.len() && tail[i] == claim;
                assert(claims[i + 1] == claim);
            }
        } else {
            assert(claims.contains(claims[0]));
        }
    }
}

/// Sources do not contradict each other exactly when they claim the same set, in whatever order
/// and however often they repeat a claim.
pub proof fn law_agreement_is_set_equality(
    name: Seq<char>,
    claims: Seq<Seq<char>>,
    other_name: Seq<char>,
    others: Seq<Seq<char>>,
)
    ensures
        contradicts(name, claims, other_name, others) is None <==> claims.to_set()
            == others.to_set(),
{
    lemma_none_missing(claims, others);
    lemma_none_missing(others, claims);
    if contradicts(name, claims, other_name, others) is None {
        assert forall|c: Seq<char>| claims.to_set().contains(c) == others.to_set().contains(c) by {
            if claims.contains(c) {
                let i = choose|i: int| 0 <= i < claims.len() && claims[i] == c;
                assert(others.contains(claims[i]));
            }
            if others.contains(c) {
                let i = choose|i: int| 0 <= i < others.len() && others[i] == c;
                assert(claims.contains(others[i]));
            }
        }
        assert(claims.to_set() =~= others.to_set());
    }
    if claims.to_set() == others.to_set() {
        if first_missing(claims, others) is Some {
            let c = first_missing(claims, others)->0;
            assert(claims.to_set().contains(c));
            assert(!others.to_set().contains(c));
        }
        if first_missing(others, claims) is Some {
            let c = first_missing(others, claims)->0;
            assert(others.to_set().contains(c));
            assert(!claims.to_set().contains(c));
        }
    }
}

/// The height sources are compared at is settled by every one of them and lies in the window.
pub proof fn law_common_height_is_settled_by_all(as_of: Seq<u32>, end_height: Option<u32>, i: int)
    requires
        settled_height(as_of, end_height) is Some,
        0 <= i < as_of.len(),
    ensures
        settled_height(as_of, end_height)->0 + SETTLED_LAG <= as_of[i],
        end_height matches Some(end) ==> settled_height(as_of, end_height)->0 <= end,
{
    lemma_lowest(as_of, i);
}

proof fn lemma_lowest(heights: Seq<u32>, i: int)
    requires
        0 <= i < heights.len(),
    ensures
        lowest(heights) <= heights[i],
    decreases heights.len(),
{
    if heights.len() > 1 && i < heights.len() - 1 {
        lemma_lowest(heights.drop_last(), i);
    }
}

/// The height sources are compared at is the highest that all of them have settled and that does not
/// lie beyond the window, and there is one exactly if each source is far enough above the start of
/// the chain.
pub proof fn law_common_height_is_the_highest_settled_by_all(
    as_of: Seq<u32>,
    end_height: Option<u32>,
    other: u32,
)
    requires
        as_of.len() > 0,
    ensures
        settled_height(as_of, end_height) is Some <==> forall|i: int|
            0 <= i < as_of.len() ==> 3 <= #[trigger] as_of[i],
        (forall|i: int| 0 <= i < as_of.len() ==> other + 3 <= #[trigger] as_of[i]) && (
        end_height is Some ==> other <= end_height->0) ==> settled_height(
            as_of,
            end_height,
        ) is Some && other <= settled_height(as_of, end_height)->0,
        settled_height(as_of, end_height) matches Some(height) ==> (forall|i: int|
            0 <= i < as_of.len() ==> height + 3 <= #[trigger] as_of[i]) && (end_height is Some
            ==> height <= end_height->0),
{
    lemma_lowest_is_one(as_of);
    assert forall|i: int| 0 <= i < as_of.len() implies lowest(as_of) <= #[trigger] as_of[i] by {
        lemma_lowest(as_of, i);
    }
}

proof fn lemma_lowest_is_one(heights: Seq<u32>)
    requires
        heights.len() > 0,
    ensures
        heights.contains(lowest(heights)),
    decreases heights.len(),
{
    if heights.len() <= 1 || heights.last() < lowest(heights.drop_last()) {
        assert(heights[heights.len() - 1] == lowest(heights));
    } else {
        let init = heights.drop_last();
        lemma_lowest_is_one(init);
        let i = choose|i: int| 0 <= i < init.len() && init[i] == lowest(init);
        assert(heights[i] == lowest(heights));
    }
}

/// A snapshot at a height is taken record by record, in order: a coin created above the height is
/// not in it, a spend above it has not happened yet, and everything else is as it was.
pub proof fn law_snapshot_is_taken_record_by_record(
    records: Seq<RecordView>,
    record: RecordView,
    height: u32,
)
    ensures
        normalised(Seq::empty(), height).len() == 0,
        record.confirmed_block_index > height ==> normalised(records.push(record), height)
            == normalised(records, height),
        record.confirmed_block_index <= height ==> {
            let before = normalised(records, height);
            let after = normalised(records.push(record), height);
            let kept = after.last();
            &&& after.len() == before.len() + 1
            &&& after.drop_last() == before
            &&& kept.coin == record.coin
            &&& kept.confirmed_block_index == record.confirmed_block_index
            &&& kept.coinbase == record.coinbase && kept.timestamp == record.timestamp
            &&& record.spent_block_index <= height ==> kept.spent == record.spent
                && kept.spent_block_index == record.spent_block_index
            &&& record.spent_block_index > height ==> !kept.spent && kept.spent_block_index == 0
        },
{
    reveal(Seq::filter);
    records.lemma_filter_push(record, existed_at(height));
    assert(normalised(Seq::empty(), height) =~= Seq::<RecordView>::empty());
    if record.confirmed_block_index <= height {
        let after = normalised(records.push(record), height);
        assert(after =~= normalised(records, height).push(as_at(height)(record)));
        assert(after.drop_last() =~= normalised(records, height));
    }
}

/// A record is shown exactly if it lies in the window, its end excluded, and is unspent or spent
/// ones are wanted too; and those that are shown keep their order.
pub proof fn law_window_is_cut_record_by_record(
    records: Seq<RecordView>,
    record: RecordView,
    projection: SetProjection,
)
    ensures
        Seq::<RecordView>::empty().filter(wanted(projection)).len() == 0,
        records.push(record).filter(wanted(projection)) == (if (projection.start_height is None
            || projection.start_height->0 <= record.confirmed_block_index) && (
        projection.end_height is None || record.confirmed_block_index < projection.end_height->0)
            && (projection.include_spent || !record.spent) {
            records.filter(wanted(projection)).push(record)
        } else {
            records.filter(wanted(projection))
        }),
{
    reveal(Seq::filter);
    records.lemma_filter_push(record, wanted(projection));
}

/// Each record of a set is claimed, in order, with its coin and both its heights.
pub proof fn law_every_record_is_claimed(records: Seq<RecordView>, i: int)
    requires
        0 <= i < records.len(),
    ensures
        claims_of(records).len() == records.len(),
        claims_of(records)[i] == records[i].coin.parent_coin_info + "/"@ + records[i].coin.puzzle_hash
            + "/"@ + decimal(records[i].coin.amount as nat) + " confirmed "@ + decimal(
            records[i].confirmed_block_index as nat,
        ) + " spent "@ + decimal(records[i].spent_block_index as nat),
{
}

/// Two sets agree only if each record of one has its like in the other: the same coin, created and
/// spent at the same heights.
pub proof fn law_sets_that_agree_hold_the_same_coins(
    name: Seq<char>,
    records: Seq<RecordView>,
    other_name: Seq<char>,
    others: Seq<RecordView>,
    i: int,
)
    requires
        contradicts(name, claims_of(records), other_name, claims_of(others)) is None,
        0 <= i < records.len(),
        forall|k: int|
            0 <= k < records.len() ==> is_one_word((#[trigger] records[k]).coin.parent_coin_info)
                && is_one_word(records[k].coin.puzzle_hash),
        forall|k: int|
            0 <= k < others.len() ==> is_one_word((#[trigger] others[k]).coin.parent_coin_info)
                && is_one_word(others[k].coin.puzzle_hash),
    ensures
        exists|j: int|
            0 <= j < others.len() && (#[trigger] others[j]).coin == records[i].coin
                && others[j].confirmed_block_index == records[i].confirmed_block_index
                && others[j].spent_block_index == records[i].spent_block_index,
{
    law_agreement_is_set_equality(name, claims_of(records), other_name, claims_of(others));
    let claim = claims_of(records)[i];
    assert(claims_of(records).to_set().contains(claim));
    assert(claims_of(others).to_set().contains(claim));
    let j = choose|j: int| 0 <= j < claims_of(others).len() && claims_of(others)[j] == claim;
    assert(record_claim(others[j]) == record_claim(records[i]));
    law_record_claim_fixes_the_record(others[j], records[i]);
    assert(others[j].coin == records[i].coin);
}

proof fn lemma_first_missing_at(claims: Seq<Seq<char>>, others: Seq<Seq<char>>, i: int)
    requires
        0 <= i < claims.len(),
        !others.contains(claims[i]),
        forall|k: int| 0 <= k < i ==> others.contains(#[trigger] claims[k]),
    ensures
        first_missing(claims, others) == Some(claims[i]),
    decreases claims.len(),
{
    if i > 0 {
        let tail = claims.drop_first();
        assert(others.contains(claims[0]));
        assert(tail[i - 1] == claims[i]);
        assert forall|k: int| 0 <= k < i - 1 implies others.contains(#[trigger] tail[k]) by {
            assert(tail[k] == claims[k + 1]);
        }
        lemma_first_missing_at(tail, others, i - 1);
    }
}

/// A disagreement is told by the first claim of the first source that the second does not make, and
/// where there is none by the first claim of the second that the first does not make.
pub proof fn law_a_disagreement_is_told_by_its_first_claim(
    name: Seq<char>,
    claims: Seq<Seq<char>>,
    other_name: Seq<char>,
    others: Seq<Seq<char>>,
    i: int,
)
    ensures
        0 <= i < claims.len() && !others.contains(claims[i]) && (forall|k: int|
            0 <= k < i ==> others.contains(#[trigger] claims[k])) ==> contradicts(
            name,
            claims,
            other_name,
            others,
        ) == Some(name + " reports `"@ + claims[i] + "`, "@ + other_name + " does not"@),
        (forall|k: int| 0 <= k < claims.len() ==> others.contains(#[trigger] claims[k])) && 0 <= i
            < others.len() && !claims.contains(others[i]) && (forall|k: int|
            0 <= k < i ==> claims.contains(#[trigger] others[k])) ==> contradicts(
            name,
            claims,
            other_name,
            others,
        ) == Some(other_name + " reports `"@ + others[i] + "`, "@ + name + " does not"@),
{
    if 0 <= i < claims.len() && !others.contains(claims[i]) && (forall|k: int|
        0 <= k < i ==> others.contains(#[trigger] claims[k])) {
        lemma_first_missing_at(claims, others, i);
    }
    if (forall|k: int| 0 <= k < claims.len() ==> others.contains(#[trigger] claims[k])) && 0 <= i
        < others.len() && !claims.contains(others[i]) && (forall|k: int|
        0 <= k < i ==> claims.contains(#[trigger] others[k])) {
        lemma_none_missing(claims, others);
        lemma_first_missing_at(others, claims, i);
    }
}

/// An answer is borne out exactly if its source announced a peak, and its height lies within three
/// blocks of it, above or below.
pub proof fn law_an_answer_is_borne_out_within_three_blocks(
    announced: Option<u32>,
    as_of: u32,
    supported: bool,
)
    requires
        call_ensures(as_of_is_supported, (announced, as_of), supported),
    ensures
        supported <==> announced is Some && as_of <= announced->0 + 3 && announced->0 <= as_of + 3,
{
}

} // verus!
