//! The peak a set of untrusted announcements supports.

use vstd::prelude::*;

use vstd::relations::{antisymmetric, reflexive, sorted_by, strongly_connected, total_ordering, transitive};

verus! {

/// The order of heights.
pub open spec fn no_higher() -> spec_fn(u32, u32) -> bool {
    |a: u32, b: u32| a <= b
}

/// The lower median of `announced`: the smaller of the two middles where there are two. Nothing
/// where nobody has announced anything.
pub open spec fn lower_median(announced: Seq<u32>) -> Option<u32> {
    if announced.len() == 0 {
        None
    } else {
        Some(announced.sort_by(no_higher())[(announced.len() - 1) / 2])
    }
}

/// The peak the pool takes for the chain's, given what its peers announced.
///
/// A median and no maximum: a maximum is set by a single voice, and one absurd claim would make
/// every honest peer look hopelessly behind.
pub fn reference_peak(announced: &[u32]) -> (peak: Option<u32>)
    ensures
        peak == lower_median(announced@),
{
    if announced.len() == 0 {
        return None;
    }
    let mut sorted: Vec<u32> = Vec::new();
    let mut i: usize = 0;
    assert(announced@.take(0) =~= Seq::<u32>::empty());
    while i < announced.len()
        invariant
            i <= announced.len(),
            sorted@.to_multiset() == announced@.take(i as int).to_multiset(),
            sorted@.len() == i,
            forall|a: int, b: int| 0 <= a < b < sorted@.len() ==> sorted@[a] <= sorted@[b],
        decreases announced.len() - i,
    {
        let height: u32 = announced[i];
        let mut at: usize = 0;
        while at < sorted.len() && sorted[at] < height
            invariant
                at <= sorted.len(),
                forall|a: int| 0 <= a < at ==> sorted@[a] < height,
            decreases sorted.len() - at,
        {
            at = at + 1;
        }
        let ghost before = sorted@;
        sorted.insert(at, height);
        proof {
            vstd::seq_lib::to_multiset_insert(before, at as int, height);
            vstd::seq_lib::to_multiset_build(announced@.take(i as int), height);
            assert(announced@.take(i + 1) =~= announced@.take(i as int).push(height));
            assert forall|a: int, b: int| 0 <= a < b < sorted@.len() implies sorted@[a]
                <= sorted@[b] by {
                if b < at {
                    assert(before[a] <= before[b]);
                } else if a > at {
                    assert(before[a - 1] <= before[b - 1]);
                } else if a < at && b > at {
                    assert(before[a] <= before[b - 1]);
                } else if a == at {
                    if b - 1 > at {
                        assert(before[at as int] <= before[b - 1]);
                    }
                }
            }
        }
        i = i + 1;
    }
    proof {
        assert(announced@.take(i as int) =~= announced@);
        lemma_no_higher_is_total();
        announced@.lemma_sort_by_ensures(no_higher());
        assert(sorted_by(sorted@, no_higher()));
        vstd::seq_lib::lemma_sorted_unique(
            sorted@,
            announced@.sort_by(no_higher()),
            no_higher(),
        );
    }
    let middle: usize = (sorted.len() - 1) / 2;
    Some(sorted[middle])
}

proof fn lemma_no_higher_is_total()
    ensures
        total_ordering(no_higher()),
{
    assert(reflexive(no_higher()));
    assert(antisymmetric(no_higher()));
    assert(transitive(no_higher()));
    assert(strongly_connected(no_higher()));
}

/// Whether a height lies above `h`.
pub open spec fn higher_than(h: int) -> spec_fn(u32) -> bool {
    |x: u32| x > h
}

/// How many of `announced` lie above `h`.
pub open spec fn count_above(announced: Seq<u32>, h: int) -> nat {
    announced.filter(higher_than(h)).len()
}

proof fn lemma_filter_multiset(s: Seq<u32>, keep: spec_fn(u32) -> bool)
    ensures
        s.filter(keep).to_multiset() == s.to_multiset().filter(keep),
    decreases s.len(),
{
    broadcast use vstd::multiset::group_multiset_axioms;
    broadcast use vstd::seq_lib::group_to_multiset_ensures;

    reveal(Seq::filter);
    if s.len() == 0 {
        assert(s.filter(keep).to_multiset() =~= s.to_multiset().filter(keep));
    } else {
        let rest = s.drop_last();
        lemma_filter_multiset(rest, keep);
        assert(rest.push(s.last()) =~= s);
        assert(s.filter(keep).to_multiset() =~= s.to_multiset().filter(keep));
    }
}

proof fn lemma_filter_all(s: Seq<u32>, keep: spec_fn(u32) -> bool)
    requires
        forall|i: int| 0 <= i < s.len() ==> keep(#[trigger] s[i]),
    ensures
        s.filter(keep) == s,
    decreases s.len(),
{
    reveal(Seq::filter);
    if s.len() > 0 {
        assert forall|i: int| 0 <= i < s.drop_last().len() implies keep(
            #[trigger] s.drop_last()[i],
        ) by {
            assert(s.drop_last()[i] == s[i]);
        }
        lemma_filter_all(s.drop_last(), keep);
        assert(keep(s[s.len() - 1]));
        assert(s.filter(keep) =~= s);
    }
}

/// Raising the reference above a height takes more than half of the announcements.
pub proof fn law_reference_needs_a_majority(announced: Seq<u32>, h: int)
    requires
        announced.len() > 0,
        lower_median(announced)->0 > h,
    ensures
        2 * count_above(announced, h) > announced.len(),
{
    broadcast use vstd::seq_lib::group_to_multiset_ensures;

    let keep = higher_than(h);
    let sorted = announced.sort_by(no_higher());
    lemma_no_higher_is_total();
    announced.lemma_sort_by_ensures(no_higher());
    assert(sorted.len() == sorted.to_multiset().len());
    assert(announced.len() == announced.to_multiset().len());
    let k = (announced.len() - 1) / 2;
    lemma_filter_multiset(announced, keep);
    lemma_filter_multiset(sorted, keep);
    assert(sorted.filter(keep).len() == sorted.filter(keep).to_multiset().len());
    assert(announced.filter(keep).len() == announced.filter(keep).to_multiset().len());
    let low = sorted.take(k);
    let high = sorted.skip(k);
    assert(sorted =~= low + high);
    Seq::filter_distributes_over_add(low, high, keep);
    assert forall|i: int| 0 <= i < high.len() implies keep(#[trigger] high[i]) by {
        if i > 0 {
            assert(no_higher()(sorted[k], sorted[k + i]));
        }
    }
    lemma_filter_all(high, keep);
}

/// The reference is a height that some peer announced.
pub proof fn law_reference_was_announced(announced: Seq<u32>)
    requires
        announced.len() > 0,
    ensures
        announced.contains(lower_median(announced)->0),
{
    broadcast use vstd::seq_lib::group_to_multiset_ensures;

    let sorted = announced.sort_by(no_higher());
    lemma_no_higher_is_total();
    announced.lemma_sort_by_ensures(no_higher());
    assert(sorted.len() == sorted.to_multiset().len());
    assert(announced.len() == announced.to_multiset().len());
    let m = sorted[(announced.len() - 1) / 2];
    assert(sorted.contains(m));
    vstd::seq_lib::to_multiset_contains(sorted, m);
    vstd::seq_lib::to_multiset_contains(announced, m);
}

proof fn lemma_filter_none(s: Seq<u32>, keep: spec_fn(u32) -> bool)
    requires
        forall|i: int| 0 <= i < s.len() ==> !keep(#[trigger] s[i]),
    ensures
        s.filter(keep).len() == 0,
    decreases s.len(),
{
    reveal(Seq::filter);
    if s.len() > 0 {
        assert forall|i: int| 0 <= i < s.drop_last().len() implies !keep(
            #[trigger] s.drop_last()[i],
        ) by {
            assert(s.drop_last()[i] == s[i]);
        }
        lemma_filter_none(s.drop_last(), keep);
        assert(!keep(s[s.len() - 1]));
    }
}

/// The reference lies above a height exactly if more than half of the announcements do.
pub proof fn law_reference_goes_with_the_majority(announced: Seq<u32>, h: int)
    requires
        announced.len() > 0,
    ensures
        lower_median(announced) is Some,
        lower_median(announced)->0 > h <==> 2 * announced.filter(|x: u32| x > h).len()
            > announced.len(),
{
    broadcast use vstd::seq_lib::group_to_multiset_ensures;

    let above = |x: u32| x > h;
    assert(above =~= higher_than(h));
    if lower_median(announced)->0 > h {
        law_reference_needs_a_majority(announced, h);
    } else {
        let sorted = announced.sort_by(no_higher());
        lemma_no_higher_is_total();
        announced.lemma_sort_by_ensures(no_higher());
        assert(sorted.len() == sorted.to_multiset().len());
        assert(announced.len() == announced.to_multiset().len());
        let k = (announced.len() - 1) / 2;
        lemma_filter_multiset(announced, above);
        lemma_filter_multiset(sorted, above);
        assert(sorted.filter(above).len() == sorted.filter(above).to_multiset().len());
        assert(announced.filter(above).len() == announced.filter(above).to_multiset().len());
        let low = sorted.take(k + 1);
        let high = sorted.skip(k + 1);
        assert(sorted =~= low + high);
        Seq::filter_distributes_over_add(low, high, above);
        assert forall|i: int| 0 <= i < low.len() implies !above(#[trigger] low[i]) by {
            if i < k {
                assert(no_higher()(sorted[i], sorted[k]));
            }
        }
        lemma_filter_none(low, above);
        high.lemma_filter_len(above);
    }
}

} // verus!
