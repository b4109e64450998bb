//! The order in which discovered addresses are dialled: IPv6 first.
//!
//! Locality is no preference here. A discovered address on this host is exactly the one a local
//! attacker can supply.

use vstd::prelude::*;

use rand::seq::SliceRandom;

use crate::address::{contains_address, SocketAddr};
use crate::peer::plurality::{PRIORITY_SLOTS, QUORUM_SAMPLE};

verus! {

/// How many dials a round opens for each slot it tries to fill.
///
/// Two, and no more. Candidates are kept by how fast they answered, which is partly a measure of
/// how near they are, so a wide choice would gather the pool around this host.
pub const DIAL_OVERSUBSCRIPTION: usize = 2;

/// The most discovered addresses one round considers: as many as it could dial.
pub const MAX_DISCOVERED_CANDIDATES: usize = (PRIORITY_SLOTS + 1 + QUORUM_SAMPLE + 1)
    * DIAL_OVERSUBSCRIPTION;

/// The IPv6 addresses of `s`, then the others, each in the order they stood in.
pub open spec fn v6_first(s: Seq<SocketAddr>) -> Seq<SocketAddr> {
    s.filter(|a: SocketAddr| a.is_v6()) + s.filter(|a: SocketAddr| !a.is_v6())
}

/// `s` without the addresses that stood earlier in it.
pub open spec fn first_occurrences(s: Seq<SocketAddr>) -> Seq<SocketAddr>
    decreases s.len(),
{
    if s.len() == 0 {
        s
    } else {
        let head = first_occurrences(s.drop_last());
        if s.drop_last().contains(s.last()) {
            head
        } else {
            head.push(s.last())
        }
    }
}

/// At most the first [`MAX_DISCOVERED_CANDIDATES`] of `s`.
pub open spec fn capped(s: Seq<SocketAddr>) -> Seq<SocketAddr> {
    if s.len() > MAX_DISCOVERED_CANDIDATES {
        s.take(MAX_DISCOVERED_CANDIDATES as int)
    } else {
        s
    }
}

/// Orders candidates IPv6 first, keeping the order within each family.
pub fn order_candidates(candidates: &[SocketAddr]) -> (ordered: Vec<SocketAddr>)
    ensures
        ordered@ == v6_first(candidates@),
{
    let ghost six = |a: SocketAddr| a.is_v6();
    let ghost four = |a: SocketAddr| !a.is_v6();
    let mut v6: Vec<SocketAddr> = Vec::new();
    let mut v4: Vec<SocketAddr> = Vec::new();
    let mut i: usize = 0;
    proof {
        reveal(Seq::filter);
    }
    while i < candidates.len()
        invariant
            i <= candidates.len(),
            six == (|a: SocketAddr| a.is_v6()),
            four == (|a: SocketAddr| !a.is_v6()),
            v6@ == candidates@.take(i as int).filter(six),
            v4@ == candidates@.take(i as int).filter(four),
        decreases candidates.len() - i,
    {
        let address = candidates[i];
        proof {
            assert(candidates@.take(i + 1) =~= candidates@.take(i as int).push(address));
            candidates@.take(i as int).lemma_filter_push(address, six);
            candidates@.take(i as int).lemma_filter_push(address, four);
        }
        if address.is_ipv6() {
            v6.push(address);
        } else {
            v4.push(address);
        }
        i = i + 1;
    }
    assert(candidates@.take(i as int) =~= candidates@);
    let mut ordered = v6;
    ordered.append(&mut v4);
    ordered
}

/// The distinct addresses of `discovered`, each where it stood first.
pub fn distinct_addresses(discovered: &[SocketAddr]) -> (distinct: Vec<SocketAddr>)
    ensures
        distinct@ == first_occurrences(discovered@),
{
    let mut distinct: Vec<SocketAddr> = Vec::new();
    let mut i: usize = 0;
    while i < discovered.len()
        invariant
            i <= discovered.len(),
            distinct@ == first_occurrences(discovered@.take(i as int)),
        decreases discovered.len() - i,
    {
        proof {
            lemma_first_occurrences(discovered@.take(i as int));
            assert(discovered@.take(i + 1).drop_last() =~= discovered@.take(i as int));
        }
        if !contains_address(&distinct, discovered[i]) {
            distinct.push(discovered[i]);
        }
        i = i + 1;
    }
    assert(discovered@.take(i as int) =~= discovered@);
    distinct
}

/// The first occurrences hold every address of `s`, each once.
pub proof fn lemma_first_occurrences(s: Seq<SocketAddr>)
    ensures
        first_occurrences(s).no_duplicates(),
        forall|a: SocketAddr| #[trigger] first_occurrences(s).contains(a) <==> s.contains(a),
    decreases s.len(),
{
    if s.len() > 0 {
        let rest = s.drop_last();
        lemma_first_occurrences(rest);
        assert(first_occurrences(rest).contains(s.last()) <==> rest.contains(s.last()));
        assert forall|a: SocketAddr| #[trigger] first_occurrences(s).contains(a) implies s.contains(
            a,
        ) by {
            if first_occurrences(rest).contains(a) {
                let i = choose|i: int| 0 <= i < rest.len() && rest[i] == a;
                assert(s[i] == a);
            } else {
                assert(a == s.last());
                assert(s[s.len() - 1] == a);
            }
        }
        assert forall|a: SocketAddr| s.contains(a) implies #[trigger] first_occurrences(s).contains(
            a,
        ) by {
            let i = choose|i: int| 0 <= i < s.len() && s[i] == a;
            if i < rest.len() {
                assert(rest[i] == a);
                assert(first_occurrences(rest).contains(a));
                let j = choose|j: int|
                    0 <= j < first_occurrences(rest).len() && first_occurrences(rest)[j] == a;
                assert(first_occurrences(s)[j] == a);
            } else if rest.contains(a) {
                assert(first_occurrences(rest).contains(a));
            } else {
                assert(first_occurrences(s).last() == a);
            }
        }
    }
}

/// Shuffles with `rand::seq::SliceRandom::shuffle` on the thread's generator. Whatever is drawn,
/// the result holds the same addresses, each as often.
#[verifier::external_body]
fn shuffle(addresses: Vec<SocketAddr>) -> (shuffled: Vec<SocketAddr>)
    ensures
        shuffled@.to_multiset() == addresses@.to_multiset(),
{
    let mut shuffled = addresses;
    shuffled.shuffle(&mut rand::thread_rng());
    shuffled
}

/// Caps a shuffled set and orders it IPv6 first.
pub fn order_shuffled(shuffled: Vec<SocketAddr>) -> (ordered: Vec<SocketAddr>)
    ensures
        ordered@ == v6_first(capped(shuffled@)),
{
    let mut sample = shuffled;
    sample.truncate(MAX_DISCOVERED_CANDIDATES);
    assert(sample@ =~= capped(shuffled@));
    order_candidates(&sample)
}

/// The dial order of a discovered set: distinct, shuffled, capped, then IPv6 first.
///
/// The cap comes after the shuffle, so that what an introducer lists first is not what survives.
pub fn candidate_order(discovered: &[SocketAddr]) -> (ordered: Vec<SocketAddr>)
    ensures
        exists|shuffled: Seq<SocketAddr>|
            shuffled.to_multiset() == first_occurrences(discovered@).to_multiset() && ordered@
                == #[trigger] v6_first(capped(shuffled)),
{
    order_shuffled(shuffle(distinct_addresses(discovered)))
}

/// A filter keeps distinct addresses distinct, and splits the sequence in two.
proof fn lemma_families(s: Seq<SocketAddr>)
    requires
        s.no_duplicates(),
    ensures
        v6_first(s).no_duplicates(),
        v6_first(s).len() == s.len(),
        forall|a: SocketAddr| #[trigger] v6_first(s).contains(a) <==> s.contains(a),
    decreases s.len(),
{
    let six = |a: SocketAddr| a.is_v6();
    let four = |a: SocketAddr| !a.is_v6();
    reveal(Seq::filter);
    if s.len() > 0 {
        let rest = s.drop_last();
        let last = s.last();
        assert forall|i: int, j: int| 0 <= i < rest.len() && 0 <= j < rest.len() && i != j implies
            rest[i] != rest[j] by {
            assert(s[i] == rest[i] && s[j] == rest[j]);
        }
        lemma_families(rest);
        let a = rest.filter(six);
        let b = rest.filter(four);
        assert(!rest.contains(last)) by {
            if rest.contains(last) {
                let i = choose|i: int| 0 <= i < rest.len() && rest[i] == last;
                assert(s[i] == s[s.len() - 1]);
            }
        }
        assert(!v6_first(rest).contains(last));
        let before = v6_first(rest);
        let after = v6_first(s);
        let at: int = if last.is_v6() {
            a.len() as int
        } else {
            before.len() as int
        };
        assert(after =~= before.insert(at, last));
        before.insert_ensures(at, last);
        assert forall|i: int, j: int| 0 <= i < after.len() && 0 <= j < after.len() && i != j implies
            after[i] != after[j] by {
            if i == at {
                let k = if j < at { j } else { j - 1 };
                assert(before[k] == after[j]);
                assert(before.contains(after[j]));
            } else if j == at {
                let k = if i < at { i } else { i - 1 };
                assert(before[k] == after[i]);
                assert(before.contains(after[i]));
            } else {
                let k = if i < at { i } else { i - 1 };
                let l = if j < at { j } else { j - 1 };
                assert(before[k] == after[i] && before[l] == after[j]);
            }
        }
        assert forall|x: SocketAddr| #[trigger] after.contains(x) implies s.contains(x) by {
            let i = choose|i: int| 0 <= i < after.len() && after[i] == x;
            if i == at {
                assert(s[s.len() - 1] == x);
            } else {
                let k = if i < at { i } else { i - 1 };
                assert(before[k] == x);
                assert(before.contains(x));
                let m = choose|m: int| 0 <= m < rest.len() && rest[m] == x;
                assert(s[m] == x);
            }
        }
        assert forall|x: SocketAddr| s.contains(x) implies #[trigger] after.contains(x) by {
            let m = choose|m: int| 0 <= m < s.len() && s[m] == x;
            if m == s.len() - 1 {
                assert(after[at] == x);
            } else {
                assert(rest[m] == x);
                assert(before.contains(x));
                let k = choose|k: int| 0 <= k < before.len() && before[k] == x;
                let i = if k < at { k } else { k + 1 };
                assert(after[i] == x);
            }
        }
    }
}

/// Whatever the shuffle drew, the dial order offers each address at most once and only addresses
/// that were discovered, offers no more than the cap and no fewer than it could, leaves out
/// nothing of a set within the cap, and puts every IPv6 address ahead of every IPv4 one.
pub proof fn law_dial_order(discovered: Seq<SocketAddr>, shuffled: Seq<SocketAddr>)
    requires
        shuffled.to_multiset() == first_occurrences(discovered).to_multiset(),
    ensures
        v6_first(capped(shuffled)).no_duplicates(),
        forall|a: SocketAddr| #[trigger]
            v6_first(capped(shuffled)).contains(a) ==> discovered.contains(a),
        v6_first(capped(shuffled)).len() == (if first_occurrences(discovered).len()
            > MAX_DISCOVERED_CANDIDATES {
            MAX_DISCOVERED_CANDIDATES as int
        } else {
            first_occurrences(discovered).len() as int
        }),
        first_occurrences(discovered).len() <= MAX_DISCOVERED_CANDIDATES ==> forall|a: SocketAddr|
            discovered.contains(a) ==> #[trigger] v6_first(capped(shuffled)).contains(a),
        forall|i: int, j: int|
            0 <= i < j < v6_first(capped(shuffled)).len() && (#[trigger] v6_first(
                capped(shuffled),
            )[j]).is_v6() ==> (#[trigger] v6_first(capped(shuffled))[i]).is_v6(),
{
    broadcast use vstd::seq_lib::group_to_multiset_ensures;

    let distinct = first_occurrences(discovered);
    lemma_first_occurrences(discovered);
    distinct.lemma_multiset_has_no_duplicates();
    shuffled.lemma_multiset_has_no_duplicates_conv();
    assert forall|a: SocketAddr| shuffled.contains(a) <==> #[trigger] distinct.contains(a) by {
        assert(shuffled.to_multiset().count(a) == distinct.to_multiset().count(a));
    }
    assert(shuffled.len() == shuffled.to_multiset().len());
    assert(distinct.len() == distinct.to_multiset().len());
    let sample = capped(shuffled);
    assert(sample.no_duplicates());
    lemma_families(sample);
    let six = |a: SocketAddr| a.is_v6();
    let four = |a: SocketAddr| !a.is_v6();
    let r = v6_first(sample);
    assert forall|a: SocketAddr| #[trigger] r.contains(a) implies discovered.contains(a) by {
        assert(sample.contains(a));
        let i = choose|i: int| 0 <= i < sample.len() && sample[i] == a;
        assert(shuffled[i] == a);
        assert(distinct.contains(a));
    }
    assert forall|i: int, j: int| 0 <= i < j < r.len() && (#[trigger] r[j]).is_v6() implies (
    #[trigger] r[i]).is_v6() by {
        let n = sample.filter(six).len();
        if j >= n {
            sample.lemma_filter_pred(four, j - n);
        } else {
            sample.lemma_filter_pred(six, i);
        }
    }
    if distinct.len() <= MAX_DISCOVERED_CANDIDATES {
        assert forall|a: SocketAddr| discovered.contains(a) implies #[trigger] r.contains(a) by {
            assert(distinct.contains(a));
        }
    }
}

/// The distinct addresses are gathered one by one: an address joins the others where it is met
/// first, and never again.
pub proof fn law_addresses_are_gathered_where_met_first(s: Seq<SocketAddr>, a: SocketAddr)
    ensures
        first_occurrences(Seq::empty()) == Seq::<SocketAddr>::empty(),
        first_occurrences(s.push(a)) == (if exists|i: int| 0 <= i < s.len() && #[trigger] s[i] == a {
            first_occurrences(s)
        } else {
            first_occurrences(s).push(a)
        }),
{
    assert(s.push(a).drop_last() =~= s);
    assert(s.contains(a) <==> exists|i: int| 0 <= i < s.len() && #[trigger] s[i] == a);
}

/// One address more goes to the end of the dial order if it is an IPv4 one, and right behind the
/// IPv6 ones if it is an IPv6 one.
pub proof fn law_families_are_gathered_one_by_one(s: Seq<SocketAddr>, a: SocketAddr)
    ensures
        v6_first(Seq::empty()) == Seq::<SocketAddr>::empty(),
        a.ip is V4 ==> v6_first(s.push(a)) == v6_first(s).push(a),
        a.ip is V6 ==> exists|n: int|
            0 <= n <= v6_first(s).len() && (forall|i: int|
                0 <= i < v6_first(s).len() ==> ((#[trigger] v6_first(s)[i]).ip is V6 <==> i < n))
                && v6_first(s.push(a)) == #[trigger] v6_first(s).insert(n, a),
{
    let six = |a: SocketAddr| a.is_v6();
    let four = |a: SocketAddr| !a.is_v6();
    reveal(Seq::filter);
    assert(v6_first(Seq::empty()) =~= Seq::<SocketAddr>::empty());
    s.lemma_filter_push(a, six);
    s.lemma_filter_push(a, four);
    let n = s.filter(six).len() as int;
    if a.ip is V4 {
        assert(v6_first(s.push(a)) =~= v6_first(s).push(a));
    } else {
        assert forall|i: int| 0 <= i < v6_first(s).len() implies ((#[trigger] v6_first(
            s,
        )[i]).ip is V6 <==> i < n) by {
            if i < n {
                s.lemma_filter_pred(six, i);
            } else {
                s.lemma_filter_pred(four, i - n);
            }
        }
        assert(v6_first(s.push(a)) =~= v6_first(s).insert(n, a));
    }
}

/// No more than sixteen discovered addresses are considered, the first ones as they stand, and all
/// of them where there are no more.
pub proof fn law_at_most_sixteen_are_considered(s: Seq<SocketAddr>)
    ensures
        s.len() <= 16 ==> capped(s) == s,
        s.len() > 16 ==> capped(s).len() == 16 && forall|i: int|
            0 <= i < 16 ==> #[trigger] capped(s)[i] == s[i],
{
}

} // verus!
