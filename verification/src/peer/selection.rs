//! Which of a round's successful dials are kept.
//!
//! The pool dials wider than it can hold and keeps the most credible answers. A priority candidate
//! comes first, then the faster handshake. A repeated address counts once. The slots are spread
//! over as many routing prefixes as the round reached, without leaving one empty for want of
//! diversity.

use vstd::prelude::*;

use crate::address::{SocketAddr, SubnetKey};
use crate::peer::connect::PeerOrigin;
use crate::peer::ordering::DIAL_OVERSUBSCRIPTION;

verus! {

/// A dial that succeeded, to be judged against the others of its round.
pub struct DialCandidate<T> {
    pub origin: PeerOrigin,
    /// The address the dial reached.
    pub address: SocketAddr,
    /// How long the dial took, in nanoseconds.
    pub handshake: u128,
    pub connection: T,
}

/// How many dials to open when `wanted` slots remain.
pub fn dials_for(wanted: usize) -> (dials: usize)
    ensures
        dials == (if wanted * DIAL_OVERSUBSCRIPTION > usize::MAX {
            usize::MAX as int
        } else {
            wanted * DIAL_OVERSUBSCRIPTION
        }),
{
    match wanted.checked_mul(DIAL_OVERSUBSCRIPTION) {
        Some(dials) => dials,
        None => usize::MAX,
    }
}

/// Whether `a` is the more credible of two: a priority candidate before any other, then by the
/// faster handshake.
pub open spec fn ranks_before<T>(a: DialCandidate<T>, b: DialCandidate<T>) -> bool {
    let a_own = a.origin == PeerOrigin::Priority;
    let b_own = b.origin == PeerOrigin::Priority;
    (a_own && !b_own) || (a_own == b_own && a.handshake < b.handshake)
}

/// Whether neither is the more credible.
pub open spec fn same_rank<T>(a: DialCandidate<T>, b: DialCandidate<T>) -> bool {
    !ranks_before(a, b) && !ranks_before(b, a)
}

/// How many candidates at the head of `rest` are more credible than `c`.
pub open spec fn insertion_point<T>(c: DialCandidate<T>, rest: Seq<DialCandidate<T>>) -> int
    decreases rest.len(),
{
    if rest.len() > 0 && ranks_before(rest[0], c) {
        1 + insertion_point(c, rest.drop_first())
    } else {
        0
    }
}

/// `s` by descending credibility; those of equal rank keep their order.
pub open spec fn ranked<T>(s: Seq<DialCandidate<T>>) -> Seq<DialCandidate<T>>
    decreases s.len(),
{
    if s.len() == 0 {
        s
    } else {
        let rest = ranked(s.drop_first());
        rest.insert(insertion_point(s[0], rest), s[0])
    }
}

/// Whether a candidate of `s` reached `address`.
pub open spec fn reaches<T>(s: Seq<DialCandidate<T>>, address: SocketAddr) -> bool {
    exists|i: int| 0 <= i < s.len() && (#[trigger] s[i]).address == address
}

/// `s` without the candidates whose address stood earlier in it.
pub open spec fn one_per_address<T>(s: Seq<DialCandidate<T>>) -> Seq<DialCandidate<T>>
    decreases s.len(),
{
    if s.len() == 0 {
        s
    } else {
        let head = one_per_address(s.drop_last());
        if reaches(s.drop_last(), s.last().address) {
            head
        } else {
            head.push(s.last())
        }
    }
}

fn is_before<T>(a: &DialCandidate<T>, b: &DialCandidate<T>) -> (before: bool)
    ensures
        before == ranks_before(*a, *b),
{
    let a_own = a.origin == PeerOrigin::Priority;
    let b_own = b.origin == PeerOrigin::Priority;
    (a_own && !b_own) || (a_own == b_own && a.handshake < b.handshake)
}

proof fn lemma_insertion_point<T>(c: DialCandidate<T>, rest: Seq<DialCandidate<T>>)
    ensures
        0 <= insertion_point(c, rest) <= rest.len(),
        forall|i: int| 0 <= i < insertion_point(c, rest) ==> ranks_before(#[trigger] rest[i], c),
        insertion_point(c, rest) < rest.len() ==> !ranks_before(rest[insertion_point(c, rest)], c),
    decreases rest.len(),
{
    if rest.len() > 0 && ranks_before(rest[0], c) {
        let tail = rest.drop_first();
        lemma_insertion_point(c, tail);
        assert forall|i: int| 0 <= i < insertion_point(c, rest) implies ranks_before(
            #[trigger] rest[i],
            c,
        ) by {
            if i > 0 {
                assert(tail[i - 1] == rest[i]);
            }
        }
        if insertion_point(c, rest) < rest.len() {
            assert(tail[insertion_point(c, tail)] == rest[insertion_point(c, rest)]);
        }
    }
}

/// The insertion point is the only position with its two properties.
proof fn lemma_insertion_point_unique<T>(c: DialCandidate<T>, rest: Seq<DialCandidate<T>>, at: int)
    requires
        0 <= at <= rest.len(),
        forall|i: int| 0 <= i < at ==> ranks_before(#[trigger] rest[i], c),
        at < rest.len() ==> !ranks_before(rest[at], c),
    ensures
        at == insertion_point(c, rest),
{
    lemma_insertion_point(c, rest);
    let p = insertion_point(c, rest);
    if p < at {
        assert(ranks_before(rest[p], c));
    }
}

/// Orders candidates by descending credibility.
pub fn rank<T>(candidates: Vec<DialCandidate<T>>) -> (ordered: Vec<DialCandidate<T>>)
    ensures
        ordered@ == ranked(candidates@),
{
    let ghost all = candidates@;
    let mut left = candidates;
    let mut ordered: Vec<DialCandidate<T>> = Vec::new();
    assert(all.skip(all.len() as int) =~= Seq::<DialCandidate<T>>::empty());
    while left.len() > 0
        invariant
            left@ == all.take(left@.len() as int),
            left@.len() <= all.len(),
            ordered@ == ranked(all.skip(left@.len() as int)),
        decreases left.len(),
    {
        let ghost n = left@.len() as int;
        let taken = left.pop();
        match taken {
            Some(c) => {
                let mut at: usize = 0;
                while at < ordered.len() && is_before(&ordered[at], &c)
                    invariant
                        at <= ordered.len(),
                        forall|i: int| 0 <= i < at ==> ranks_before(#[trigger] ordered@[i], c),
                    decreases ordered.len() - at,
                {
                    at = at + 1;
                }
                proof {
                    lemma_insertion_point_unique(c, ordered@, at as int);
                    assert(all.skip(n - 1)[0] == c);
                    assert(all.skip(n - 1).drop_first() =~= all.skip(n));
                    assert(left@ =~= all.take(n - 1));
                }
                ordered.insert(at, c);
            },
            None => {},
        }
    }
    assert(all.skip(0) =~= all);
    ordered
}

fn has_address<T>(candidates: &Vec<DialCandidate<T>>, address: SocketAddr) -> (found: bool)
    ensures
        found == reaches(candidates@, address),
{
    let mut i: usize = 0;
    while i < candidates.len()
        invariant
            i <= candidates.len(),
            forall|j: int| 0 <= j < i ==> (#[trigger] candidates@[j]).address != address,
        decreases candidates.len() - i,
    {
        if candidates[i].address == address {
            return true;
        }
        i = i + 1;
    }
    false
}

/// One candidate per address reaches exactly what all of them reach.
pub proof fn lemma_one_per_address<T>(s: Seq<DialCandidate<T>>)
    ensures
        forall|a: SocketAddr| #[trigger] reaches(one_per_address(s), a) <==> reaches(s, a),
        forall|i: int, j: int|
            0 <= i < one_per_address(s).len() && 0 <= j < one_per_address(s).len() && i != j ==> (
            #[trigger] one_per_address(s)[i]).address != (#[trigger] one_per_address(s)[j]).address,
        forall|i: int|
            0 <= i < one_per_address(s).len() ==> s.contains(#[trigger] one_per_address(s)[i]),
    decreases s.len(),
{
    if s.len() > 0 {
        let rest = s.drop_last();
        let head = one_per_address(rest);
        let out = one_per_address(s);
        lemma_one_per_address(rest);
        assert forall|a: SocketAddr| #[trigger] reaches(out, a) implies reaches(s, a) by {
            let i = choose|i: int| 0 <= i < out.len() && (#[trigger] out[i]).address == a;
            if i < head.len() {
                assert(head[i].address == a);
                assert(reaches(head, a));
                let j = choose|j: int| 0 <= j < rest.len() && (#[trigger] rest[j]).address == a;
                assert(s[j].address == a);
            } else {
                assert(s[s.len() - 1].address == a);
            }
        }
        assert forall|a: SocketAddr| reaches(s, a) implies #[trigger] reaches(out, a) by {
            let j = choose|j: int| 0 <= j < s.len() && (#[trigger] s[j]).address == a;
            if j < rest.len() {
                assert(rest[j].address == a);
                assert(reaches(rest, a));
            }
            if reaches(rest, a) {
                assert(reaches(head, a));
                let i = choose|i: int| 0 <= i < head.len() && (#[trigger] head[i]).address == a;
                assert(out[i].address == a);
            } else {
                assert(out[out.len() - 1].address == a);
            }
        }
        assert forall|i: int, j: int|
            0 <= i < out.len() && 0 <= j < out.len() && i != j implies (#[trigger] out[i]).address
            != (#[trigger] out[j]).address by {
            if out.len() > head.len() {
                assert(!reaches(head, s.last().address));
                if i < head.len() {
                    assert(head[i] == out[i]);
                }
                if j < head.len() {
                    assert(head[j] == out[j]);
                }
            } else {
                assert(head[i] == out[i] && head[j] == out[j]);
            }
        }
        assert forall|i: int| 0 <= i < out.len() implies s.contains(#[trigger] out[i]) by {
            if i < head.len() {
                assert(head[i] == out[i]);
                assert(rest.contains(head[i]));
                let j = choose|j: int| 0 <= j < rest.len() && rest[j] == head[i];
                assert(s[j] == out[i]);
            } else {
                assert(s[s.len() - 1] == out[i]);
            }
        }
    }
}

/// Drops the candidates whose address stood earlier.
pub fn dedup_by_address<T>(candidates: Vec<DialCandidate<T>>) -> (kept: Vec<DialCandidate<T>>)
    ensures
        kept@ == one_per_address(candidates@),
{
    let ghost all = candidates@;
    let mut left = candidates;
    let mut kept: Vec<DialCandidate<T>> = Vec::new();
    let ghost mut done: int = 0;
    assert(all.skip(0) =~= all);
    assert(all.take(0) =~= Seq::<DialCandidate<T>>::empty());
    while left.len() > 0
        invariant
            0 <= done <= all.len(),
            left@ == all.skip(done),
            kept@ == one_per_address(all.take(done)),
        decreases left.len(),
    {
        let c = left.remove(0);
        proof {
            lemma_one_per_address(all.take(done));
            assert(all.take(done + 1).drop_last() =~= all.take(done));
            assert(all.take(done + 1).last() == c);
            assert(left@ =~= all.skip(done + 1));
            assert(reaches(one_per_address(all.take(done)), c.address) <==> reaches(
                all.take(done),
                c.address,
            ));
            done = done + 1;
        }
        if !has_address(&kept, c.address) {
            kept.push(c);
        }
    }
    assert(all.take(done) =~= all);
    kept
}

/// Whether a candidate was reached from a priority address.
pub open spec fn is_own<T>() -> spec_fn(DialCandidate<T>) -> bool {
    |c: DialCandidate<T>| c.origin == PeerOrigin::Priority
}

/// Whether a candidate was discovered.
pub open spec fn is_stranger<T>() -> spec_fn(DialCandidate<T>) -> bool {
    |c: DialCandidate<T>| c.origin != PeerOrigin::Priority
}

/// Whether a candidate lies in the block `key`.
pub open spec fn lies_in<T>(key: SubnetKey) -> spec_fn(DialCandidate<T>) -> bool {
    |c: DialCandidate<T>| SubnetKey::spec_of(c.address) == key
}

/// The blocks the candidates of `d` lie in, each where it is met first.
pub open spec fn subnets<T>(d: Seq<DialCandidate<T>>) -> Seq<SubnetKey>
    decreases d.len(),
{
    if d.len() == 0 {
        Seq::empty()
    } else {
        let head = subnets(d.drop_last());
        let key = SubnetKey::spec_of(d.last().address);
        if head.contains(key) {
            head
        } else {
            head.push(key)
        }
    }
}

/// The candidates of `d` in the block `key`, in order.
pub open spec fn bucket<T>(d: Seq<DialCandidate<T>>, key: SubnetKey) -> Seq<DialCandidate<T>> {
    d.filter(lies_in(key))
}

/// One pass over the blocks of `order`: the candidate at depth `k` of each that has one.
pub open spec fn pass<T>(d: Seq<DialCandidate<T>>, order: Seq<SubnetKey>, k: int) -> Seq<
    DialCandidate<T>,
>
    decreases order.len(),
{
    if order.len() == 0 {
        Seq::empty()
    } else {
        let head = pass(d, order.drop_last(), k);
        let b = bucket(d, order.last());
        if k < b.len() {
            head.push(b[k])
        } else {
            head
        }
    }
}

/// The first `n` passes, one after another.
pub open spec fn passes<T>(d: Seq<DialCandidate<T>>, order: Seq<SubnetKey>, n: int) -> Seq<
    DialCandidate<T>,
>
    decreases n,
{
    if n <= 0 {
        Seq::empty()
    } else {
        passes(d, order, n - 1) + pass(d, order, n - 1)
    }
}

/// `s` with its priority candidates first, and then the discovered ones taken in turns: one of
/// each block, a second of each, and so on.
pub open spec fn spread<T>(s: Seq<DialCandidate<T>>) -> Seq<DialCandidate<T>> {
    let d = s.filter(is_stranger());
    s.filter(is_own()) + passes(d, subnets(d), d.len() as int)
}

/// The most credible candidates of a round for `slots` slots.
pub open spec fn credible<T>(s: Seq<DialCandidate<T>>, slots: int) -> Seq<DialCandidate<T>> {
    let all = spread(one_per_address(ranked(s)));
    if slots < all.len() {
        all.take(slots)
    } else {
        all
    }
}

/// What is left of `b` when its first `k` are gone.
spec fn left_of<T>(b: Seq<DialCandidate<T>>, k: int) -> Seq<DialCandidate<T>> {
    if k < b.len() {
        b.skip(k)
    } else {
        Seq::empty()
    }
}

/// The blocks are met, each once, and every candidate lies in one.
proof fn lemma_subnets<T>(d: Seq<DialCandidate<T>>)
    ensures
        subnets(d).no_duplicates(),
        subnets(d).len() <= d.len(),
        forall|i: int|
            0 <= i < d.len() ==> subnets(d).contains(
                SubnetKey::spec_of((#[trigger] d[i]).address),
            ),
        forall|key: SubnetKey| #[trigger] subnets(d).contains(key) ==> bucket(d, key).len() > 0,
    decreases d.len(),
{
    reveal(Seq::filter);
    if d.len() > 0 {
        let rest = d.drop_last();
        let key = SubnetKey::spec_of(d.last().address);
        lemma_subnets(rest);
        assert forall|i: int| 0 <= i < d.len() implies subnets(d).contains(
            SubnetKey::spec_of((#[trigger] d[i]).address),
        ) by {
            let k = SubnetKey::spec_of(d[i].address);
            if i < rest.len() {
                assert(rest[i] == d[i]);
                assert(subnets(rest).contains(k));
                let j = choose|j: int| 0 <= j < subnets(rest).len() && subnets(rest)[j] == k;
                assert(subnets(d)[j] == k);
            } else if !subnets(rest).contains(k) {
                assert(subnets(d).last() == k);
            }
        }
        assert forall|k: SubnetKey| #[trigger] subnets(d).contains(k) implies bucket(d, k).len()
            > 0 by {
            if subnets(rest).contains(k) {
                assert(bucket(rest, k).len() > 0);
            } else {
                assert(k == key);
            }
        }
    }
}

/// One candidate more: its block gains it, and the others stay.
proof fn lemma_bucket_push<T>(d: Seq<DialCandidate<T>>, c: DialCandidate<T>, key: SubnetKey)
    ensures
        bucket(d.push(c), key) == (if SubnetKey::spec_of(c.address) == key {
            bucket(d, key).push(c)
        } else {
            bucket(d, key)
        }),
        !subnets(d).contains(key) ==> bucket(d, key).len() == 0,
{
    d.lemma_filter_push(c, lies_in(key));
    if !subnets(d).contains(key) && bucket(d, key).len() > 0 {
        lemma_subnets(d);
        let c0 = bucket(d, key)[0];
        d.lemma_filter_pred(lies_in(key), 0);
        assert(bucket(d, key).contains(c0));
        d.lemma_filter_contains_rev(lies_in(key), c0);
        let i = choose|i: int| 0 <= i < d.len() && d[i] == c0;
        assert(subnets(d).contains(SubnetKey::spec_of(d[i].address)));
    }
}

/// Passes past the end of every block add nothing.
proof fn lemma_pass_empty<T>(d: Seq<DialCandidate<T>>, order: Seq<SubnetKey>, k: int)
    requires
        forall|i: int| 0 <= i < order.len() ==> bucket(d, #[trigger] order[i]).len() <= k,
    ensures
        pass(d, order, k) == Seq::<DialCandidate<T>>::empty(),
    decreases order.len(),
{
    if order.len() > 0 {
        assert forall|i: int| 0 <= i < order.drop_last().len() implies bucket(
            d,
            #[trigger] order.drop_last()[i],
        ).len() <= k by {
            assert(order[i] == order.drop_last()[i]);
        }
        lemma_pass_empty(d, order.drop_last(), k);
        assert(bucket(d, order[order.len() - 1]).len() <= k);
    }
}

proof fn lemma_passes_stop<T>(d: Seq<DialCandidate<T>>, order: Seq<SubnetKey>, m: int, n: int)
    requires
        0 <= m <= n,
        forall|i: int| 0 <= i < order.len() ==> bucket(d, #[trigger] order[i]).len() <= m,
    ensures
        passes(d, order, m) == passes(d, order, n),
    decreases n - m,
{
    if m < n {
        lemma_passes_stop(d, order, m, n - 1);
        lemma_pass_empty(d, order, n - 1);
        assert(passes(d, order, n) =~= passes(d, order, n - 1));
    }
}

fn key_position(order: &Vec<SubnetKey>, key: SubnetKey) -> (at: Option<usize>)
    ensures
        at is Some <==> order@.contains(key),
        at matches Some(i) ==> i < order@.len() && order@[i as int] == key,
{
    let mut i: usize = 0;
    while i < order.len()
        invariant
            i <= order.len(),
            forall|j: int| 0 <= j < i ==> order@[j] != key,
        decreases order.len() - i,
    {
        if order[i] == key {
            return Some(i);
        }
        i = i + 1;
    }
    None
}

/// Takes the buckets in turns until they are empty.
fn take_turns<T>(
    own: Vec<DialCandidate<T>>,
    order: &Vec<SubnetKey>,
    filled: Vec<Vec<DialCandidate<T>>>,
    Ghost(d): Ghost<Seq<DialCandidate<T>>>,
) -> (turns: Vec<DialCandidate<T>>)
    requires
        order@ == subnets(d),
        filled@.len() == order@.len(),
        forall|i: int| 0 <= i < order@.len() ==> (#[trigger] filled@[i])@ == bucket(d, order@[i]),
    ensures
        turns@ == own@ + passes(d, subnets(d), d.len() as int),
{
    let mut buckets = filled;
    let mut turns = own;
    let mut remaining = true;
    let ghost mut k: int = 0;
    proof {
        assert forall|i: int| 0 <= i < order@.len() implies (#[trigger] buckets@[i])@ == left_of(
            bucket(d, order@[i]),
            0,
        ) by {
            assert(bucket(d, order@[i]).skip(0) =~= bucket(d, order@[i]));
        }
        assert(own@ + passes(d, order@, 0) =~= own@);
        assert forall|i: int| 0 <= i < order@.len() implies bucket(d, #[trigger] order@[i]).len()
            <= d.len() by {
            d.lemma_filter_len(lies_in(order@[i]));
        }
    }
    while remaining
        invariant
            0 <= k,
            order@ == subnets(d),
            buckets@.len() == order@.len(),
            forall|i: int|
                0 <= i < order@.len() ==> (#[trigger] buckets@[i])@ == left_of(
                    bucket(d, order@[i]),
                    k,
                ),
            forall|i: int| 0 <= i < order@.len() ==> bucket(d, #[trigger] order@[i]).len() <= d.len(),
            turns@ == own@ + passes(d, order@, k),
            k > 0 && remaining ==> k < d.len(),
            !remaining ==> forall|i: int|
                0 <= i < order@.len() ==> bucket(d, #[trigger] order@[i]).len() <= k,
        decreases d.len() + 1 - k,
    {
        remaining = false;
        let mut i: usize = 0;
        assert(turns@ =~= own@ + passes(d, order@, k) + pass(d, order@.take(0), k));
        while i < order.len()
            invariant
                i <= order@.len(),
                0 <= k,
                buckets@.len() == order@.len(),
                forall|j: int| 0 <= j < order@.len() ==> bucket(d, #[trigger] order@[j]).len()
                    <= d.len(),
                forall|j: int|
                    0 <= j < i ==> (#[trigger] buckets@[j])@ == left_of(
                        bucket(d, order@[j]),
                        k + 1,
                    ),
                forall|j: int|
                    i <= j < order@.len() ==> (#[trigger] buckets@[j])@ == left_of(
                        bucket(d, order@[j]),
                        k,
                    ),
                turns@ == own@ + passes(d, order@, k) + pass(d, order@.take(i as int), k),
                remaining ==> k + 1 < d.len(),
                !remaining ==> forall|j: int|
                    0 <= j < i ==> bucket(d, #[trigger] order@[j]).len() <= k + 1,
            decreases order.len() - i,
        {
            let ghost b = bucket(d, order@[i as int]);
            let ghost before = turns@;
            proof {
                assert(order@.take(i + 1).drop_last() =~= order@.take(i as int));
                assert(order@.take(i + 1).last() == order@[i as int]);
            }
            let current = &mut buckets[i];
            if current.len() > 0 {
                let c = current.remove(0);
                if current.len() > 0 {
                    remaining = true;
                }
                assert(left_of(b, k).remove(0) =~= left_of(b, k + 1));
                turns.push(c);
                assert(turns@ =~= own@ + passes(d, order@, k) + pass(d, order@.take(i + 1), k));
            }
            i = i + 1;
        }
        assert(order@.take(order@.len() as int) =~= order@);
        assert(turns@ =~= own@ + passes(d, order@, k + 1));
        proof {
            k = k + 1;
        }
    }
    proof {
        if k <= d.len() {
            lemma_passes_stop(d, order@, k, d.len() as int);
        } else {
            lemma_passes_stop(d, order@, d.len() as int, k);
        }
    }
    turns
}

/// Reorders a ranked round so that the slots go to as many blocks as it reached.
pub fn spread_across_subnets<T>(candidates: Vec<DialCandidate<T>>) -> (reordered: Vec<
    DialCandidate<T>,
>)
    ensures
        reordered@ == spread(candidates@),
{
    let ghost all = candidates@;
    let mut left = candidates;
    let mut own: Vec<DialCandidate<T>> = Vec::new();
    let mut order: Vec<SubnetKey> = Vec::new();
    let mut buckets: Vec<Vec<DialCandidate<T>>> = Vec::new();
    let ghost mut done: int = 0;
    let ghost mut d: Seq<DialCandidate<T>> = Seq::empty();
    proof {
        reveal(Seq::filter);
        assert(all.skip(0) =~= all);
        assert(all.take(0) =~= Seq::<DialCandidate<T>>::empty());
    }
    while left.len() > 0
        invariant
            0 <= done <= all.len(),
            left@ == all.skip(done),
            own@ == all.take(done).filter(is_own()),
            d == all.take(done).filter(is_stranger()),
            order@ == subnets(d),
            buckets@.len() == order@.len(),
            forall|i: int|
                0 <= i < order@.len() ==> (#[trigger] buckets@[i])@ == bucket(d, order@[i]),
        decreases left.len(),
    {
        let c = left.remove(0);
        proof {
            assert(left@ =~= all.skip(done + 1));
            assert(all.take(done + 1) =~= all.take(done).push(c));
            all.take(done).lemma_filter_push(c, is_own());
            all.take(done).lemma_filter_push(c, is_stranger());
            done = done + 1;
        }
        if c.origin == PeerOrigin::Priority {
            own.push(c);
        } else {
            let key = SubnetKey::of(c.address);
            let ghost more = d.push(c);
            proof {
                lemma_subnets(d);
                assert(more.drop_last() =~= d);
                assert forall|i: int| 0 <= i < order@.len() implies bucket(more, #[trigger]
                    order@[i]) == (if order@[i] == key {
                    bucket(d, order@[i]).push(c)
                } else {
                    bucket(d, order@[i])
                }) by {
                    lemma_bucket_push(d, c, order@[i]);
                }
                lemma_bucket_push(d, c, key);
            }
            match key_position(&order, key) {
                Some(at) => {
                    let ghost before = buckets@;
                    let chosen = &mut buckets[at];
                    chosen.push(c);
                    assert forall|i: int| 0 <= i < order@.len() implies (#[trigger] buckets@[i])@
                        == bucket(more, order@[i]) by {
                        if i != at {
                            assert(order@[i] != key);
                            assert(buckets@[i] == before[i]);
                        }
                    }
                },
                None => {
                    let mut fresh: Vec<DialCandidate<T>> = Vec::new();
                    fresh.push(c);
                    order.push(key);
                    buckets.push(fresh);
                    assert(buckets@[buckets@.len() - 1]@ =~= bucket(more, key));
                },
            }
            proof {
                d = more;
            }
        }
    }
    assert(all.take(done) =~= all);
    take_turns(own, &order, buckets, Ghost(d))
}

/// Keeps the `slots` most credible candidates of a round.
///
/// Repeated addresses go before the cut. A round produces them by construction, since every dial
/// offers the priority addresses first, and the copies of the fastest peer stand together at the
/// head.
pub fn most_credible<T>(candidates: Vec<DialCandidate<T>>, slots: usize) -> (kept: Vec<
    DialCandidate<T>,
>)
    ensures
        kept@ == credible(candidates@, slots as int),
{
    let mut kept = spread_across_subnets(dedup_by_address(rank(candidates)));
    let ghost all = kept@;
    kept.truncate(slots);
    assert(kept@ =~= credible(candidates@, slots as int));
    kept
}

/// Ranking keeps every candidate, puts none behind a less credible one, and keeps the order of
/// those that tie.
pub proof fn law_ranking_is_a_stable_sort<T>(s: Seq<DialCandidate<T>>)
    ensures
        ranked(s).to_multiset() == s.to_multiset(),
        ranked(s).len() == s.len(),
        forall|i: int, j: int|
            0 <= i < j < ranked(s).len() ==> !ranks_before(
                #[trigger] ranked(s)[j],
                #[trigger] ranked(s)[i],
            ),
        forall|c: DialCandidate<T>|
            ranked(s).filter(#[trigger] ties_with(c)) == s.filter(ties_with(c)),
    decreases s.len(),
{
    broadcast use vstd::multiset::group_multiset_axioms;

    if s.len() == 0 {
        assert(ranked(s) =~= s);
    } else {
        let tail = s.drop_first();
        let rest = ranked(tail);
        let c = s[0];
        let at = insertion_point(c, rest);
        let out = ranked(s);
        law_ranking_is_a_stable_sort(tail);
        lemma_insertion_point(c, rest);
        rest.insert_ensures(at, c);
        vstd::seq_lib::to_multiset_insert(rest, at, c);
        vstd::seq_lib::to_multiset_insert(tail, 0, c);
        assert(tail.insert(0, c) =~= s);
        assert forall|i: int, j: int| 0 <= i < j < out.len() implies !ranks_before(
            #[trigger] out[j],
            #[trigger] out[i],
        ) by {
            if j < at {
                assert(out[i] == rest[i] && out[j] == rest[j]);
            } else if i > at {
                assert(out[i] == rest[i - 1] && out[j] == rest[j - 1]);
            } else if j == at {
                assert(out[i] == rest[i]);
            } else if i == at {
                assert(out[j] == rest[j - 1]);
                if j - 1 > at {
                    assert(!ranks_before(rest[j - 1], rest[at]));
                }
            } else {
                assert(out[i] == rest[i] && out[j] == rest[j - 1]);
            }
        }
        assert forall|k: DialCandidate<T>| out.filter(#[trigger] ties_with(k)) == s.filter(
            ties_with(k),
        ) by {
            let tie = ties_with(k);
            let before = rest.take(at);
            let after = rest.skip(at);
            assert(rest =~= before + after);
            assert(out =~= before.push(c) + after);
            assert(s =~= seq![c] + tail);
            Seq::filter_distributes_over_add(before, after, tie);
            Seq::filter_distributes_over_add(before.push(c), after, tie);
            Seq::filter_distributes_over_add(seq![c], tail, tie);
            before.lemma_filter_push(c, tie);
            assert(seq![c] =~= Seq::<DialCandidate<T>>::empty().push(c));
            Seq::<DialCandidate<T>>::empty().lemma_filter_push(c, tie);
            assert(Seq::<DialCandidate<T>>::empty().filter(tie) =~= Seq::empty()) by {
                reveal(Seq::filter);
            }
            if tie(c) {
                assert(before.filter(tie) =~= Seq::empty()) by {
                    if before.filter(tie).len() > 0 {
                        let x = before.filter(tie)[0];
                        before.lemma_filter_pred(tie, 0);
                        assert(before.filter(tie).contains(x));
                        before.lemma_filter_contains_rev(tie, x);
                        let i = choose|i: int| 0 <= i < before.len() && before[i] == x;
                        assert(rest[i] == x);
                    }
                }
            }
            assert(out.filter(tie) =~= s.filter(tie));
        }
    }
}

/// Whether a candidate ranks with `c`.
pub open spec fn ties_with<T>(c: DialCandidate<T>) -> spec_fn(DialCandidate<T>) -> bool {
    |x: DialCandidate<T>| same_rank(x, c)
}

/// The first `n` of `b`.
spec fn first_of<T>(b: Seq<DialCandidate<T>>, n: int) -> Seq<DialCandidate<T>> {
    if n < b.len() {
        b.take(n)
    } else {
        b
    }
}

/// The first `n` of each block, one block after another.
spec fn gathered<T>(d: Seq<DialCandidate<T>>, order: Seq<SubnetKey>, n: int) -> Seq<
    DialCandidate<T>,
>
    decreases order.len(),
{
    if order.len() == 0 {
        Seq::empty()
    } else {
        gathered(d, order.drop_last(), n) + first_of(bucket(d, order.last()), n)
    }
}

proof fn lemma_gather_step<T>(d: Seq<DialCandidate<T>>, order: Seq<SubnetKey>, n: int)
    requires
        0 <= n,
    ensures
        gathered(d, order, n + 1).to_multiset() == gathered(d, order, n).to_multiset().add(
            pass(d, order, n).to_multiset(),
        ),
    decreases order.len(),
{
    broadcast use vstd::multiset::group_multiset_axioms;
    broadcast use vstd::seq_lib::group_to_multiset_ensures;

    if order.len() > 0 {
        let rest = order.drop_last();
        let b = bucket(d, order.last());
        lemma_gather_step(d, rest, n);
        vstd::seq_lib::lemma_multiset_commutative(gathered(d, rest, n + 1), first_of(b, n + 1));
        vstd::seq_lib::lemma_multiset_commutative(gathered(d, rest, n), first_of(b, n));
        if n < b.len() {
            assert(first_of(b, n + 1) =~= first_of(b, n).push(b[n]));
        }
    }
    assert(gathered(d, order, n + 1).to_multiset() =~= gathered(d, order, n).to_multiset().add(
        pass(d, order, n).to_multiset(),
    ));
}

proof fn lemma_gather<T>(d: Seq<DialCandidate<T>>, order: Seq<SubnetKey>, n: int)
    requires
        0 <= n,
    ensures
        passes(d, order, n).to_multiset() == gathered(d, order, n).to_multiset(),
    decreases n,
{
    broadcast use vstd::multiset::group_multiset_axioms;

    if n == 0 {
        lemma_gathered_none(d, order);
    } else {
        lemma_gather(d, order, n - 1);
        lemma_gather_step(d, order, n - 1);
        vstd::seq_lib::lemma_multiset_commutative(passes(d, order, n - 1), pass(d, order, n - 1));
    }
}

proof fn lemma_gathered_none<T>(d: Seq<DialCandidate<T>>, order: Seq<SubnetKey>)
    ensures
        gathered(d, order, 0) == Seq::<DialCandidate<T>>::empty(),
    decreases order.len(),
{
    if order.len() > 0 {
        lemma_gathered_none(d, order.drop_last());
        assert(gathered(d, order, 0) =~= Seq::empty());
    }
}

proof fn lemma_gathered_push<T>(
    d: Seq<DialCandidate<T>>,
    c: DialCandidate<T>,
    order: Seq<SubnetKey>,
)
    requires
        order.no_duplicates(),
    ensures
        gathered(d.push(c), order, d.len() as int + 1).to_multiset() == (if order.contains(
            SubnetKey::spec_of(c.address),
        ) {
            gathered(d, order, d.len() as int).to_multiset().insert(c)
        } else {
            gathered(d, order, d.len() as int).to_multiset()
        }),
    decreases order.len(),
{
    broadcast use vstd::multiset::group_multiset_axioms;
    broadcast use vstd::seq_lib::group_to_multiset_ensures;

    let key = SubnetKey::spec_of(c.address);
    let n = d.len() as int;
    let more = d.push(c);
    if order.len() > 0 {
        let rest = order.drop_last();
        let last = order.last();
        assert forall|i: int, j: int| 0 <= i < rest.len() && 0 <= j < rest.len() && i != j implies
            rest[i] != rest[j] by {
            assert(order[i] == rest[i] && order[j] == rest[j]);
        }
        lemma_gathered_push(d, c, rest);
        lemma_bucket_push(d, c, last);
        d.lemma_filter_len(lies_in(last));
        more.lemma_filter_len(lies_in(last));
        vstd::seq_lib::lemma_multiset_commutative(
            gathered(more, rest, n + 1),
            first_of(bucket(more, last), n + 1),
        );
        vstd::seq_lib::lemma_multiset_commutative(
            gathered(d, rest, n),
            first_of(bucket(d, last), n),
        );
        if rest.contains(key) {
            let i = choose|i: int| 0 <= i < rest.len() && rest[i] == key;
            assert(order[i] == key);
            assert(order.contains(key));
            assert(last != key) by {
                assert(order[order.len() - 1] == last);
            }
        }
        if last == key {
            assert(order[order.len() - 1] == key);
        }
        if order.contains(key) && last != key {
            let i = choose|i: int| 0 <= i < order.len() && order[i] == key;
            assert(rest[i] == key);
        }
        if order.contains(key) {
            assert(gathered(more, order, n + 1).to_multiset() =~= gathered(
                d,
                order,
                n,
            ).to_multiset().insert(c));
        } else {
            assert(gathered(more, order, n + 1).to_multiset() =~= gathered(
                d,
                order,
                n,
            ).to_multiset());
        }
    }
}

proof fn lemma_gathered_all<T>(d: Seq<DialCandidate<T>>)
    ensures
        gathered(d, subnets(d), d.len() as int).to_multiset() == d.to_multiset(),
    decreases d.len(),
{
    broadcast use vstd::multiset::group_multiset_axioms;
    broadcast use vstd::seq_lib::group_to_multiset_ensures;

    if d.len() == 0 {
        assert(gathered(d, subnets(d), 0) =~= d);
    } else {
        let rest = d.drop_last();
        let c = d.last();
        let key = SubnetKey::spec_of(c.address);
        let order = subnets(rest);
        assert(rest.push(c) =~= d);
        lemma_gathered_all(rest);
        lemma_subnets(rest);
        lemma_gathered_push(rest, c, order);
        if !order.contains(key) {
            lemma_bucket_push(rest, c, key);
            assert(subnets(d).drop_last() =~= order);
            assert(bucket(rest, key) =~= Seq::empty());
            assert(first_of(bucket(d, key), d.len() as int) =~= seq![c]);
            vstd::seq_lib::lemma_multiset_commutative(
                gathered(d, order, d.len() as int),
                seq![c],
            );
            assert(seq![c] =~= Seq::<DialCandidate<T>>::empty().push(c));
            assert(gathered(d, subnets(d), d.len() as int).to_multiset() =~= d.to_multiset());
        }
        assert(d.to_multiset() =~= rest.to_multiset().insert(c));
    }
}

proof fn lemma_split<T>(s: Seq<DialCandidate<T>>)
    ensures
        s.filter(is_own()).to_multiset().add(s.filter(is_stranger()).to_multiset())
            == s.to_multiset(),
    decreases s.len(),
{
    broadcast use vstd::multiset::group_multiset_axioms;
    broadcast use vstd::seq_lib::group_to_multiset_ensures;

    reveal(Seq::filter);
    if s.len() == 0 {
        assert(s.filter(is_own()).to_multiset().add(s.filter(is_stranger()).to_multiset())
            =~= s.to_multiset());
    } else {
        let rest = s.drop_last();
        lemma_split(rest);
        assert(rest.push(s.last()) =~= s);
        assert(s.filter(is_own()).to_multiset().add(s.filter(is_stranger()).to_multiset())
            =~= s.to_multiset());
    }
}

/// Spreading keeps every candidate, each once: no slot stays empty for want of diversity.
pub proof fn law_spreading_keeps_every_candidate<T>(s: Seq<DialCandidate<T>>)
    ensures
        spread(s).to_multiset() == s.to_multiset(),
        spread(s).len() == s.len(),
{
    broadcast use vstd::seq_lib::group_to_multiset_ensures;

    let d = s.filter(is_stranger());
    let turns = passes(d, subnets(d), d.len() as int);
    lemma_gather(d, subnets(d), d.len() as int);
    lemma_gathered_all(d);
    lemma_split(s);
    vstd::seq_lib::lemma_multiset_commutative(s.filter(is_own()), turns);
    assert(spread(s).len() == spread(s).to_multiset().len());
    assert(s.len() == s.to_multiset().len());
}

/// The addresses that `s` reached.
pub open spec fn addresses<T>(s: Seq<DialCandidate<T>>) -> Set<SocketAddr> {
    s.map_values(|c: DialCandidate<T>| c.address).to_set()
}

proof fn lemma_addresses<T>(s: Seq<DialCandidate<T>>, a: SocketAddr)
    ensures
        addresses(s).contains(a) <==> reaches(s, a),
{
    let mapped = s.map_values(|c: DialCandidate<T>| c.address);
    if addresses(s).contains(a) {
        let i = choose|i: int| 0 <= i < mapped.len() && mapped[i] == a;
        assert(s[i].address == a);
    }
    if reaches(s, a) {
        let i = choose|i: int| 0 <= i < s.len() && (#[trigger] s[i]).address == a;
        assert(mapped[i] == a);
    }
}

/// Sequences with the same members reach the same addresses.
proof fn lemma_same_addresses<T>(s: Seq<DialCandidate<T>>, t: Seq<DialCandidate<T>>)
    requires
        s.to_multiset() == t.to_multiset(),
    ensures
        addresses(s) == addresses(t),
        forall|c: DialCandidate<T>| s.contains(c) <==> #[trigger] t.contains(c),
{
    broadcast use vstd::seq_lib::group_to_multiset_ensures;

    assert forall|c: DialCandidate<T>| s.contains(c) <==> #[trigger] t.contains(c) by {
        vstd::seq_lib::to_multiset_contains(s, c);
        vstd::seq_lib::to_multiset_contains(t, c);
    }
    assert forall|a: SocketAddr| addresses(s).contains(a) <==> addresses(t).contains(a) by {
        lemma_addresses(s, a);
        lemma_addresses(t, a);
        if reaches(s, a) {
            let i = choose|i: int| 0 <= i < s.len() && (#[trigger] s[i]).address == a;
            assert(t.contains(s[i]));
            let j = choose|j: int| 0 <= j < t.len() && t[j] == s[i];
            assert(t[j].address == a);
        }
        if reaches(t, a) {
            let i = choose|i: int| 0 <= i < t.len() && (#[trigger] t[i]).address == a;
            assert(t.contains(t[i]));
            assert(s.contains(t[i]));
            let j = choose|j: int| 0 <= j < s.len() && s[j] == t[i];
            assert(s[j].address == a);
        }
    }
    assert(addresses(s) =~= addresses(t));
}

/// Members of a sequence with no repeated address stand apart in every reordering of it.
proof fn lemma_distinct_addresses_survive<T>(s: Seq<DialCandidate<T>>, t: Seq<DialCandidate<T>>)
    requires
        s.to_multiset() == t.to_multiset(),
        forall|i: int, j: int|
            0 <= i < s.len() && 0 <= j < s.len() && i != j ==> (#[trigger] s[i]).address != (
            #[trigger] s[j]).address,
    ensures
        forall|i: int, j: int|
            0 <= i < t.len() && 0 <= j < t.len() && i != j ==> (#[trigger] t[i]).address != (
            #[trigger] t[j]).address,
{
    broadcast use vstd::seq_lib::group_to_multiset_ensures;

    assert(s.no_duplicates());
    s.lemma_multiset_has_no_duplicates();
    t.lemma_multiset_has_no_duplicates_conv();
    lemma_same_addresses(s, t);
    assert forall|i: int, j: int| 0 <= i < t.len() && 0 <= j < t.len() && i != j implies (
    #[trigger] t[i]).address != (#[trigger] t[j]).address by {
        assert(t.contains(t[i]) && t.contains(t[j]));
        let k = choose|k: int| 0 <= k < s.len() && s[k] == t[i];
        let l = choose|l: int| 0 <= l < s.len() && s[l] == t[j];
        assert(t[i] != t[j]);
        assert(k != l);
    }
}

/// A round spends its slots on distinct peers, and on as many of them as it reached: repeated
/// addresses cost nothing.
pub proof fn law_round_fills_its_slots_with_distinct_peers<T>(
    s: Seq<DialCandidate<T>>,
    slots: nat,
)
    ensures
        forall|i: int, j: int|
            0 <= i < credible(s, slots as int).len() && 0 <= j < credible(s, slots as int).len()
                && i != j ==> (#[trigger] credible(s, slots as int)[i]).address != (
            #[trigger] credible(s, slots as int)[j]).address,
        credible(s, slots as int).len() == (if slots < addresses(s).len() {
            slots
        } else {
            addresses(s).len()
        }),
        forall|i: int|
            0 <= i < credible(s, slots as int).len() ==> s.contains(
                #[trigger] credible(s, slots as int)[i],
            ),
{
    let order = ranked(s);
    let distinct = one_per_address(order);
    let all = spread(distinct);
    law_ranking_is_a_stable_sort(s);
    lemma_one_per_address(order);
    law_spreading_keeps_every_candidate(distinct);
    lemma_distinct_addresses_survive(distinct, all);
    lemma_same_addresses(distinct, all);
    lemma_same_addresses(s, order);
    let mapped = distinct.map_values(|c: DialCandidate<T>| c.address);
    assert forall|i: int, j: int| 0 <= i < mapped.len() && 0 <= j < mapped.len() && i != j implies
        mapped[i] != mapped[j] by {
        assert(distinct[i].address != distinct[j].address);
    }
    mapped.unique_seq_to_set();
    assert(addresses(distinct) =~= addresses(order)) by {
        assert forall|a: SocketAddr| addresses(distinct).contains(a) <==> addresses(
            order,
        ).contains(a) by {
            lemma_addresses(distinct, a);
            lemma_addresses(order, a);
            assert(reaches(distinct, a) <==> reaches(order, a));
        }
    }
    assert forall|i: int| 0 <= i < credible(s, slots as int).len() implies s.contains(
        #[trigger] credible(s, slots as int)[i],
    ) by {
        let c = credible(s, slots as int)[i];
        assert(all[i] == c);
        assert(all.contains(c));
        assert(distinct.contains(c));
        let j = choose|j: int| 0 <= j < distinct.len() && distinct[j] == c;
        assert(order.contains(distinct[j]));
    }
}

/// Where an address stands in `one_per_address`, it is with its first candidate.
proof fn lemma_first_of_address<T>(s: Seq<DialCandidate<T>>, i: int)
    requires
        0 <= i < one_per_address(s).len(),
    ensures
        exists|m: int|
            0 <= m < s.len() && #[trigger] s[m] == one_per_address(s)[i] && forall|n: int|
                0 <= n < m ==> (#[trigger] s[n]).address != s[m].address,
    decreases s.len(),
{
    let rest = s.drop_last();
    let head = one_per_address(rest);
    if i < head.len() {
        lemma_first_of_address(rest, i);
        let m = choose|m: int|
            0 <= m < rest.len() && #[trigger] rest[m] == head[i] && forall|n: int|
                0 <= n < m ==> (#[trigger] rest[n]).address != rest[m].address;
        assert(s[m] == one_per_address(s)[i]);
        assert forall|n: int| 0 <= n < m implies (#[trigger] s[n]).address != s[m].address by {
            assert(rest[n] == s[n]);
        }
    } else {
        let m = s.len() - 1;
        assert(s[m] == one_per_address(s)[i]);
        assert forall|n: int| 0 <= n < m implies (#[trigger] s[n]).address != s[m].address by {
            assert(rest[n] == s[n]);
        }
    }
}

/// Of a repeated address the most credible copy is kept.
pub proof fn law_best_copy_of_an_address_is_kept<T>(
    s: Seq<DialCandidate<T>>,
    slots: nat,
    i: int,
    c: DialCandidate<T>,
)
    requires
        0 <= i < credible(s, slots as int).len(),
        s.contains(c),
        c.address == credible(s, slots as int)[i].address,
    ensures
        !ranks_before(c, credible(s, slots as int)[i]),
{
    let order = ranked(s);
    let distinct = one_per_address(order);
    let all = spread(distinct);
    let kept = credible(s, slots as int)[i];
    law_ranking_is_a_stable_sort(s);
    law_spreading_keeps_every_candidate(distinct);
    lemma_same_addresses(distinct, all);
    lemma_same_addresses(s, order);
    assert(all[i] == kept);
    assert(all.contains(kept));
    assert(distinct.contains(kept));
    let j = choose|j: int| 0 <= j < distinct.len() && distinct[j] == kept;
    lemma_first_of_address(order, j);
    let m = choose|m: int|
        0 <= m < order.len() && #[trigger] order[m] == distinct[j] && forall|n: int|
            0 <= n < m ==> (#[trigger] order[n]).address != order[m].address;
    assert(order.contains(c));
    let n = choose|n: int| 0 <= n < order.len() && order[n] == c;
    if n > m {
        assert(!ranks_before(order[n], order[m]));
    }
}

/// Every candidate of a pass comes from the discovered ones.
proof fn lemma_passes_members<T>(d: Seq<DialCandidate<T>>, order: Seq<SubnetKey>, n: int)
    requires
        forall|i: int| 0 <= i < d.len() ==> (#[trigger] d[i]).origin != PeerOrigin::Priority,
    ensures
        forall|i: int|
            0 <= i < passes(d, order, n).len() ==> (#[trigger] passes(d, order, n)[i]).origin
                != PeerOrigin::Priority,
    decreases n,
{
    if n > 0 {
        lemma_passes_members(d, order, n - 1);
        lemma_pass_members(d, order, n - 1);
    }
}

proof fn lemma_pass_members<T>(d: Seq<DialCandidate<T>>, order: Seq<SubnetKey>, k: int)
    requires
        0 <= k,
        forall|i: int| 0 <= i < d.len() ==> (#[trigger] d[i]).origin != PeerOrigin::Priority,
    ensures
        forall|i: int|
            0 <= i < pass(d, order, k).len() ==> (#[trigger] pass(d, order, k)[i]).origin
                != PeerOrigin::Priority,
    decreases order.len(),
{
    if order.len() > 0 {
        lemma_pass_members(d, order.drop_last(), k);
        let b = bucket(d, order.last());
        if k < b.len() {
            assert(b.contains(b[k]));
            d.lemma_filter_contains_rev(lies_in(order.last()), b[k]);
        }
    }
}

/// A priority candidate is never crowded out by a stranger, however fast the stranger answered.
pub proof fn law_priority_candidates_come_first<T>(s: Seq<DialCandidate<T>>, slots: nat)
    ensures
        forall|i: int, j: int|
            0 <= i < j < credible(s, slots as int).len() && (#[trigger] credible(
                s,
                slots as int,
            )[j]).origin == PeerOrigin::Priority ==> (#[trigger] credible(
                s,
                slots as int,
            )[i]).origin == PeerOrigin::Priority,
{
    let distinct = one_per_address(ranked(s));
    let own = distinct.filter(is_own());
    let d = distinct.filter(is_stranger());
    assert forall|i: int| 0 <= i < d.len() implies (#[trigger] d[i]).origin
        != PeerOrigin::Priority by {
        distinct.lemma_filter_pred(is_stranger(), i);
    }
    lemma_passes_members(d, subnets(d), d.len() as int);
    let all = spread(distinct);
    assert forall|i: int, j: int|
        0 <= i < j < credible(s, slots as int).len() && (#[trigger] credible(
            s,
            slots as int,
        )[j]).origin == PeerOrigin::Priority implies (#[trigger] credible(
        s,
        slots as int,
    )[i]).origin == PeerOrigin::Priority by {
        assert(credible(s, slots as int)[j] == all[j]);
        assert(credible(s, slots as int)[i] == all[i]);
        if j >= own.len() {
            assert(all[j] == passes(d, subnets(d), d.len() as int)[j - own.len()]);
        }
        distinct.lemma_filter_pred(is_own(), i);
    }
}

/// The first pass takes the first candidate of every block, in the order of the blocks.
proof fn lemma_first_pass<T>(d: Seq<DialCandidate<T>>, order: Seq<SubnetKey>)
    requires
        forall|i: int| 0 <= i < order.len() ==> bucket(d, #[trigger] order[i]).len() > 0,
    ensures
        pass(d, order, 0).len() == order.len(),
        forall|i: int|
            0 <= i < order.len() ==> #[trigger] pass(d, order, 0)[i] == bucket(d, order[i])[0],
    decreases order.len(),
{
    if order.len() > 0 {
        let rest = order.drop_last();
        assert forall|i: int| 0 <= i < rest.len() implies bucket(d, #[trigger] rest[i]).len()
            > 0 by {
            assert(order[i] == rest[i]);
        }
        lemma_first_pass(d, rest);
        assert(bucket(d, order[order.len() - 1]).len() > 0);
    }
}

proof fn lemma_passes_prefix<T>(d: Seq<DialCandidate<T>>, order: Seq<SubnetKey>, n: int)
    requires
        n >= 1,
    ensures
        passes(d, order, n).len() >= pass(d, order, 0).len(),
        forall|i: int|
            0 <= i < pass(d, order, 0).len() ==> #[trigger] passes(d, order, n)[i] == pass(
                d,
                order,
                0,
            )[i],
    decreases n,
{
    if n == 1 {
        assert(passes(d, order, 0) =~= Seq::empty());
        assert(passes(d, order, 1) =~= pass(d, order, 0));
    } else {
        lemma_passes_prefix(d, order, n - 1);
    }
}

/// The slots after the priority ones go to one peer of each block first, and to the one of it that
/// ranked best: a cluster in one block takes no second slot while another block waits.
pub proof fn law_every_block_gets_a_slot_before_any_gets_two<T>(s: Seq<DialCandidate<T>>, i: int)
    requires
        0 <= i < subnets(s.filter(is_stranger())).len(),
    ensures
        s.filter(is_own()).len() + i < spread(s).len(),
        spread(s)[s.filter(is_own()).len() + i] == bucket(
            s.filter(is_stranger()),
            subnets(s.filter(is_stranger()))[i],
        )[0],
        SubnetKey::spec_of(spread(s)[s.filter(is_own()).len() + i].address) == subnets(
            s.filter(is_stranger()),
        )[i],
{
    let d = s.filter(is_stranger());
    let order = subnets(d);
    lemma_subnets(d);
    assert forall|j: int| 0 <= j < order.len() implies bucket(d, #[trigger] order[j]).len() > 0 by {
        assert(order.contains(order[j]));
    }
    lemma_first_pass(d, order);
    lemma_passes_prefix(d, order, d.len() as int);
    assert(passes(d, order, d.len() as int)[i] == pass(d, order, 0)[i]);
    assert(spread(s)[s.filter(is_own()).len() + i] == passes(d, order, d.len() as int)[i]);
    assert(bucket(d, order[i]).len() > 0);
    d.lemma_filter_pred(lies_in(order[i]), 0);
}

/// Where every discovered candidate lies in a block of its own, spreading leaves their order.
pub proof fn law_diverse_round_keeps_its_order<T>(s: Seq<DialCandidate<T>>)
    requires
        forall|i: int, j: int|
            0 <= i < s.filter(is_stranger()).len() && 0 <= j < s.filter(is_stranger()).len() && i
                != j ==> SubnetKey::spec_of((#[trigger] s.filter(is_stranger())[i]).address)
                != SubnetKey::spec_of((#[trigger] s.filter(is_stranger())[j]).address),
    ensures
        spread(s) == s.filter(is_own()) + s.filter(is_stranger()),
{
    let d = s.filter(is_stranger());
    let order = subnets(d);
    lemma_diverse(d);
    lemma_subnets(d);
    assert forall|i: int| 0 <= i < order.len() implies bucket(d, #[trigger] order[i]).len()
        == 1 by {
        assert(bucket(d, order[i]) == seq![d[i]]);
    }
    lemma_first_pass(d, order);
    if d.len() > 0 {
        lemma_passes_stop(d, order, 1, d.len() as int);
        assert(passes(d, order, 0) =~= Seq::empty());
        assert(passes(d, order, 1) =~= d) by {
            assert forall|i: int| 0 <= i < d.len() implies pass(d, order, 0)[i] == d[i] by {
                assert(bucket(d, order[i]) == seq![d[i]]);
            }
        }
    }
    assert(spread(s) =~= s.filter(is_own()) + d);
}

proof fn lemma_diverse<T>(d: Seq<DialCandidate<T>>)
    requires
        forall|i: int, j: int|
            0 <= i < d.len() && 0 <= j < d.len() && i != j ==> SubnetKey::spec_of(
                (#[trigger] d[i]).address,
            ) != SubnetKey::spec_of((#[trigger] d[j]).address),
    ensures
        subnets(d).len() == d.len(),
        forall|i: int|
            0 <= i < d.len() ==> #[trigger] subnets(d)[i] == SubnetKey::spec_of(d[i].address),
        forall|i: int|
            0 <= i < d.len() ==> bucket(d, #[trigger] subnets(d)[i]) == seq![d[i]],
    decreases d.len(),
{
    if d.len() > 0 {
        let rest = d.drop_last();
        let c = d.last();
        let key = SubnetKey::spec_of(c.address);
        assert forall|i: int, j: int|
            0 <= i < rest.len() && 0 <= j < rest.len() && i != j implies SubnetKey::spec_of(
            (#[trigger] rest[i]).address,
        ) != SubnetKey::spec_of((#[trigger] rest[j]).address) by {
            assert(rest[i] == d[i] && rest[j] == d[j]);
        }
        lemma_diverse(rest);
        assert(!subnets(rest).contains(key)) by {
            if subnets(rest).contains(key) {
                let i = choose|i: int| 0 <= i < subnets(rest).len() && subnets(rest)[i] == key;
                assert(rest[i] == d[i]);
                assert(d[d.len() - 1] == c);
            }
        }
        assert(rest.push(c) =~= d);
        assert forall|i: int| 0 <= i < d.len() implies #[trigger] subnets(d)[i]
            == SubnetKey::spec_of(d[i].address) by {
            if i < rest.len() {
                assert(subnets(rest)[i] == SubnetKey::spec_of(rest[i].address));
            }
        }
        assert forall|i: int| 0 <= i < d.len() implies bucket(d, #[trigger] subnets(d)[i])
            == seq![d[i]] by {
            lemma_bucket_push(rest, c, subnets(d)[i]);
            if i < rest.len() {
                assert(subnets(rest)[i] == subnets(d)[i]);
                assert(bucket(rest, subnets(rest)[i]) == seq![rest[i]]);
                assert(subnets(d)[i] != key);
            } else {
                assert(bucket(rest, key) =~= Seq::empty());
                assert(bucket(d, key) =~= seq![c]);
            }
        }
    }
}

/// In a ranking, no discovered candidate stands before a priority one, and of two that were reached
/// the same way none stands before one that answered faster.
pub proof fn law_faster_answers_rank_first<T>(s: Seq<DialCandidate<T>>, i: int, j: int)
    requires
        0 <= i < j < s.len(),
    ensures
        ({
            let a = ranked(s)[i];
            let b = ranked(s)[j];
            &&& b.origin is Priority ==> a.origin is Priority
            &&& a.origin == b.origin ==> a.handshake <= b.handshake
        }),
{
    law_ranking_is_a_stable_sort(s);
    assert(!ranks_before(ranked(s)[j], ranked(s)[i]));
}

/// Of each address the copy that is kept in a round was reached the best way it was reached, and
/// none reached in that way answered faster.
pub proof fn law_fastest_copy_of_an_address_is_kept<T>(
    s: Seq<DialCandidate<T>>,
    slots: nat,
    i: int,
    c: DialCandidate<T>,
)
    requires
        0 <= i < credible(s, slots as int).len(),
        s.contains(c),
        c.address == credible(s, slots as int)[i].address,
    ensures
        ({
            let kept = credible(s, slots as int)[i];
            &&& c.origin is Priority ==> kept.origin is Priority
            &&& c.origin == kept.origin ==> kept.handshake <= c.handshake
        }),
{
    law_best_copy_of_an_address_is_kept(s, slots, i, c);
}

/// Two dials are opened for each slot.
pub proof fn law_two_dials_for_each_slot(wanted: usize, dials: usize)
    requires
        call_ensures(dials_for, (wanted,), dials),
    ensures
        2 * wanted <= usize::MAX ==> dials == 2 * wanted,
        2 * wanted > usize::MAX ==> dials == usize::MAX,
{
}

proof fn lemma_pass_in_block<T>(
    d: Seq<DialCandidate<T>>,
    order: Seq<SubnetKey>,
    k: int,
    key: SubnetKey,
)
    requires
        order.no_duplicates(),
        0 <= k,
    ensures
        pass(d, order, k).filter(lies_in(key)) == (if order.contains(key) && k < bucket(
            d,
            key,
        ).len() {
            seq![bucket(d, key)[k]]
        } else {
            Seq::empty()
        }),
    decreases order.len(),
{
    if order.len() == 0 {
        reveal(Seq::filter);
        assert(pass(d, order, k).filter(lies_in(key)) =~= Seq::empty());
    } else {
        let rest = order.drop_last();
        let last = order.last();
        let head = pass(d, rest, k);
        let b = bucket(d, last);
        lemma_pass_in_block(d, rest, k, key);
        assert(order =~= rest.push(last));
        assert(!rest.contains(last));
        assert(order.contains(key) <==> rest.contains(key) || key == last) by {
            if rest.contains(key) {
                let j = choose|j: int| 0 <= j < rest.len() && rest[j] == key;
                assert(order[j] == key);
            }
            if key == last {
                assert(order[order.len() - 1] == key);
            }
        }
        if k < b.len() {
            d.lemma_filter_pred(lies_in(last), k);
            head.lemma_filter_push(b[k], lies_in(key));
            assert(pass(d, order, k) == head.push(b[k]));
            if key == last {
                assert(head.filter(lies_in(key)).push(b[k]) =~= seq![b[k]]);
            }
        }
    }
}

proof fn lemma_passes_in_block<T>(
    d: Seq<DialCandidate<T>>,
    order: Seq<SubnetKey>,
    n: int,
    key: SubnetKey,
)
    requires
        order.no_duplicates(),
        0 <= n,
    ensures
        passes(d, order, n).filter(lies_in(key)) == (if order.contains(key) {
            first_of(bucket(d, key), n)
        } else {
            Seq::empty()
        }),
    decreases n,
{
    if n == 0 {
        reveal(Seq::filter);
        assert(passes(d, order, n).filter(lies_in(key)) =~= Seq::empty());
        assert(first_of(bucket(d, key), n) =~= Seq::empty());
    } else {
        lemma_passes_in_block(d, order, n - 1, key);
        lemma_pass_in_block(d, order, n - 1, key);
        Seq::filter_distributes_over_add(
            passes(d, order, n - 1),
            pass(d, order, n - 1),
            lies_in(key),
        );
        if order.contains(key) {
            assert(passes(d, order, n).filter(lies_in(key)) =~= first_of(bucket(d, key), n));
        } else {
            assert(passes(d, order, n).filter(lies_in(key)) =~= Seq::empty());
        }
    }
}

/// Spreading reorders only between the blocks: the priority candidates keep their order, and so do
/// the discovered candidates of any one block.
pub proof fn law_every_block_keeps_its_own_order<T>(s: Seq<DialCandidate<T>>, key: SubnetKey)
    ensures
        ({
            let own = s.filter(is_own());
            let told = spread(s);
            &&& own.len() <= told.len()
            &&& told.take(own.len() as int) == own
            &&& told.skip(own.len() as int).filter(lies_in(key)) == s.filter(is_stranger()).filter(
                lies_in(key),
            )
        }),
{
    let own = s.filter(is_own());
    let d = s.filter(is_stranger());
    let n = d.len() as int;
    let turns = passes(d, subnets(d), n);
    lemma_subnets(d);
    assert(spread(s).take(own.len() as int) =~= own);
    assert(spread(s).skip(own.len() as int) =~= turns);
    d.lemma_filter_len(lies_in(key));
    lemma_passes_in_block(d, subnets(d), n, key);
    if !subnets(d).contains(key) {
        if bucket(d, key).len() > 0 {
            d.lemma_filter_pred(lies_in(key), 0);
            let c = bucket(d, key)[0];
            assert(bucket(d, key).contains(c));
            d.lemma_filter_contains_rev(lies_in(key), c);
            let j = choose|j: int| 0 <= j < d.len() && d[j] == c;
            assert(subnets(d).contains(SubnetKey::spec_of(d[j].address)));
        }
        assert(turns.filter(lies_in(key)) =~= bucket(d, key));
    }
}

} // verus!
