//! Small collections keyed by [`Bytes32`].
//!
//! Entries stand in insertion order and no key stands twice; contracts speak of the set or map
//! that the entries describe.

use vstd::prelude::*;

use crate::protocol::Bytes32;

verus! {

/// The keys of `entries`, in order.
pub open spec fn keys<V>(entries: Seq<(Bytes32, V)>) -> Seq<Bytes32> {
    entries.map_values(|e: (Bytes32, V)| e.0)
}

/// A position at which `key` stands.
pub open spec fn slot<V>(entries: Seq<(Bytes32, V)>, key: Bytes32) -> int {
    choose|i: int| 0 <= i < entries.len() && #[trigger] entries[i].0 == key
}

/// The map that `entries` describe, each key standing at most once.
pub open spec fn entries_map<V>(entries: Seq<(Bytes32, V)>) -> Map<Bytes32, V> {
    Map::new(
        |k: Bytes32| exists|i: int| 0 <= i < entries.len() && #[trigger] entries[i].0 == k,
        |k: Bytes32| entries[slot(entries, k)].1,
    )
}

/// Entry `i` is what the map holds under its key.
pub proof fn lemma_entry_in_map<V>(entries: Seq<(Bytes32, V)>, i: int)
    requires
        keys(entries).no_duplicates(),
        0 <= i < entries.len(),
    ensures
        entries_map(entries).dom().contains(entries[i].0),
        entries_map(entries)[entries[i].0] == entries[i].1,
{
    let k = entries[i].0;
    let j = slot(entries, k);
    assert(entries[i].0 == k);
    assert(keys(entries)[i] == k);
    assert(keys(entries)[j] == k);
}

/// As many keys as entries.
pub proof fn lemma_map_len<V>(entries: Seq<(Bytes32, V)>)
    requires
        keys(entries).no_duplicates(),
    ensures
        entries_map(entries).dom().finite(),
        entries_map(entries).dom().len() == entries.len(),
{
    keys(entries).unique_seq_to_set();
    assert forall|k: Bytes32| keys(entries).to_set().contains(k) implies entries_map(
        entries,
    ).dom().contains(k) by {
        let i = choose|i: int| 0 <= i < keys(entries).len() && keys(entries)[i] == k;
        assert(entries[i].0 == k);
    }
    assert forall|k: Bytes32| entries_map(entries).dom().contains(k) implies keys(
        entries,
    ).to_set().contains(k) by {
        let i = choose|i: int| 0 <= i < entries.len() && #[trigger] entries[i].0 == k;
        assert(keys(entries)[i] == k);
    }
    assert(keys(entries).to_set() =~= entries_map(entries).dom());
}

/// Appending an entry under a new key inserts it.
pub proof fn lemma_map_push<V>(entries: Seq<(Bytes32, V)>, key: Bytes32, value: V)
    requires
        keys(entries).no_duplicates(),
        !entries_map(entries).dom().contains(key),
    ensures
        keys(entries.push((key, value))).no_duplicates(),
        entries_map(entries.push((key, value))) == entries_map(entries).insert(key, value),
{
    let after = entries.push((key, value));
    assert forall|i: int, j: int|
        0 <= i < after.len() && 0 <= j < after.len() && i != j implies keys(after)[i] != keys(
        after,
    )[j] by {
        if i < entries.len() {
            assert(keys(entries)[i] == keys(after)[i]);
            assert(entries[i].0 == keys(after)[i]);
        }
        if j < entries.len() {
            assert(keys(entries)[j] == keys(after)[j]);
            assert(entries[j].0 == keys(after)[j]);
        }
    }
    let map = entries_map(entries).insert(key, value);
    assert forall|i: int| 0 <= i < after.len() implies map.dom().contains((#[trigger] after[i]).0)
        && map[after[i].0] == after[i].1 by {
        if i < entries.len() {
            lemma_entry_in_map(entries, i);
            assert(after[i] == entries[i]);
        }
    }
    assert forall|k: Bytes32| map.dom().contains(k) implies exists|i: int|
        0 <= i < after.len() && #[trigger] after[i].0 == k by {
        if k == key {
            assert(after[entries.len() as int].0 == k);
        } else {
            assert(after[slot(entries, k)].0 == k);
        }
    }
    lemma_same_map(after, map);
}

/// Two maps are equal when one is described by the entries of the other.
pub proof fn lemma_same_map<V>(entries: Seq<(Bytes32, V)>, map: Map<Bytes32, V>)
    requires
        keys(entries).no_duplicates(),
        forall|i: int|
            0 <= i < entries.len() ==> map.dom().contains((#[trigger] entries[i]).0)
                && map[entries[i].0] == entries[i].1,
        forall|k: Bytes32|
            map.dom().contains(k) ==> exists|i: int|
                0 <= i < entries.len() && #[trigger] entries[i].0 == k,
    ensures
        entries_map(entries) == map,
{
    assert forall|k: Bytes32| map.dom().contains(k) implies entries_map(entries)[k] == map[k] by {
        let i = choose|i: int| 0 <= i < entries.len() && #[trigger] entries[i].0 == k;
        lemma_entry_in_map(entries, i);
    }
    assert(entries_map(entries) =~= map);
}

/// One entry more is one key more.
pub proof fn lemma_map_take<V>(entries: Seq<(Bytes32, V)>, i: int)
    requires
        keys(entries).no_duplicates(),
        0 <= i < entries.len(),
    ensures
        keys(entries.take(i)).no_duplicates(),
        !entries_map(entries.take(i)).dom().contains(entries[i].0),
        entries_map(entries.take(i + 1)) == entries_map(entries.take(i)).insert(
            entries[i].0,
            entries[i].1,
        ),
{
    let head = entries.take(i);
    assert(keys(head) =~= keys(entries).take(i));
    if entries_map(head).dom().contains(entries[i].0) {
        let j = slot(head, entries[i].0);
        assert(keys(entries)[j] == keys(entries)[i]);
    }
    assert(entries.take(i + 1) =~= head.push((entries[i].0, entries[i].1)));
    lemma_map_push(head, entries[i].0, entries[i].1);
}

/// A map from [`Bytes32`] to `V`.
pub struct IdMap<V> {
    entries: Vec<(Bytes32, V)>,
}

impl<V> View for IdMap<V> {
    type V = Map<Bytes32, V>;

    closed spec fn view(&self) -> Map<Bytes32, V> {
        entries_map(self.entries@)
    }
}

impl<V> IdMap<V> {
    /// The entries, in insertion order.
    pub closed spec fn seq(&self) -> Seq<(Bytes32, V)> {
        self.entries@
    }

    /// No key stands twice, and the map is what the entries describe.
    pub closed spec fn wf(&self) -> bool {
        keys(self.entries@).no_duplicates()
    }

    pub proof fn lemma_seq(&self)
        requires
            self.wf(),
        ensures
            keys(self.seq()).no_duplicates(),
            self@ == entries_map(self.seq()),
            self@.dom().finite(),
            self@.dom().len() == self.seq().len(),
    {
        lemma_map_len(self.entries@);
    }

    pub fn new() -> (map: Self)
        ensures
            map.wf(),
            map@ == Map::<Bytes32, V>::empty(),
            map.seq() == Seq::<(Bytes32, V)>::empty(),
    {
        let map = IdMap { entries: Vec::new() };
        assert(map@ =~= Map::<Bytes32, V>::empty());
        map
    }

    pub fn len(&self) -> (len: usize)
        requires
            self.wf(),
        ensures
            len == self@.dom().len(),
            len == self.seq().len(),
    {
        proof {
            self.lemma_seq();
        }
        self.entries.len()
    }

    /// The position of `key`, if it stands in the map.
    pub fn position(&self, key: Bytes32) -> (at: Option<usize>)
        requires
            self.wf(),
        ensures
            at is Some <==> self@.dom().contains(key),
            at matches Some(i) ==> i < self.seq().len() && self.seq()[i as int].0 == key
                && self@[key] == self.seq()[i as int].1,
    {
        let mut i: usize = 0;
        while i < self.entries.len()
            invariant
                i <= self.entries.len(),
                self.wf(),
                forall|j: int| 0 <= j < i ==> (#[trigger] self.entries@[j]).0 != key,
            decreases self.entries.len() - i,
        {
            if self.entries[i].0 == key {
                proof {
                    lemma_entry_in_map(self.entries@, i as int);
                }
                return Some(i);
            }
            i = i + 1;
        }
        None
    }

    pub fn contains_key(&self, key: Bytes32) -> (found: bool)
        requires
            self.wf(),
        ensures
            found == self@.dom().contains(key),
    {
        self.position(key).is_some()
    }

    /// The entry at position `i`.
    pub fn entry(&self, i: usize) -> (entry: &(Bytes32, V))
        requires
            i < self.seq().len(),
        ensures
            *entry == self.seq()[i as int],
    {
        &self.entries[i]
    }

    /// Puts `value` under `key`, over whatever stood there.
    pub fn insert(&mut self, key: Bytes32, value: V)
        requires
            old(self).wf(),
        ensures
            final(self).wf(),
            final(self)@ == old(self)@.insert(key, value),
    {
        let at = self.position(key);
        match at {
            Some(i) => {
                let ghost before = self.entries@;
                self.entries.set(i, (key, value));
                proof {
                    let after = self.entries@;
                    assert(keys(after) =~= keys(before));
                    assert forall|j: int| 0 <= j < after.len() implies entries_map(before).insert(
                        key,
                        value,
                    ).dom().contains((#[trigger] after[j]).0) && entries_map(before).insert(
                        key,
                        value,
                    )[after[j].0] == after[j].1 by {
                        lemma_entry_in_map(before, j);
                        assert(keys(before)[j] == before[j].0);
                        assert(keys(before)[i as int] == before[i as int].0);
                    }
                    assert forall|k: Bytes32|
                        entries_map(before).insert(key, value).dom().contains(k) implies exists|
                        j: int,
                    | 0 <= j < after.len() && #[trigger] after[j].0 == k by {
                        if k == key {
                            assert(after[i as int].0 == k);
                        } else {
                            let j = choose|j: int|
                                0 <= j < before.len() && #[trigger] before[j].0 == k;
                            assert(after[j].0 == k);
                        }
                    }
                    lemma_same_map(after, entries_map(before).insert(key, value));
                }
            },
            None => {
                proof {
                    lemma_map_push(self.entries@, key, value);
                }
                self.entries.push((key, value));
            },
        }
    }
}

impl<V> IdMap<V> {
    /// Puts `value` under a `key` that does not stand in the map yet.
    pub fn push_new(&mut self, key: Bytes32, value: V)
        requires
            old(self).wf(),
            !old(self)@.dom().contains(key),
        ensures
            final(self).wf(),
            final(self)@ == old(self)@.insert(key, value),
    {
        proof {
            lemma_map_push(self.entries@, key, value);
        }
        self.entries.push((key, value));
    }
}

impl<V: Copy> IdMap<V> {
    /// What stands under `key`.
    pub fn get(&self, key: Bytes32) -> (value: Option<V>)
        requires
            self.wf(),
        ensures
            value == (if self@.dom().contains(key) {
                Some(self@[key])
            } else {
                None
            }),
    {
        match self.position(key) {
            Some(i) => Some(self.entries[i].1),
            None => None,
        }
    }
}

/// A set of [`Bytes32`].
pub struct IdSet {
    ids: Vec<Bytes32>,
}

impl View for IdSet {
    type V = Set<Bytes32>;

    closed spec fn view(&self) -> Set<Bytes32> {
        self.ids@.to_set()
    }
}

impl IdSet {
    /// No id stands twice.
    pub closed spec fn wf(&self) -> bool {
        self.ids@.no_duplicates()
    }

    pub fn new() -> (set: Self)
        ensures
            set.wf(),
            set@ == Set::<Bytes32>::empty(),
    {
        let set = IdSet { ids: Vec::new() };
        assert(set@ =~= Set::<Bytes32>::empty());
        set
    }

    pub fn len(&self) -> (len: usize)
        requires
            self.wf(),
        ensures
            self@.finite(),
            len == self@.len(),
    {
        proof {
            self.ids@.unique_seq_to_set();
        }
        self.ids.len()
    }

    pub fn contains(&self, id: Bytes32) -> (found: bool)
        ensures
            found == self@.contains(id),
    {
        let mut i: usize = 0;
        while i < self.ids.len()
            invariant
                i <= self.ids.len(),
                forall|j: int| 0 <= j < i ==> self.ids@[j] != id,
            decreases self.ids.len() - i,
        {
            if self.ids[i] == id {
                assert(self.ids@.contains(id));
                return true;
            }
            i = i + 1;
        }
        false
    }

    pub fn insert(&mut self, id: Bytes32)
        requires
            old(self).wf(),
        ensures
            final(self).wf(),
            final(self)@ == old(self)@.insert(id),
    {
        if self.contains(id) {
            assert(self@.insert(id) =~= self@);
        } else {
            proof {
                self.ids@.lemma_push_to_set_commute(id);
            }
            self.ids.push(id);
        }
    }

    pub fn remove(&mut self, id: Bytes32)
        requires
            old(self).wf(),
        ensures
            final(self).wf(),
            final(self)@ == old(self)@.remove(id),
    {
        let mut i: usize = 0;
        while i < self.ids.len()
            invariant
                i <= self.ids.len(),
                self.wf(),
                self@ == old(self)@,
                forall|j: int| 0 <= j < i ==> self.ids@[j] != id,
            decreases self.ids.len() - i,
        {
            if self.ids[i] == id {
                let ghost before = self.ids@;
                let _ = self.ids.remove(i);
                proof {
                    let after = self.ids@;
                    assert forall|k: Bytes32| before.to_set().remove(id).contains(k) implies
                        after.to_set().contains(k) by {
                        let j = choose|j: int| 0 <= j < before.len() && before[j] == k;
                        if j < i {
                            assert(after[j] == k);
                        } else {
                            assert(after[j - 1] == k);
                        }
                    }
                    assert forall|k: Bytes32| after.to_set().contains(k) implies
                        before.to_set().remove(id).contains(k) by {
                        let j = choose|j: int| 0 <= j < after.len() && after[j] == k;
                        if j < i {
                            assert(before[j] == k);
                        } else {
                            assert(before[j + 1] == k);
                        }
                    }
                    assert(after.to_set() =~= before.to_set().remove(id));
                }
                return;
            }
            i = i + 1;
        }
        assert(self@.remove(id) =~= self@) by {
            assert forall|k: Bytes32| self@.contains(k) implies k != id by {
                let j = choose|j: int| 0 <= j < self.ids@.len() && self.ids@[j] == k;
            }
        }
    }

    /// The ids, each once.
    pub fn to_vec(&self) -> (ids: Vec<Bytes32>)
        requires
            self.wf(),
        ensures
            ids@.no_duplicates(),
            ids@.to_set() == self@,
            ids@.len() == self@.len(),
    {
        proof {
            self.ids@.unique_seq_to_set();
        }
        let mut ids: Vec<Bytes32> = Vec::new();
        let mut i: usize = 0;
        while i < self.ids.len()
            invariant
                i <= self.ids.len(),
                ids@ == self.ids@.take(i as int),
            decreases self.ids.len() - i,
        {
            ids.push(self.ids[i]);
            i = i + 1;
            assert(ids@ =~= self.ids@.take(i as int));
        }
        assert(ids@ =~= self.ids@);
        ids
    }
}

} // verus!
