//! The containers behind the engine's state: a set of member indices and a
//! table keyed by broadcast instance, which can drop everything up to a rank.

use crate::config::{exact_rank, rank_of, NodeId, SeqNumber};
use std::collections::HashSet;
use vstd::prelude::*;

verus! {

/// A key that belongs to one broadcast instance (epoch, height).
pub trait InstanceKey: Sized {
    /// Epoch of the instance.
    spec fn epoch(self) -> SeqNumber;

    /// Height of the instance.
    spec fn height(self) -> SeqNumber;

    /// Epoch of the instance.
    fn key_epoch(&self) -> (epoch: SeqNumber)
        ensures
            epoch == self.epoch(),
    ;

    /// Height of the instance.
    fn key_height(&self) -> (height: SeqNumber)
        ensures
            height == self.height(),
    ;

    /// Whether two keys are the same key.
    fn same(&self, other: &Self) -> (same: bool)
        ensures
            same == (*self == *other),
    ;
}

impl InstanceKey for SeqNumber {
    open spec fn epoch(self) -> SeqNumber {
        self
    }

    open spec fn height(self) -> SeqNumber {
        0
    }

    fn key_epoch(&self) -> (epoch: SeqNumber) {
        *self
    }

    fn key_height(&self) -> (height: SeqNumber) {
        0
    }

    fn same(&self, other: &Self) -> (same: bool) {
        *self == *other
    }
}

impl InstanceKey for (SeqNumber, SeqNumber) {
    open spec fn epoch(self) -> SeqNumber {
        self.0
    }

    open spec fn height(self) -> SeqNumber {
        self.1
    }

    fn key_epoch(&self) -> (epoch: SeqNumber) {
        self.0
    }

    fn key_height(&self) -> (height: SeqNumber) {
        self.1
    }

    fn same(&self, other: &Self) -> (same: bool) {
        self.0 == other.0 && self.1 == other.1
    }
}

impl InstanceKey for (SeqNumber, SeqNumber, SeqNumber) {
    open spec fn epoch(self) -> SeqNumber {
        self.0
    }

    open spec fn height(self) -> SeqNumber {
        self.1
    }

    fn key_epoch(&self) -> (epoch: SeqNumber) {
        self.0
    }

    fn key_height(&self) -> (height: SeqNumber) {
        self.1
    }

    fn same(&self, other: &Self) -> (same: bool) {
        self.0 == other.0 && self.1 == other.1 && self.2 == other.2
    }
}

impl InstanceKey for (SeqNumber, SeqNumber, u8) {
    open spec fn epoch(self) -> SeqNumber {
        self.0
    }

    open spec fn height(self) -> SeqNumber {
        self.1
    }

    fn key_epoch(&self) -> (epoch: SeqNumber) {
        self.0
    }

    fn key_height(&self) -> (height: SeqNumber) {
        self.1
    }

    fn same(&self, other: &Self) -> (same: bool) {
        self.0 == other.0 && self.1 == other.1 && self.2 == other.2
    }
}

/// Rank of a key's instance in a committee of `size` members.
pub open spec fn key_rank<K: InstanceKey>(size: nat, key: K) -> nat {
    rank_of(size, key.epoch(), key.height())
}

/// The keys that outlive a purge up to `bound`.
pub open spec fn above<K: InstanceKey>(size: nat, bound: nat) -> Set<K> {
    Set::new(|key: K| key_rank(size, key) > bound)
}

/// A finite set of member indices.
pub struct IdSet {
    items: HashSet<NodeId>,
}

impl IdSet {
    #[verifier::type_invariant]
    spec fn bounded(self) -> bool {
        self.items@.finite()
    }

    /// The members of the set.
    pub closed spec fn view(&self) -> Set<NodeId> {
        self.items@
    }

    /// The empty set.
    pub fn new() -> (set: IdSet)
        ensures
            set@ == Set::<NodeId>::empty(),
    {
        IdSet { items: HashSet::new() }
    }

    /// Whether `id` is a member.
    pub fn contains(&self, id: NodeId) -> (found: bool)
        ensures
            found == self@.contains(id),
    {
        self.items.contains(&id)
    }

    /// Adds `id`; says whether it was new.
    pub fn insert(&mut self, id: NodeId) -> (fresh: bool)
        ensures
            fresh == !old(self)@.contains(id),
            final(self)@ == old(self)@.insert(id),
            !fresh ==> final(self)@ == old(self)@,
    {
        proof {
            use_type_invariant(&*self);
        }
        let mut items: HashSet<NodeId> = HashSet::new();
        std::mem::swap(&mut items, &mut self.items);
        let ghost before = items@;
        let fresh = items.insert(id);
        if !fresh {
            assert(before.insert(id) =~= before);
        }
        self.items = items;
        fresh
    }

    /// Number of members.
    pub fn len(&self) -> (count: usize)
        ensures
            count == self@.len(),
            self@.finite(),
    {
        proof {
            use_type_invariant(&*self);
        }
        self.items.len()
    }
}

/// A map from instance keys to values, small enough to be searched in line.
pub struct Table<K: InstanceKey, V> {
    entries: Vec<(K, V)>,
}

/// No key stands twice in the list.
spec fn distinct_keys<K, V>(entries: Seq<(K, V)>) -> bool {
    forall|i: int, j: int|
        0 <= i < entries.len() && 0 <= j < entries.len() && i != j ==> entries[i].0 != entries[j].0
}

/// Whether some entry has this key.
spec fn has_key<K, V>(entries: Seq<(K, V)>, key: K) -> bool {
    exists|i: int| 0 <= i < entries.len() && entries[i].0 == key
}

/// Where the entry with this key stands.
spec fn slot_of<K, V>(entries: Seq<(K, V)>, key: K) -> int {
    choose|i: int| 0 <= i < entries.len() && entries[i].0 == key
}

/// The map that a list of entries stands for.
spec fn as_map<K, V>(entries: Seq<(K, V)>) -> Map<K, V> {
    Map::new(|key: K| has_key(entries, key), |key: K| entries[slot_of(entries, key)].1)
}

/// With distinct keys, each entry is found where it stands.
proof fn lemma_slot<K, V>(entries: Seq<(K, V)>, i: int)
    requires
        distinct_keys(entries),
        0 <= i < entries.len(),
    ensures
        has_key(entries, entries[i].0),
        slot_of(entries, entries[i].0) == i,
        as_map(entries).contains_key(entries[i].0),
        as_map(entries)[entries[i].0] == entries[i].1,
{
}

impl<K: InstanceKey, V> Table<K, V> {
    #[verifier::type_invariant]
    spec fn distinct(self) -> bool {
        distinct_keys(self.entries@)
    }

    /// The map that the table holds.
    pub closed spec fn view(&self) -> Map<K, V> {
        as_map(self.entries@)
    }

    /// The empty table.
    pub fn new() -> (table: Self)
        ensures
            table@ == Map::<K, V>::empty(),
    {
        let table = Table { entries: Vec::new() };
        assert(table@ =~= Map::<K, V>::empty());
        table
    }

    /// Position of `key` among the entries.
    fn find(&self, key: &K) -> (slot: Option<usize>)
        ensures
            match slot {
                Some(i) => i < self.entries@.len() && self.entries@[i as int].0 == *key,
                None => !has_key(self.entries@, *key),
            },
    {
        let mut i: usize = 0;
        while i < self.entries.len()
            invariant
                i <= self.entries.len(),
                forall|j: int| 0 <= j < i ==> self.entries@[j].0 != *key,
            decreases self.entries.len() - i,
        {
            if self.entries[i].0.same(key) {
                return Some(i);
            }
            i = i + 1;
        }
        None
    }

    /// Whether the table has an entry for `key`.
    pub fn contains_key(&self, key: &K) -> (found: bool)
        ensures
            found == self@.contains_key(*key),
    {
        self.find(key).is_some()
    }

    /// The value stored for `key`.
    pub fn get(&self, key: &K) -> (value: Option<&V>)
        ensures
            match value {
                Some(v) => self@.contains_key(*key) && *v == self@[*key],
                None => !self@.contains_key(*key),
            },
    {
        proof {
            use_type_invariant(&*self);
        }
        match self.find(key) {
            Some(i) => {
                proof {
                    lemma_slot(self.entries@, i as int);
                }
                Some(&self.entries[i].1)
            },
            None => None,
        }
    }

    /// Stores `value` for `key`, in place of any earlier value.
    pub fn insert(&mut self, key: K, value: V)
        ensures
            final(self)@ == old(self)@.insert(key, value),
    {
        proof {
            use_type_invariant(&*self);
        }
        let slot = self.find(&key);
        let mut entries: Vec<(K, V)> = Vec::new();
        std::mem::swap(&mut entries, &mut self.entries);
        let ghost before = entries@;
        match slot {
            Some(i) => {
                entries.set(i, (key, value));
            },
            None => {
                entries.push((key, value));
            },
        }
        proof {
            let after = entries@;
            let at: int = match slot {
                Some(i) => i as int,
                None => before.len() as int,
            };
            assert(distinct_keys(after));
            assert forall|k: K| has_key(after, k) <==> (has_key(before, k) || k == key) by {
                if has_key(before, k) {
                    let j = slot_of(before, k);
                    assert(after[j].0 == k);
                }
                if k == key {
                    assert(after[at].0 == key);
                }
            }
            assert forall|k: K| has_key(after, k) implies as_map(after)[k] == as_map(
                before,
            ).insert(key, value)[k] by {
                let j = slot_of(after, k);
                lemma_slot(after, j);
                if k == key {
                    lemma_slot(after, at);
                } else {
                    assert(before[j].0 == k);
                    lemma_slot(before, j);
                }
            }
            assert(as_map(after) =~= as_map(before).insert(key, value));
        }
        self.entries = entries;
    }

    /// Takes the entry for `key` out of the table.
    pub fn take(&mut self, key: &K) -> (value: Option<V>)
        ensures
            final(self)@ == old(self)@.remove(*key),
            match value {
                Some(v) => old(self)@.contains_key(*key) && v == old(self)@[*key],
                None => !old(self)@.contains_key(*key),
            },
    {
        proof {
            use_type_invariant(&*self);
        }
        match self.find(key) {
            Some(i) => {
                let mut entries: Vec<(K, V)> = Vec::new();
                std::mem::swap(&mut entries, &mut self.entries);
                let ghost before = entries@;
                let entry = entries.remove(i);
                proof {
                    let after = entries@;
                    lemma_slot(before, i as int);
                    assert(distinct_keys(after));
                    assert forall|k: K| has_key(after, k) <==> (has_key(before, k) && k
                        != *key) by {
                        if has_key(after, k) {
                            let j = slot_of(after, k);
                            if j < i {
                                assert(before[j].0 == k);
                            } else {
                                assert(before[j + 1].0 == k);
                            }
                        }
                        if has_key(before, k) && k != *key {
                            let j = slot_of(before, k);
                            if j < i {
                                assert(after[j].0 == k);
                            } else {
                                assert(after[j - 1].0 == k);
                            }
                        }
                    }
                    assert forall|k: K| has_key(after, k) implies as_map(after)[k] == as_map(
                        before,
                    )[k] by {
                        let j = slot_of(after, k);
                        lemma_slot(after, j);
                        if j < i {
                            lemma_slot(before, j);
                        } else {
                            lemma_slot(before, j + 1);
                        }
                    }
                    assert(as_map(after) =~= as_map(before).remove(*key));
                }
                self.entries = entries;
                Some(entry.1)
            },
            None => {
                assert(self@ =~= self@.remove(*key));
                None
            },
        }
    }

    /// Drops every entry whose rank, in a committee of `size` members, is
    /// at most the rank of (`epoch`, `height`).
    pub fn purge(&mut self, size: usize, epoch: SeqNumber, height: SeqNumber)
        ensures
            final(self)@ == old(self)@.restrict(
                above(size as nat, rank_of(size as nat, epoch, height)),
            ),
    {
        proof {
            use_type_invariant(&*self);
        }
        let bound = exact_rank(size, epoch, height);
        let mut entries: Vec<(K, V)> = Vec::new();
        std::mem::swap(&mut entries, &mut self.entries);
        let ghost before = entries@;
        let ghost keep = above::<K>(size as nat, bound as nat);
        let mut kept: Vec<(K, V)> = Vec::new();
        while entries.len() > 0
            invariant
                entries@.len() <= before.len(),
                entries@ == before.take(entries@.len() as int),
                distinct_keys(before),
                distinct_keys(kept@),
                bound as nat == rank_of(size as nat, epoch, height),
                keep == above::<K>(size as nat, bound as nat),
                forall|k: K| #[trigger]
                    has_key(kept@, k) <==> (exists|i: int|
                        entries@.len() <= i < before.len() && before[i].0 == k && keep.contains(
                            k,
                        )),
                forall|j: int|
                    0 <= j < kept@.len() ==> has_key(before, #[trigger] kept@[j].0) && before[slot_of(
                        before,
                        kept@[j].0,
                    )].1 == kept@[j].1,
            decreases entries@.len(),
        {
            let ghost n = entries@.len() - 1;
            let ghost kept_before = kept@;
            let entry = entries.pop().unwrap();
            assert(entry == before[n]);
            assert(entries@ == before.take(n));
            let rank = exact_rank(size, entry.0.key_epoch(), entry.0.key_height());
            proof {
                lemma_slot(before, n);
            }
            if rank > bound {
                kept.push(entry);
                proof {
                    assert(keep.contains(entry.0));
                    assert(!has_key(kept_before, entry.0)) by {
                        if has_key(kept_before, entry.0) {
                            let i = choose|i: int|
                                n + 1 <= i < before.len() && before[i].0 == entry.0
                                    && keep.contains(entry.0);
                            assert(false);
                        }
                    }
                    assert(distinct_keys(kept@)) by {
                        assert forall|i: int, j: int|
                            0 <= i < kept@.len() && 0 <= j < kept@.len() && i
                                != j implies kept@[i].0 != kept@[j].0 by {
                            if i == kept_before.len() && kept@[j].0 == entry.0 {
                                assert(kept_before[j].0 == entry.0);
                            }
                            if j == kept_before.len() && kept@[i].0 == entry.0 {
                                assert(kept_before[i].0 == entry.0);
                            }
                        }
                    }
                    assert forall|k: K| #[trigger]
                        has_key(kept@, k) <==> (exists|i: int|
                            n <= i < before.len() && before[i].0 == k && keep.contains(k)) by {
                        if has_key(kept@, k) {
                            let j = slot_of(kept@, k);
                            if j < kept_before.len() {
                                assert(kept_before[j].0 == k);
                                assert(has_key(kept_before, k));
                            } else {
                                assert(before[n].0 == k);
                            }
                        }
                        if exists|i: int|
                            n <= i < before.len() && before[i].0 == k && keep.contains(k) {
                            let i = choose|i: int|
                                n <= i < before.len() && before[i].0 == k && keep.contains(k);
                            if i == n {
                                assert(kept@[kept_before.len() as int].0 == k);
                            } else {
                                assert(has_key(kept_before, k));
                                let j = slot_of(kept_before, k);
                                assert(kept@[j].0 == k);
                            }
                        }
                    }
                    assert forall|j: int| 0 <= j < kept@.len() implies has_key(
                        before,
                        #[trigger] kept@[j].0,
                    ) && before[slot_of(before, kept@[j].0)].1 == kept@[j].1 by {
                        if j < kept_before.len() {
                            assert(kept@[j] == kept_before[j]);
                        }
                    }
                }
            } else {
                proof {
                    assert(!keep.contains(entry.0));
                    assert forall|k: K| #[trigger]
                        has_key(kept@, k) <==> (exists|i: int|
                            n <= i < before.len() && before[i].0 == k && keep.contains(k)) by {
                        if exists|i: int|
                            n <= i < before.len() && before[i].0 == k && keep.contains(k) {
                            let i = choose|i: int|
                                n <= i < before.len() && before[i].0 == k && keep.contains(k);
                            assert(i != n);
                        }
                    }
                }
            }
        }
        proof {
            let target = as_map(before).restrict(keep);
            assert forall|k: K| as_map(kept@).contains_key(k) <==> target.contains_key(k) by {
                if has_key(kept@, k) {
                    let i = choose|i: int|
                        0 <= i < before.len() && before[i].0 == k && keep.contains(k);
                    assert(has_key(before, k));
                }
                if has_key(before, k) && keep.contains(k) {
                    let i = slot_of(before, k);
                    assert(0 <= i < before.len() && before[i].0 == k && keep.contains(k));
                }
            }
            assert forall|k: K| as_map(kept@).contains_key(k) implies as_map(kept@)[k]
                == target[k] by {
                let j = slot_of(kept@, k);
                lemma_slot(kept@, j);
            }
            assert(as_map(kept@) =~= target);
        }
        self.entries = kept;
    }
}

} // verus!
