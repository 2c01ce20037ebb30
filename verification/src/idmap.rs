//! A map keyed by 64-bit identifiers, backed by an association list with
//! pairwise-distinct keys.  It carries the connection table of the server
//! and the process table of the process manager.

use vstd::prelude::*;

verus! {

/// The mapping a sequence of keyed entries represents, later entries
/// overriding earlier ones.
pub open spec fn id_map_of<V>(entries: Seq<(u64, V)>) -> Map<u64, V>
    decreases entries.len(),
{
    if entries.len() == 0 {
        Map::empty()
    } else {
        id_map_of(entries.drop_last()).insert(entries.last().0, entries.last().1)
    }
}

/// A key in no entry is not in the mapping.
proof fn lemma_id_map_of_absent<V>(entries: Seq<(u64, V)>, key: u64)
    requires
        forall|i: int| 0 <= i < entries.len() ==> (#[trigger] entries[i]).0 != key,
    ensures
        !id_map_of(entries).dom().contains(key),
    decreases entries.len(),
{
    if entries.len() > 0 {
        lemma_id_map_of_absent(entries.drop_last(), key);
    }
}

/// With pairwise-distinct keys, the mapping holds exactly the entries.
proof fn lemma_id_map_of_index<V>(entries: Seq<(u64, V)>, i: int)
    requires
        forall|p: int, q: int|
            0 <= p < q < entries.len() ==> (#[trigger] entries[p]).0 != (
            #[trigger] entries[q]).0,
        0 <= i < entries.len(),
    ensures
        id_map_of(entries).dom().contains(entries[i].0),
        id_map_of(entries)[entries[i].0] == entries[i].1,
    decreases entries.len(),
{
    if i < entries.len() - 1 {
        lemma_id_map_of_index(entries.drop_last(), i);
    } else {
        assert(forall|p: int|
            0 <= p < entries.len() - 1 ==> (#[trigger] entries[p]).0 != entries[i].0);
    }
}

/// Removing the entry at index `i` removes exactly its key.
proof fn lemma_id_map_of_remove<V>(entries: Seq<(u64, V)>, i: int)
    requires
        forall|p: int, q: int|
            0 <= p < q < entries.len() ==> (#[trigger] entries[p]).0 != (
            #[trigger] entries[q]).0,
        0 <= i < entries.len(),
    ensures
        id_map_of(entries.remove(i)) =~= id_map_of(entries).remove(entries[i].0),
    decreases entries.len(),
{
    let key = entries[i].0;
    if i == entries.len() - 1 {
        assert(entries.remove(i) =~= entries.drop_last());
        assert(forall|p: int| 0 <= p < entries.len() - 1 ==> (#[trigger] entries[p]).0 != key);
        lemma_id_map_of_absent(entries.drop_last(), key);
        assert(id_map_of(entries.drop_last()) =~= id_map_of(entries).remove(key));
    } else {
        let shorter = entries.drop_last();
        lemma_id_map_of_remove(shorter, i);
        assert(entries.remove(i).drop_last() =~= shorter.remove(i));
        assert(entries.remove(i).last() == entries.last());
        assert(id_map_of(entries.remove(i)) == id_map_of(shorter.remove(i)).insert(
            entries.last().0,
            entries.last().1,
        ));
        assert(entries.last().0 != key);
        assert(id_map_of(shorter).remove(key).insert(entries.last().0, entries.last().1)
            =~= id_map_of(shorter).insert(entries.last().0, entries.last().1).remove(key));
    }
}

/// With pairwise-distinct keys, the mapping's domain is as large as the
/// entry list.
proof fn lemma_id_map_of_len<V>(entries: Seq<(u64, V)>)
    requires
        forall|p: int, q: int|
            0 <= p < q < entries.len() ==> (#[trigger] entries[p]).0 != (
            #[trigger] entries[q]).0,
    ensures
        id_map_of(entries).dom().finite(),
        id_map_of(entries).dom().len() == entries.len(),
    decreases entries.len(),
{
    if entries.len() > 0 {
        lemma_id_map_of_len(entries.drop_last());
        assert(forall|p: int|
            0 <= p < entries.len() - 1 ==> (#[trigger] entries[p]).0 != entries.last().0);
        lemma_id_map_of_absent(entries.drop_last(), entries.last().0);
        let prev = id_map_of(entries.drop_last());
        assert(prev.insert(entries.last().0, entries.last().1).dom() =~= prev.dom().insert(
            entries.last().0,
        ));
    }
}

/// A map from 64-bit identifiers to values.
pub struct IdMap<V> {
    entries: Vec<(u64, V)>,
}

impl<V> IdMap<V> {
    /// The mapping this table holds.
    pub closed spec fn view(&self) -> Map<u64, V> {
        id_map_of(self.entries@)
    }

    /// Well-formed: no identifier occurs twice.
    pub closed spec fn wf(&self) -> bool {
        forall|p: int, q: int|
            0 <= p < q < self.entries@.len() ==> (#[trigger] self.entries@[p]).0 != (
            #[trigger] self.entries@[q]).0
    }

    /// An empty table.
    pub fn new() -> (m: Self)
        ensures
            m.wf(),
            m@ =~= Map::<u64, V>::empty(),
    {
        Self { entries: Vec::new() }
    }

    /// The index of the entry holding `key`, if any.
    fn index_of(&self, key: u64) -> (r: Option<usize>)
        requires
            self.wf(),
        ensures
            match r {
                Some(i) => i < self.entries@.len() && self.entries@[i as int].0 == key,
                None => forall|i: int|
                    0 <= i < self.entries@.len() ==> (#[trigger] self.entries@[i]).0 != key,
            },
    {
        let mut i: usize = 0;
        while i < self.entries.len()
            invariant
                i <= self.entries@.len(),
                self.wf(),
                forall|j: int| 0 <= j < i ==> (#[trigger] self.entries@[j]).0 != key,
            decreases self.entries@.len() - i,
        {
            if self.entries[i].0 == key {
                return Some(i);
            }
            i = i + 1;
        }
        None
    }

    /// Whether an entry for `key` is present.
    pub fn contains(&self, key: u64) -> (r: bool)
        requires
            self.wf(),
        ensures
            r == self@.dom().contains(key),
    {
        match self.index_of(key) {
            Some(i) => {
                proof {
                    lemma_id_map_of_index(self.entries@, i as int);
                }
                true
            },
            None => {
                proof {
                    lemma_id_map_of_absent(self.entries@, key);
                }
                false
            },
        }
    }

    /// A reference to the value under `key`, if present.
    pub fn get(&self, key: u64) -> (r: Option<&V>)
        requires
            self.wf(),
        ensures
            match r {
                Some(v) => self@.dom().contains(key) && *v == self@[key],
                None => !self@.dom().contains(key),
            },
    {
        match self.index_of(key) {
            Some(i) => {
                proof {
                    lemma_id_map_of_index(self.entries@, i as int);
                }
                Some(&self.entries[i].1)
            },
            None => {
                proof {
                    lemma_id_map_of_absent(self.entries@, key);
                }
                None
            },
        }
    }

    /// Inserts a value under `key`, replacing any entry already there.
    pub fn insert(&mut self, key: u64, value: V)
        requires
            old(self).wf(),
        ensures
            final(self).wf(),
            final(self)@ =~= old(self)@.insert(key, value),
    {
        match self.index_of(key) {
            Some(i) => {
                proof {
                    lemma_id_map_of_remove(self.entries@, i as int);
                    lemma_id_map_of_index(self.entries@, i as int);
                }
                let ghost removed = self.entries@.remove(i as int);
                self.entries.remove(i);
                self.entries.push((key, value));
                proof {
                    assert(self.entries@.drop_last() =~= removed);
                    assert(final(self)@ =~= old(self)@.insert(key, value));
                }
            },
            None => {
                proof {
                    lemma_id_map_of_absent(self.entries@, key);
                }
                self.entries.push((key, value));
                proof {
                    assert(self.entries@.drop_last() =~= old(self).entries@);
                }
            },
        }
    }

    /// Removes the entry under `key`, returning its value.
    pub fn remove(&mut self, key: u64) -> (r: Option<V>)
        requires
            old(self).wf(),
        ensures
            final(self).wf(),
            match r {
                Some(value) => {
                    &&& old(self)@.dom().contains(key)
                    &&& value == old(self)@[key]
                    &&& final(self)@ =~= old(self)@.remove(key)
                },
                None => !old(self)@.dom().contains(key) && *final(self) == *old(self),
            },
    {
        match self.index_of(key) {
            Some(i) => {
                proof {
                    lemma_id_map_of_index(self.entries@, i as int);
                    lemma_id_map_of_remove(self.entries@, i as int);
                }
                let entry = self.entries.remove(i);
                Some(entry.1)
            },
            None => {
                proof {
                    lemma_id_map_of_absent(self.entries@, key);
                }
                None
            },
        }
    }

    /// How many entries the table holds.
    pub fn len(&self) -> (n: usize)
        requires
            self.wf(),
        ensures
            n == self@.dom().len(),
            self@.dom().finite(),
    {
        proof {
            lemma_id_map_of_len(self.entries@);
        }
        self.entries.len()
    }

    /// Every identifier in the table, each exactly once.
    pub fn keys(&self) -> (ks: Vec<u64>)
        requires
            self.wf(),
        ensures
            forall|p: int, q: int| 0 <= p < q < ks@.len() ==> ks@[p] != ks@[q],
            forall|k: u64| ks@.contains(k) <==> self@.dom().contains(k),
    {
        let mut ks: Vec<u64> = Vec::new();
        let mut i: usize = 0;
        while i < self.entries.len()
            invariant
                i <= self.entries@.len(),
                self.wf(),
                ks@.len() == i,
                forall|j: int| 0 <= j < i ==> ks@[j] == (#[trigger] self.entries@[j]).0,
            decreases self.entries@.len() - i,
        {
            ks.push(self.entries[i].0);
            i = i + 1;
        }
        proof {
            assert forall|p: int, q: int| 0 <= p < q < ks@.len() implies ks@[p] != ks@[q] by {
                assert(ks@[p] == self.entries@[p].0);
                assert(ks@[q] == self.entries@[q].0);
            }
            assert forall|k: u64| ks@.contains(k) implies self@.dom().contains(k) by {
                let j = choose|j: int| 0 <= j < ks@.len() && ks@[j] == k;
                lemma_id_map_of_index(self.entries@, j);
            }
            assert forall|k: u64| self@.dom().contains(k) implies ks@.contains(k) by {
                if forall|j: int|
                    0 <= j < self.entries@.len() ==> (#[trigger] self.entries@[j]).0 != k {
                    lemma_id_map_of_absent(self.entries@, k);
                } else {
                    let j = choose|j: int|
                        0 <= j < self.entries@.len() && (#[trigger] self.entries@[j]).0 == k;
                    assert(ks@[j] == k);
                }
            }
        }
        ks
    }

    /// Whether the table is empty.
    pub fn is_empty(&self) -> (r: bool)
        requires
            self.wf(),
        ensures
            r == self@.dom().is_empty(),
            self@.dom().finite(),
    {
        proof {
            lemma_id_map_of_len(self.entries@);
            if self.entries@.len() == 0 {
                assert(self@.dom() =~= Set::<u64>::empty());
            } else {
                lemma_id_map_of_index(self.entries@, 0);
                assert(self@.dom().contains(self.entries@[0].0));
            }
        }
        self.entries.len() == 0
    }
}

} // verus!
