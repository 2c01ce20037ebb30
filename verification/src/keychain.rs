//! A process-wide table of connection keys to backup state, allowing a
//! reconnecting peer that presents a known key to recover what its earlier
//! connection left behind.  Each entry is consumed exactly once: `take`
//! removes it.

use vstd::prelude::*;

verus! {

/// Compares two byte strings for equality.
pub fn bytes_eq(a: &[u8], b: &[u8]) -> (r: bool)
    ensures
        r <==> a@ == b@,
{
    if a.len() != b.len() {
        return false;
    }
    let mut i: usize = 0;
    while i < a.len()
        invariant
            i <= a@.len(),
            a@.len() == b@.len(),
            forall|j: int| 0 <= j < i ==> a@[j] == b@[j],
        decreases a@.len() - i,
    {
        if a[i] != b[i] {
            return false;
        }
        i = i + 1;
    }
    assert(a@ =~= b@);
    true
}

/// The mapping a sequence of keyed entries represents, later entries
/// overriding earlier ones.
pub open spec fn map_of<V>(entries: Seq<(Vec<u8>, V)>) -> Map<Seq<u8>, V>
    decreases entries.len(),
{
    if entries.len() == 0 {
        Map::empty()
    } else {
        map_of(entries.drop_last()).insert(entries.last().0@, entries.last().1)
    }
}

/// A key that is in no entry of a sequence is not in its mapping.
proof fn lemma_map_of_absent<V>(entries: Seq<(Vec<u8>, V)>, key: Seq<u8>)
    requires
        forall|i: int| 0 <= i < entries.len() ==> entries[i].0@ != key,
    ensures
        !map_of(entries).dom().contains(key),
    decreases entries.len(),
{
    if entries.len() > 0 {
        lemma_map_of_absent(entries.drop_last(), key);
    }
}

/// With pairwise-distinct keys, the mapping holds exactly the entries.
proof fn lemma_map_of_index<V>(entries: Seq<(Vec<u8>, V)>, i: int)
    requires
        forall|p: int, q: int|
            0 <= p < q < entries.len() ==> entries[p].0@ != entries[q].0@,
        0 <= i < entries.len(),
    ensures
        map_of(entries).dom().contains(entries[i].0@),
        map_of(entries)[entries[i].0@] == entries[i].1,
    decreases entries.len(),
{
    if i < entries.len() - 1 {
        lemma_map_of_index(entries.drop_last(), i);
    } else {
        assert(forall|p: int|
            0 <= p < entries.len() - 1 ==> entries[p].0@ != entries[i].0@);
    }
}

/// Removing the entry at index `i` removes exactly its key from the mapping.
proof fn lemma_map_of_remove<V>(entries: Seq<(Vec<u8>, V)>, i: int)
    requires
        forall|p: int, q: int|
            0 <= p < q < entries.len() ==> entries[p].0@ != entries[q].0@,
        0 <= i < entries.len(),
    ensures
        map_of(entries.remove(i)) =~= map_of(entries).remove(entries[i].0@),
    decreases entries.len(),
{
    let key = entries[i].0@;
    if i == entries.len() - 1 {
        assert(entries.remove(i) =~= entries.drop_last());
        assert(forall|p: int| 0 <= p < entries.len() - 1 ==> entries[p].0@ != key);
        lemma_map_of_absent(entries.drop_last(), key);
        assert(map_of(entries.drop_last()) =~= map_of(entries).remove(key));
    } else {
        let shorter = entries.drop_last();
        lemma_map_of_remove(shorter, i);
        assert(entries.remove(i).drop_last() =~= shorter.remove(i));
        assert(entries.remove(i).last() == entries.last());
        assert(map_of(entries.remove(i)) == map_of(shorter.remove(i)).insert(
            entries.last().0@,
            entries.last().1,
        ));
        assert(entries.last().0@ != key);
        assert(map_of(shorter).remove(key).insert(entries.last().0@, entries.last().1)
            =~= map_of(shorter).insert(entries.last().0@, entries.last().1).remove(key));
    }
}

/// The keychain: a table from connection keys to the backup state a
/// reconnecting peer may recover.
pub struct Keychain<V> {
    entries: Vec<(Vec<u8>, V)>,
}

impl<V> Keychain<V> {
    /// The mapping this keychain holds.
    pub closed spec fn view(&self) -> Map<Seq<u8>, V> {
        map_of(self.entries@)
    }

    /// Well-formed: no key occurs twice.
    pub closed spec fn wf(&self) -> bool {
        forall|p: int, q: int|
            0 <= p < q < self.entries@.len() ==> self.entries@[p].0@ != self.entries@[q].0@
    }

    /// An empty keychain.
    pub fn new() -> (kc: Self)
        ensures
            kc.wf(),
            kc@ =~= Map::<Seq<u8>, V>::empty(),
    {
        Self { entries: Vec::new() }
    }

    /// Returns the index of the entry holding `key`, if any.
    fn index_of(&self, key: &[u8]) -> (r: Option<usize>)
        requires
            self.wf(),
        ensures
            match r {
                Some(i) => i < self.entries@.len() && self.entries@[i as int].0@ == key@,
                None => forall|i: int|
                    0 <= i < self.entries@.len() ==> self.entries@[i].0@ != key@,
            },
    {
        let mut i: usize = 0;
        while i < self.entries.len()
            invariant
                i <= self.entries@.len(),
                self.wf(),
                forall|j: int| 0 <= j < i ==> self.entries@[j].0@ != key@,
            decreases self.entries@.len() - i,
        {
            if bytes_eq(self.entries[i].0.as_slice(), key) {
                return Some(i);
            }
            i = i + 1;
        }
        None
    }

    /// Whether an entry for `key` is present.
    pub fn contains(&self, key: &[u8]) -> (r: bool)
        requires
            self.wf(),
        ensures
            r == self@.dom().contains(key@),
    {
        match self.index_of(key) {
            Some(i) => {
                proof {
                    lemma_map_of_index(self.entries@, i as int);
                }
                true
            }
            None => {
                proof {
                    lemma_map_of_absent(self.entries@, key@);
                }
                false
            }
        }
    }

    /// Inserts a backup under `key`, replacing any entry already there.
    pub fn insert(&mut self, key: Vec<u8>, value: V)
        requires
            old(self).wf(),
        ensures
            final(self).wf(),
            final(self)@ =~= old(self)@.insert(key@, value),
    {
        match self.index_of(key.as_slice()) {
            Some(i) => {
                proof {
                    lemma_map_of_remove(self.entries@, i as int);
                    lemma_map_of_index(self.entries@, i as int);
                }
                let ghost removed = self.entries@.remove(i as int);
                self.entries.remove(i);
                self.entries.push((key, value));
                proof {
                    assert(self.entries@.drop_last() =~= removed);
                    assert(final(self)@ =~= old(self)@.insert(key@, value));
                }
            }
            None => {
                proof {
                    lemma_map_of_absent(self.entries@, key@);
                }
                self.entries.push((key, value));
                proof {
                    assert(self.entries@.drop_last() =~= old(self).entries@);
                }
            }
        }
    }

    /// Takes the backup stored under `key` out of the keychain, consuming
    /// the entry; a later `take` of the same key finds nothing.
    pub fn take(&mut self, key: &[u8]) -> (r: Option<V>)
        requires
            old(self).wf(),
        ensures
            final(self).wf(),
            match r {
                Some(value) => {
                    &&& old(self)@.dom().contains(key@)
                    &&& value == old(self)@[key@]
                    &&& final(self)@ =~= old(self)@.remove(key@)
                },
                None => !old(self)@.dom().contains(key@) && *final(self) == *old(self),
            },
    {
        match self.index_of(key) {
            Some(i) => {
                proof {
                    lemma_map_of_index(self.entries@, i as int);
                    lemma_map_of_remove(self.entries@, i as int);
                }
                let entry = self.entries.remove(i);
                Some(entry.1)
            }
            None => {
                proof {
                    lemma_map_of_absent(self.entries@, key@);
                }
                None
            }
        }
    }
}

} // verus!
