//! A map stored as a vector of key/value entries with distinct keys.
//!
//! The store's maps are keyed by roots, checkpoints and validator indices.
//! Entries keep insertion order, so walking them is deterministic; the map's
//! meaning is the `Map` its entries describe.
use vstd::prelude::*;

use crate::containers::chain::Checkpoint;
use crate::primitives::{Root, ValidatorIndex};

verus! {

/// A key whose equality can be decided at run time.
pub trait MapKey: Sized + Copy {
    /// Whether two keys are the same value.
    fn key_eq(&self, other: &Self) -> (r: bool)
        ensures
            r == (*self == *other),
    ;
}

impl MapKey for Root {
    fn key_eq(&self, other: &Self) -> (r: bool) {
        self.equals(other)
    }
}

impl MapKey for Checkpoint {
    fn key_eq(&self, other: &Self) -> (r: bool) {
        self.equals(other)
    }
}

impl MapKey for ValidatorIndex {
    fn key_eq(&self, other: &Self) -> (r: bool) {
        self.0 == other.0
    }
}

/// The map described by a sequence of entries; later entries win.
pub open spec fn map_of<K, V>(s: Seq<(K, V)>) -> Map<K, V>
    decreases s.len(),
{
    if s.len() == 0 {
        Map::empty()
    } else {
        map_of(s.drop_last()).insert(s.last().0, s.last().1)
    }
}

/// No key occurs in two entries.
pub open spec fn unique_keys<K, V>(s: Seq<(K, V)>) -> bool {
    forall|i: int, j: int| 0 <= i < j < s.len() ==> s[i].0 != s[j].0
}

/// An entry's key maps to that entry's value.
pub proof fn lemma_map_of_index<K, V>(s: Seq<(K, V)>, i: int)
    requires
        unique_keys(s),
        0 <= i < s.len(),
    ensures
        map_of(s).contains_key(s[i].0),
        map_of(s)[s[i].0] == s[i].1,
    decreases s.len(),
{
    if i < s.len() - 1 {
        assert(unique_keys(s.drop_last()));
        lemma_map_of_index(s.drop_last(), i);
        assert(s.drop_last()[i] == s[i]);
        assert(s[i].0 != s.last().0);
    }
}

/// A key in no entry is not in the map.
pub proof fn lemma_map_of_absent<K, V>(s: Seq<(K, V)>, k: K)
    requires
        forall|i: int| 0 <= i < s.len() ==> s[i].0 != k,
    ensures
        !map_of(s).contains_key(k),
    decreases s.len(),
{
    if s.len() > 0 {
        assert forall|i: int| 0 <= i < s.drop_last().len() implies s.drop_last()[i].0 != k by {
            assert(s.drop_last()[i] == s[i]);
        }
        lemma_map_of_absent(s.drop_last(), k);
    }
}

/// The map's keys are exactly the entries' keys.
pub proof fn lemma_map_of_contains<K, V>(s: Seq<(K, V)>, k: K)
    requires
        map_of(s).contains_key(k),
    ensures
        exists|i: int| 0 <= i < s.len() && s[i].0 == k,
{
    if forall|i: int| 0 <= i < s.len() ==> s[i].0 != k {
        lemma_map_of_absent(s, k);
    }
}

/// Replacing the value of entry `i` updates the map at that entry's key.
pub proof fn lemma_map_of_update<K, V>(s: Seq<(K, V)>, i: int, v: V)
    requires
        unique_keys(s),
        0 <= i < s.len(),
    ensures
        unique_keys(s.update(i, (s[i].0, v))),
        map_of(s.update(i, (s[i].0, v))) =~= map_of(s).insert(s[i].0, v),
    decreases s.len(),
{
    let t = s.update(i, (s[i].0, v));
    assert(t.drop_last() =~= if i < s.len() - 1 {
        s.drop_last().update(i, (s[i].0, v))
    } else {
        s.drop_last()
    });
    if i < s.len() - 1 {
        assert(unique_keys(s.drop_last()));
        assert(s.drop_last()[i] == s[i]);
        lemma_map_of_update(s.drop_last(), i, v);
        assert(s[i].0 != s.last().0);
    }
}

/// A map stored as entries with distinct keys.
#[derive(Debug, Clone)]
pub struct KeyedMap<K, V> {
    /// The entries, in insertion order.
    pub entries: Vec<(K, V)>,
}

impl<K, V> View for KeyedMap<K, V> {
    type V = Map<K, V>;

    open spec fn view(&self) -> Map<K, V> {
        map_of(self.entries@)
    }
}

impl<K: MapKey, V> KeyedMap<K, V> {
    /// Whether no key occurs twice.
    pub open spec fn wf(&self) -> bool {
        unique_keys(self.entries@)
    }

    /// The empty map.
    pub fn new() -> (r: Self)
        ensures
            r@ == Map::<K, V>::empty(),
            r.wf(),
            r.entries@.len() == 0,
    {
        KeyedMap { entries: Vec::new() }
    }

    /// Number of entries.
    pub fn len(&self) -> (r: usize)
        ensures
            r == self.entries@.len(),
    {
        self.entries.len()
    }

    /// The position of the entry with key `k`, if any.
    pub fn find(&self, k: &K) -> (r: Option<usize>)
        ensures
            r matches Some(i) ==> i < self.entries@.len() && self.entries@[i as int].0 == *k,
            r is None ==> forall|i: int| 0 <= i < self.entries@.len() ==> self.entries@[i].0 != *k,
    {
        let n = self.entries.len();
        let mut i: usize = 0;
        while i < n
            invariant
                n == self.entries@.len(),
                i <= n,
                forall|j: int| 0 <= j < i ==> self.entries@[j].0 != *k,
            decreases n - i,
        {
            if self.entries[i].0.key_eq(k) {
                return Some(i);
            }
            i = i + 1;
        }
        None
    }

    /// Whether `k` has an entry.
    pub fn contains_key(&self, k: &K) -> (r: bool)
        requires
            self.wf(),
        ensures
            r == self@.contains_key(*k),
    {
        match self.find(k) {
            Some(i) => {
                proof {
                    lemma_map_of_index(self.entries@, i as int);
                }
                true
            },
            None => {
                proof {
                    lemma_map_of_absent(self.entries@, *k);
                }
                false
            },
        }
    }

    /// The value stored under `k`, if any.
    pub fn get(&self, k: &K) -> (r: Option<&V>)
        requires
            self.wf(),
        ensures
            match r {
                Some(v) => self@.contains_key(*k) && *v == self@[*k],
                None => !self@.contains_key(*k),
            },
    {
        match self.find(k) {
            Some(i) => {
                proof {
                    lemma_map_of_index(self.entries@, i as int);
                }
                Some(&self.entries[i].1)
            },
            None => {
                proof {
                    lemma_map_of_absent(self.entries@, *k);
                }
                None
            },
        }
    }

    /// Store `v` under `k`, replacing any earlier value.
    pub fn insert(&mut self, k: K, v: V)
        requires
            old(self).wf(),
        ensures
            final(self).wf(),
            final(self)@ == old(self)@.insert(k, v),
    {
        match self.find(&k) {
            Some(i) => {
                proof {
                    lemma_map_of_update(self.entries@, i as int, v);
                }
                self.entries.set(i, (k, v));
            },
            None => {
                let ghost before = self.entries@;
                self.entries.push((k, v));
                proof {
                    assert(self.entries@.drop_last() =~= before);
                }
            },
        }
    }

    /// Store `v` under `k` like `insert`, and hand back what `restore` needs
    /// to undo it: the position and value of the entry it replaced, or
    /// nothing when the key was new.
    pub fn insert_with_undo(&mut self, k: K, v: V) -> (undo: Option<(usize, V)>)
        requires
            old(self).wf(),
        ensures
            final(self).wf(),
            final(self)@ == old(self)@.insert(k, v),
            match undo {
                None => final(self).entries@ == old(self).entries@.push((k, v)),
                Some((i, prev)) => i < old(self).entries@.len() && old(self).entries@[i as int] == (k, prev)
                    && final(self).entries@ == old(self).entries@.update(i as int, (k, v)),
            },
    {
        match self.find(&k) {
            Some(i) => {
                proof {
                    lemma_map_of_update(self.entries@, i as int, v);
                }
                let ghost before = self.entries@;
                let (_, prev) = self.entries.remove(i);
                self.entries.insert(i, (k, v));
                proof {
                    assert(self.entries@ =~= before.update(i as int, (k, v)));
                }
                Some((i, prev))
            },
            None => {
                let ghost before = self.entries@;
                self.entries.push((k, v));
                proof {
                    assert(self.entries@.drop_last() =~= before);
                }
                None
            },
        }
    }

    /// Undo `insert_with_undo`: put the replaced entry back, or drop the
    /// entry it added last.
    pub fn restore(&mut self, undo: Option<(usize, V)>)
        requires
            match undo {
                None => old(self).entries@.len() > 0,
                Some((i, _)) => i < old(self).entries@.len(),
            },
        ensures
            match undo {
                None => final(self).entries@ == old(self).entries@.drop_last(),
                Some((i, prev)) => final(self).entries@ == old(self).entries@.update(
                    i as int,
                    (old(self).entries@[i as int].0, prev),
                ),
            },
    {
        match undo {
            None => {
                self.entries.pop();
            },
            Some((i, prev)) => {
                let ghost before = self.entries@;
                let (key, _) = self.entries.remove(i);
                self.entries.insert(i, (key, prev));
                proof {
                    assert(self.entries@ =~= before.update(i as int, (before[i as int].0, prev)));
                }
            },
        }
    }

    /// The key of entry `i`.
    pub fn key_at(&self, i: usize) -> (r: K)
        requires
            i < self.entries@.len(),
        ensures
            r == self.entries@[i as int].0,
    {
        self.entries[i].0
    }

    /// The value of entry `i`.
    pub fn value_at(&self, i: usize) -> (r: &V)
        requires
            i < self.entries@.len(),
        ensures
            *r == self.entries@[i as int].1,
    {
        &self.entries[i].1
    }
}


/// Reading a key right after storing it gives the stored value, and every
/// other key reads as before.
pub proof fn lemma_read_after_write<K, V>(m: Map<K, V>, k: K, v: V)
    ensures
        m.insert(k, v).contains_key(k),
        m.insert(k, v)[k] == v,
        forall|other: K|
            other != k ==> (#[trigger] m.insert(k, v).contains_key(other)) == m.contains_key(other) && (m.contains_key(
                other,
            ) ==> m.insert(k, v)[other] == m[other]),
{
}

} // verus!
