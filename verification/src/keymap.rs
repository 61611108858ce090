//! A map kept as a list of entries, for keys that are compared by their view.

use crate::model::RegionRef;
use crate::oid::{same_number_same_id, ObjectId};
use vstd::prelude::*;

verus! {

/// What can be a key: a value that can be compared by its view.
pub trait Key: View + Sized {
    /// Whether two keys have the same view.
    fn same_key(&self, other: &Self) -> (r: bool)
        ensures
            r == (self@ == other@),
    ;
}

impl Key for ObjectId {
    fn same_key(&self, other: &ObjectId) -> (r: bool) {
        proof {
            if self@ == other@ {
                same_number_same_id(*self, *other);
            }
        }
        *self == *other
    }
}

impl Key for String {
    fn same_key(&self, other: &String) -> (r: bool) {
        *self == *other
    }
}

impl View for RegionRef {
    type V = (ObjectId, Seq<char>);

    open spec fn view(&self) -> (ObjectId, Seq<char>) {
        (self.camera_id, self.region_name@)
    }
}

impl Key for RegionRef {
    fn same_key(&self, other: &RegionRef) -> (r: bool) {
        self.camera_id == other.camera_id && self.region_name == other.region_name
    }
}

/// A map from keys to values. No key occurs twice.
#[derive(Debug)]
pub struct KeyMap<K: Key, V> {
    entries: Vec<(K, V)>,
}

/// Whether `key` is the key of an entry.
spec fn holds_key<K: Key, V>(entries: Seq<(K, V)>, key: K::V) -> bool {
    exists|i: int| 0 <= i < entries.len() && (#[trigger] entries[i]).0@ == key
}

/// The index of the entry for `key`.
spec fn place<K: Key, V>(entries: Seq<(K, V)>, key: K::V) -> int {
    choose|i: int| 0 <= i < entries.len() && (#[trigger] entries[i]).0@ == key
}

spec fn distinct<K: Key, V>(entries: Seq<(K, V)>) -> bool {
    forall|i: int, j: int|
        0 <= i < entries.len() && 0 <= j < entries.len() && (#[trigger] entries[i]).0@ == (
        #[trigger] entries[j]).0@ ==> i == j
}

spec fn contents<K: Key, V>(entries: Seq<(K, V)>) -> Map<K::V, V> {
    Map::new(|key: K::V| holds_key(entries, key), |key: K::V| entries[place(entries, key)].1)
}

proof fn lemma_entry<K: Key, V>(entries: Seq<(K, V)>, i: int)
    requires
        distinct(entries),
        0 <= i < entries.len(),
    ensures
        contents(entries).dom().contains(entries[i].0@),
        contents(entries)[entries[i].0@] == entries[i].1,
{
    assert(holds_key(entries, entries[i].0@));
    assert(place(entries, entries[i].0@) == i);
}

proof fn lemma_push<K: Key, V>(entries: Seq<(K, V)>, key: K, value: V)
    requires
        distinct(entries),
        !holds_key(entries, key@),
    ensures
        distinct(entries.push((key, value))),
        contents(entries.push((key, value))) == contents(entries).insert(key@, value),
{
    let after = entries.push((key, value));
    assert(distinct(after));
    lemma_entry(after, entries.len() as int);
    assert forall|k: K::V| holds_key(entries, k) implies holds_key(after, k) && contents(after)[k] == contents(
        entries,
    )[k] by {
        let i = place(entries, k);
        lemma_entry(entries, i);
        assert(after[i] == entries[i]);
        lemma_entry(after, i);
    }
    assert forall|k: K::V| holds_key(after, k) implies holds_key(entries, k) || k == key@ by {
        let i = place(after, k);
        if i < entries.len() {
            assert(entries[i] == after[i]);
        }
    }
    assert(contents(after) =~= contents(entries).insert(key@, value));
}

proof fn lemma_set<K: Key, V>(entries: Seq<(K, V)>, i: int, key: K, value: V)
    requires
        distinct(entries),
        0 <= i < entries.len(),
        entries[i].0@ == key@,
    ensures
        distinct(entries.update(i, (key, value))),
        contents(entries.update(i, (key, value))) == contents(entries).insert(key@, value),
{
    let after = entries.update(i, (key, value));
    assert forall|a: int| 0 <= a < after.len() implies (#[trigger] after[a]).0@ == entries[a].0@ by {}
    assert(distinct(after));
    lemma_entry(after, i);
    assert forall|k: K::V| k != key@ && holds_key(entries, k) implies holds_key(after, k) && contents(after)[k]
        == contents(entries)[k] by {
        let a = place(entries, k);
        lemma_entry(entries, a);
        assert(after[a] == entries[a]);
        lemma_entry(after, a);
    }
    assert forall|k: K::V| holds_key(after, k) implies holds_key(entries, k) || k == key@ by {
        let a = place(after, k);
        assert(entries[a].0@ == after[a].0@);
    }
    assert(contents(after) =~= contents(entries).insert(key@, value));
}

proof fn lemma_remove<K: Key, V>(entries: Seq<(K, V)>, i: int)
    requires
        distinct(entries),
        0 <= i < entries.len(),
    ensures
        distinct(entries.remove(i)),
        contents(entries.remove(i)) == contents(entries).remove(entries[i].0@),
{
    let after = entries.remove(i);
    let key = entries[i].0@;
    assert forall|a: int| 0 <= a < after.len() implies #[trigger] after[a] == entries[if a < i {
        a
    } else {
        a + 1
    }] by {}
    assert(distinct(after));
    assert forall|k: K::V| k != key && holds_key(entries, k) implies holds_key(after, k) && contents(after)[k]
        == contents(entries)[k] by {
        let a = place(entries, k);
        lemma_entry(entries, a);
        let b = if a < i {
            a
        } else {
            a - 1
        };
        assert(after[b] == entries[a]);
        lemma_entry(after, b);
    }
    assert forall|k: K::V| holds_key(after, k) implies holds_key(entries, k) && k != key by {
        let a = place(after, k);
        let b = if a < i {
            a
        } else {
            a + 1
        };
        assert(entries[b] == after[a]);
        assert(b != i);
    }
    assert(contents(after) =~= contents(entries).remove(key));
}

impl<K: Key, V> View for KeyMap<K, V> {
    type V = Map<K::V, V>;

    closed spec fn view(&self) -> Map<K::V, V> {
        contents(self.entries@)
    }
}

impl<K: Key, V> KeyMap<K, V> {
    #[verifier::type_invariant]
    spec fn well_formed(self) -> bool {
        distinct(self.entries@)
    }

    /// A map without entries.
    pub fn new() -> (r: KeyMap<K, V>)
        ensures
            r@ == Map::<K::V, V>::empty(),
    {
        let r: KeyMap<K, V> = KeyMap { entries: Vec::new() };
        assert(r@ =~= Map::<K::V, V>::empty());
        r
    }

    fn position(&self, key: &K) -> (r: Option<usize>)
        ensures
            match r {
                Some(i) => i < self.entries@.len() && self.entries@[i as int].0@ == key@,
                None => !holds_key(self.entries@, key@),
            },
    {
        let mut i: usize = 0;
        while i < self.entries.len()
            invariant
                i <= self.entries@.len(),
                forall|j: int| 0 <= j < i ==> (#[trigger] self.entries@[j]).0@ != key@,
            decreases self.entries@.len() - i,
        {
            if self.entries[i].0.same_key(key) {
                return Some(i);
            }
            i += 1;
        }
        None
    }

    /// Whether the map holds `key`.
    pub fn contains_key(&self, key: &K) -> (r: bool)
        ensures
            r == self@.dom().contains(key@),
    {
        self.position(key).is_some()
    }

    /// The value for `key`.
    pub fn get(&self, key: &K) -> (r: Option<&V>)
        ensures
            match r {
                Some(value) => self@.dom().contains(key@) && *value == self@[key@],
                None => !self@.dom().contains(key@),
            },
    {
        proof {
            use_type_invariant(self);
        }
        match self.position(key) {
            Some(i) => {
                proof {
                    lemma_entry(self.entries@, i as int);
                }
                Some(&self.entries[i].1)
            },
            None => None,
        }
    }

    /// Puts `value` in the place of `key`.
    pub fn insert(&mut self, key: K, value: V)
        ensures
            final(self)@ == old(self)@.insert(key@, value),
    {
        proof {
            use_type_invariant(&*self);
        }
        let found: Option<usize> = self.position(&key);
        let mut entries: Vec<(K, V)> = Vec::new();
        std::mem::swap(&mut entries, &mut self.entries);
        match found {
            Some(i) => {
                proof {
                    lemma_set(entries@, i as int, key, value);
                }
                entries.set(i, (key, value));
            },
            None => {
                proof {
                    lemma_push(entries@, key, value);
                }
                entries.push((key, value));
            },
        }
        self.entries = entries;
    }

    /// Takes the entry for `key` out.
    pub fn remove(&mut self, key: &K) -> (r: Option<V>)
        ensures
            final(self)@ == old(self)@.remove(key@),
            match r {
                Some(value) => old(self)@.dom().contains(key@) && value == old(self)@[key@],
                None => !old(self)@.dom().contains(key@),
            },
    {
        proof {
            use_type_invariant(&*self);
        }
        let found: Option<usize> = self.position(key);
        let mut entries: Vec<(K, V)> = Vec::new();
        std::mem::swap(&mut entries, &mut self.entries);
        let r: Option<V> = match found {
            Some(i) => {
                proof {
                    lemma_entry(entries@, i as int);
                    lemma_remove(entries@, i as int);
                }
                let entry: (K, V) = entries.remove(i);
                Some(entry.1)
            },
            None => {
                assert(contents(entries@) =~= contents(entries@).remove(key@));
                None
            },
        };
        self.entries = entries;
        r
    }

    /// The entries, in no particular order.
    pub fn into_entries(self) -> (r: Vec<(K, V)>)
        ensures
            forall|i: int|
                0 <= i < r@.len() ==> self@.dom().contains((#[trigger] r@[i]).0@)
                    && self@[r@[i].0@] == r@[i].1,
            forall|key: K::V| #[trigger]
                self@.dom().contains(key) ==> exists|i: int|
                    0 <= i < r@.len() && (#[trigger] r@[i]).0@ == key,
            forall|i: int, j: int|
                0 <= i < j < r@.len() ==> (#[trigger] r@[i]).0@ != (#[trigger] r@[j]).0@,
    {
        proof {
            use_type_invariant(&self);
            assert forall|i: int| 0 <= i < self.entries@.len() implies self@.dom().contains(
                (#[trigger] self.entries@[i]).0@,
            ) && self@[self.entries@[i].0@] == self.entries@[i].1 by {
                lemma_entry(self.entries@, i);
            }
        }
        self.entries
    }
}

} // verus!
