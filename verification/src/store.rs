//! A small verified key/value store backed by a vector of entries.
//!
//! The blackboard and both dispatch maps of the library are thin wrappers
//! around this store.  Its view is a `Map<u64, V>`; when the entry vector
//! holds a key more than once, the earliest entry is the one the view and
//! the lookups agree on, so no well-formedness side condition is needed in
//! any contract.

use vstd::prelude::*;

verus! {

/// The map described by an entry sequence: the first entry with a given key
/// provides that key's value.
pub(crate) open spec fn as_map<V>(s: Seq<(u64, V)>) -> Map<u64, V>
    decreases s.len(),
{
    if s.len() == 0 {
        Map::empty()
    } else {
        as_map(s.drop_first()).insert(s[0].0, s[0].1)
    }
}

/// An association store from `u64` keys to values of type `V`.
pub(crate) struct KvStore<V> {
    entries: Vec<(u64, V)>,
}

impl<V> View for KvStore<V> {
    type V = Map<u64, V>;

    closed spec fn view(&self) -> Map<u64, V> {
        as_map(self.entries@)
    }
}

proof fn lemma_as_map_absent<V>(s: Seq<(u64, V)>, key: u64)
    requires
        forall|j: int| 0 <= j < s.len() ==> (#[trigger] s[j]).0 != key,
    ensures
        !as_map(s).contains_key(key),
    decreases s.len(),
{
    if s.len() > 0 {
        assert(forall|j: int|
            0 <= j < s.drop_first().len() ==> (#[trigger] s.drop_first()[j]).0 != key);
        lemma_as_map_absent(s.drop_first(), key);
    }
}

proof fn lemma_as_map_found<V>(s: Seq<(u64, V)>, key: u64, i: int)
    requires
        0 <= i < s.len(),
        s[i].0 == key,
        forall|j: int| 0 <= j < i ==> (#[trigger] s[j]).0 != key,
    ensures
        as_map(s).contains_key(key),
        as_map(s)[key] == s[i].1,
    decreases s.len(),
{
    if i > 0 {
        assert(forall|j: int|
            0 <= j < i - 1 ==> (#[trigger] s.drop_first()[j]).0 != key);
        lemma_as_map_found(s.drop_first(), key, i - 1);
    }
}

proof fn lemma_as_map_update<V>(s: Seq<(u64, V)>, key: u64, i: int, value: V)
    requires
        0 <= i < s.len(),
        s[i].0 == key,
        forall|j: int| 0 <= j < i ==> (#[trigger] s[j]).0 != key,
    ensures
        as_map(s.update(i, (key, value))) == as_map(s).insert(key, value),
    decreases s.len(),
{
    let t = s.update(i, (key, value));
    if i == 0 {
        assert(t.drop_first() =~= s.drop_first());
        assert(as_map(t) =~= as_map(s).insert(key, value));
    } else {
        assert(forall|j: int|
            0 <= j < i - 1 ==> (#[trigger] s.drop_first()[j]).0 != key);
        lemma_as_map_update(s.drop_first(), key, i - 1, value);
        assert(t.drop_first() =~= s.drop_first().update(i - 1, (key, value)));
        assert(as_map(t) =~= as_map(s).insert(key, value));
    }
}

proof fn lemma_as_map_push<V>(s: Seq<(u64, V)>, key: u64, value: V)
    requires
        forall|j: int| 0 <= j < s.len() ==> (#[trigger] s[j]).0 != key,
    ensures
        as_map(s.push((key, value))) == as_map(s).insert(key, value),
    decreases s.len(),
{
    if s.len() == 0 {
        assert(s.push((key, value)).drop_first() =~= s);
        assert(as_map(s.push((key, value))) =~= as_map(s).insert(key, value));
    } else {
        assert(forall|j: int|
            0 <= j < s.drop_first().len() ==> (#[trigger] s.drop_first()[j]).0 != key);
        lemma_as_map_push(s.drop_first(), key, value);
        assert(s.push((key, value)).drop_first() =~= s.drop_first().push((key, value)));
        assert(as_map(s.push((key, value))) =~= as_map(s).insert(key, value));
    }
}

impl<V> KvStore<V> {
    pub(crate) fn new() -> (s: Self)
        ensures
            s@ == Map::<u64, V>::empty(),
    {
        KvStore { entries: Vec::new() }
    }

    /// The index of the first entry with the given key, if any.
    fn index_of(&self, key: u64) -> (r: Option<usize>)
        ensures
            match r {
                Some(i) => {
                    &&& i < self.entries@.len()
                    &&& self.entries@[i as int].0 == key
                    &&& forall|j: int| 0 <= j < i ==> (#[trigger] self.entries@[j]).0 != key
                },
                None => forall|j: int|
                    0 <= j < self.entries@.len() ==> (#[trigger] self.entries@[j]).0 != key,
            },
    {
        let n = self.entries.len();
        let mut i: usize = 0;
        while i < n
            invariant
                n == self.entries@.len(),
                i <= n,
                forall|j: int| 0 <= j < i ==> (#[trigger] self.entries@[j]).0 != key,
            decreases n - i,
        {
            if self.entries[i].0 == key {
                return Some(i);
            }
            i = i + 1;
        }
        None
    }

    /// Registers `value` under `key`, overwriting any earlier registration.
    pub(crate) fn insert(&mut self, key: u64, value: V)
        ensures
            final(self)@ == old(self)@.insert(key, value),
    {
        match self.index_of(key) {
            Some(i) => {
                proof {
                    lemma_as_map_update(self.entries@, key, i as int, value);
                }
                self.entries[i] = (key, value);
            },
            None => {
                proof {
                    lemma_as_map_push(self.entries@, key, value);
                }
                self.entries.push((key, value));
            },
        }
    }

    pub(crate) fn get(&self, key: u64) -> (r: Option<&V>)
        ensures
            match r {
                Some(v) => self@.contains_key(key) && *v == self@[key],
                None => !self@.contains_key(key),
            },
    {
        match self.index_of(key) {
            Some(i) => {
                proof {
                    lemma_as_map_found(self.entries@, key, i as int);
                }
                Some(&self.entries[i].1)
            },
            None => {
                proof {
                    lemma_as_map_absent(self.entries@, key);
                }
                None
            },
        }
    }

    pub(crate) fn contains(&self, key: u64) -> (r: bool)
        ensures
            r == self@.contains_key(key),
    {
        match self.index_of(key) {
            Some(i) => {
                proof {
                    lemma_as_map_found(self.entries@, key, i as int);
                }
                true
            },
            None => {
                proof {
                    lemma_as_map_absent(self.entries@, key);
                }
                false
            },
        }
    }

    /// A mutable handle on the value under `key`; writes through the handle
    /// become the new registration for `key`.
    pub(crate) fn get_mut(&mut self, key: u64) -> (r: &mut V)
        requires
            old(self)@.contains_key(key),
        ensures
            *r == old(self)@[key],
            final(self)@ == old(self)@.insert(key, *final(r)),
    {
        let found = self.index_of(key);
        proof {
            if found is None {
                lemma_as_map_absent(self.entries@, key);
            }
        }
        let i = found.unwrap();
        proof {
            lemma_as_map_found(self.entries@, key, i as int);
            assert forall|v: V|
                as_map(self.entries@.update(i as int, (key, v)))
                    == as_map(self.entries@).insert(key, v) by {
                lemma_as_map_update(self.entries@, key, i as int, v);
            }
        }
        &mut self.entries[i].1
    }
}

} // verus!
