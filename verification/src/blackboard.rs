//! The blackboard: the shared mutable context a tree is ticked against.
//!
//! A blackboard is a store of named `i64` values keyed by `u64`.  It is
//! owned by the caller and only borrowed during a tick: immutably while a
//! condition is evaluated, mutably while an action executes.  Its view is
//! the `Map<u64, i64>` of its current contents.

use vstd::prelude::*;

use crate::store::KvStore;

verus! {

/// A mutable key/value context shared by every node of a tree.
pub struct Blackboard {
    store: KvStore<i64>,
}

impl View for Blackboard {
    type V = Map<u64, i64>;

    closed spec fn view(&self) -> Map<u64, i64> {
        self.store@
    }
}

impl Blackboard {
    /// An empty blackboard.
    pub fn new() -> (b: Blackboard)
        ensures
            b@ == Map::<u64, i64>::empty(),
    {
        Blackboard { store: KvStore::new() }
    }

    /// Stores `value` under `key`, overwriting any earlier value.
    pub fn set(&mut self, key: u64, value: i64)
        ensures
            final(self)@ == old(self)@.insert(key, value),
    {
        self.store.insert(key, value);
    }

    /// The value stored under `key`, if any.
    pub fn get(&self, key: u64) -> (r: Option<i64>)
        ensures
            match r {
                Some(v) => self@.contains_key(key) && v == self@[key],
                None => !self@.contains_key(key),
            },
    {
        match self.store.get(key) {
            Some(v) => Some(*v),
            None => None,
        }
    }

    /// Whether any value is stored under `key`.
    pub fn contains(&self, key: u64) -> (r: bool)
        ensures
            r == self@.contains_key(key),
    {
        self.store.contains(key)
    }
}

} // verus!
