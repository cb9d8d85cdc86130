//! Trusted bindings to the durable storage substrate.
//!
//! The durable state lives in `ic_stable_structures`: one ordered map per
//! collection, from identifiers to encoded records, and one cell holding the
//! identifier counter.  Each binding's contract states only what that crate's
//! source shows about the call it makes.

use vstd::prelude::*;
use ic_stable_structures::{BTreeMap, Cell, DefaultMemoryImpl};

verus! {

/// A durable ordered map from identifiers to encoded records.
#[verifier::external_body]
pub struct ByteStore {
    map: BTreeMap<u64, Vec<u8>, DefaultMemoryImpl>,
}

/// What a byte store holds.
pub uninterp spec fn store_contents(s: ByteStore) -> Map<u64, Seq<u8>>;

/// The content of a store over fresh memory.
pub open spec fn no_contents() -> Map<u64, Seq<u8>> {
    Map::empty()
}

impl ByteStore {
    /// Relies on `BTreeMap::new`: a map over fresh memory holds nothing.
    /// On a host target `DefaultMemoryImpl::default()` yields a fresh memory
    /// of its own, so every store is independent; a deployment over a single
    /// shared durable memory must bind each store to its own region of it
    /// instead.
    #[verifier::external_body]
    pub fn new() -> (s: ByteStore)
        ensures
            store_contents(s) == no_contents(),
    {
        ByteStore { map: BTreeMap::new(DefaultMemoryImpl::default()) }
    }

    /// Relies on `BTreeMap::insert`: it stores the value under the key,
    /// replacing any previous value.
    #[verifier::external_body]
    pub fn insert(&mut self, key: u64, value: Vec<u8>)
        ensures
            store_contents(*final(self)) == store_contents(*old(self)).insert(key, value@),
    {
        self.map.insert(key, value);
    }

    /// Relies on `BTreeMap::get`: it returns the value stored under the key,
    /// if one is there.
    #[verifier::external_body]
    pub fn get(&self, key: u64) -> (r: Option<Vec<u8>>)
        ensures
            r matches Some(v) ==> store_contents(*self).dom().contains(key) && v@
                == store_contents(*self)[key],
            r is None ==> !store_contents(*self).dom().contains(key),
    {
        self.map.get(&key)
    }

    /// Relies on `BTreeMap::remove`: it removes the key and returns the prior
    /// value, if one was there.
    #[verifier::external_body]
    pub fn remove(&mut self, key: u64) -> (r: Option<Vec<u8>>)
        ensures
            store_contents(*final(self)) == store_contents(*old(self)).remove(key),
            r matches Some(v) ==> store_contents(*old(self)).dom().contains(key) && v@
                == store_contents(*old(self))[key],
            r is None ==> !store_contents(*old(self)).dom().contains(key),
    {
        self.map.remove(&key)
    }

    /// Relies on `BTreeMap::iter`: it yields exactly the stored entries, in
    /// ascending key order.
    #[verifier::external_body]
    pub fn entries(&self) -> (r: Vec<(u64, Vec<u8>)>)
        ensures
            forall|i: int|
                0 <= i < r@.len() ==> store_contents(*self).dom().contains(#[trigger] r@[i].0)
                    && r@[i].1@ == store_contents(*self)[r@[i].0],
            forall|i: int, j: int| 0 <= i < j < r@.len() ==> r@[i].0 < r@[j].0,
            forall|k: u64|
                #[trigger] store_contents(*self).dom().contains(k) ==> exists|i: int|
                    0 <= i < r@.len() && #[trigger] r@[i].0 == k,
    {
        let mut out = Vec::new();
        for e in self.map.iter() {
            out.push(e.into_pair());
        }
        out
    }
}

/// The durable cell behind the identifier generator.
#[verifier::external_body]
pub struct IdCounter {
    cell: Cell<u64, DefaultMemoryImpl>,
}

/// What the counter cell holds.
pub uninterp spec fn counter_value(c: IdCounter) -> u64;

impl IdCounter {
    /// Relies on `Cell::init`: a cell over fresh memory holds the given
    /// initial value.  On a host target `DefaultMemoryImpl::default()` yields
    /// a fresh memory of its own; a deployment over a single shared durable
    /// memory must bind the counter to its own region of it instead.
    #[verifier::external_body]
    pub fn new() -> (c: IdCounter)
        ensures
            counter_value(c) == 0,
    {
        IdCounter { cell: Cell::init(DefaultMemoryImpl::default(), 0) }
    }

    /// Relies on `Cell::get`: it returns the stored value.
    #[verifier::external_body]
    pub fn get(&self) -> (v: u64)
        ensures
            v == counter_value(*self),
    {
        *self.cell.get()
    }

    /// Relies on `Cell::set`: it overwrites the stored value.
    #[verifier::external_body]
    pub fn set(&mut self, v: u64)
        ensures
            counter_value(*final(self)) == v,
    {
        self.cell.set(v);
    }
}

} // verus!
