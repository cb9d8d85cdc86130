//! The keyed collection store: a durable map from identifier to record.
//!
//! One generic collection type serves all five entity types.  Its
//! mathematical content is a map from identifier to record view; the
//! well-formedness invariant ties that map to the bytes actually stored, so
//! a record read back is exactly the record that was written.

use vstd::prelude::*;

verus! {

use crate::records::{Record, fits_ceiling};
use crate::store::{ByteStore, store_contents};

/// A keyed collection of records of one type.
pub struct Collection<T: Record> {
    store: ByteStore,
    model: Ghost<Map<u64, T::V>>,
}

impl<T: Record> Collection<T> {
    /// The mathematical content: identifier to record view.
    pub closed spec fn view_map(self) -> Map<u64, T::V> {
        self.model@
    }

    /// The stored bytes encode the model exactly, and every stored record
    /// sits within its type's declared size ceiling.
    pub closed spec fn wf(self) -> bool {
        &&& store_contents(self.store).dom() == self.model@.dom()
        &&& forall|k: u64|
            #[trigger] self.model@.dom().contains(k) ==> store_contents(self.store)[k]
                == T::enc_v(self.model@[k])
        &&& forall|k: u64| #[trigger] self.model@.dom().contains(k) ==> fits_ceiling::<T>(
            self.model@[k],
        )
        &&& self.model@.dom().finite()
    }

    /// Creates an empty collection over fresh durable memory.
    pub fn new() -> (c: Self)
        ensures
            c.wf(),
            c.view_map() == Map::<u64, T::V>::empty(),
    {
        let c = Collection { store: ByteStore::new(), model: Ghost(Map::empty()) };
        proof {
            assert(store_contents(c.store).dom() =~= c.model@.dom());
        }
        c
    }

    /// Inserts a record, overwriting any record under the same key.  A record
    /// beyond its type's size ceiling is a defect the caller must rule out.
    pub fn insert(&mut self, key: u64, rec: &T)
        requires
            old(self).wf(),
            fits_ceiling::<T>(rec@),
        ensures
            final(self).wf(),
            final(self).view_map() == old(self).view_map().insert(key, rec@),
    {
        let bytes = rec.encode();
        self.store.insert(key, bytes);
        proof {
            self.model@ = self.model@.insert(key, rec@);
            assert(store_contents(self.store).dom() =~= self.model@.dom());
        }
    }

    /// Point lookup: the record stored under the key, if any.
    pub fn get(&self, key: u64) -> (r: Option<T>)
        requires
            self.wf(),
        ensures
            match r {
                Some(v) => self.view_map().dom().contains(key) && v@ == self.view_map()[key]
                    && fits_ceiling::<T>(v@),
                None => !self.view_map().dom().contains(key),
            },
    {
        match self.store.get(key) {
            None => None,
            Some(bytes) => match T::decode(bytes.as_slice()) {
                Some(v) => Some(v),
                None => {
                    proof {
                        assert(bytes@ == T::enc_v(self.model@[key]));
                        assert(false);
                    }
                    vstd::pervasive::unreached()
                },
            },
        }
    }

    /// Removes the record under the key, returning it if it was there.
    pub fn remove(&mut self, key: u64) -> (r: Option<T>)
        requires
            old(self).wf(),
        ensures
            final(self).wf(),
            final(self).view_map() == old(self).view_map().remove(key),
            match r {
                Some(v) => old(self).view_map().dom().contains(key) && v@ == old(
                    self,
                ).view_map()[key],
                None => !old(self).view_map().dom().contains(key),
            },
    {
        let taken = self.store.remove(key);
        proof {
            self.model@ = self.model@.remove(key);
            assert(store_contents(self.store).dom() =~= self.model@.dom());
        }
        match taken {
            None => None,
            Some(bytes) => match T::decode(bytes.as_slice()) {
                Some(v) => Some(v),
                None => {
                    proof {
                        assert(false);
                    }
                    vstd::pervasive::unreached()
                },
            },
        }
    }

    /// Full scan: every entry, in ascending key order.
    pub fn entries(&self) -> (r: Vec<(u64, T)>)
        requires
            self.wf(),
        ensures
            forall|i: int|
                0 <= i < r@.len() ==> self.view_map().dom().contains(#[trigger] r@[i].0)
                    && r@[i].1@ == self.view_map()[r@[i].0],
            forall|i: int, j: int| 0 <= i < j < r@.len() ==> r@[i].0 < r@[j].0,
            forall|k: u64|
                #[trigger] self.view_map().dom().contains(k) ==> exists|i: int|
                    0 <= i < r@.len() && #[trigger] r@[i].0 == k,
    {
        let raw = self.store.entries();
        let mut out: Vec<(u64, T)> = Vec::new();
        let mut idx: usize = 0;
        while idx < raw.len()
            invariant
                self.wf(),
                idx <= raw@.len(),
                out@.len() == idx,
                forall|i: int|
                    0 <= i < raw@.len() ==> store_contents(self.store).dom().contains(
                        #[trigger] raw@[i].0,
                    ) && raw@[i].1@ == store_contents(self.store)[raw@[i].0],
                forall|i: int, j: int| 0 <= i < j < raw@.len() ==> raw@[i].0 < raw@[j].0,
                forall|i: int| 0 <= i < idx ==> (#[trigger] out@[i]).0 == raw@[i].0,
                forall|i: int|
                    0 <= i < idx ==> self.view_map().dom().contains((#[trigger] out@[i]).0)
                        && out@[i].1@ == self.view_map()[out@[i].0],
            decreases raw@.len() - idx,
        {
            let k = raw[idx].0;
            match T::decode(raw[idx].1.as_slice()) {
                Some(v) => out.push((k, v)),
                None => {
                    proof {
                        assert(raw@[idx as int].1@ == T::enc_v(self.model@[k]));
                        assert(false);
                    }
                    vstd::pervasive::unreached()
                },
            }
            idx += 1;
        }
        proof {
            assert forall|k: u64| self.view_map().dom().contains(k) implies exists|i: int|
                0 <= i < out@.len() && #[trigger] out@[i].0 == k by {
                let i = choose|i: int| 0 <= i < raw@.len() && #[trigger] raw@[i].0 == k;
                assert(out@[i].0 == k);
            }
        }
        out
    }
}

} // verus!
