use vstd::prelude::*;

use crate::ticket::{MyValue, RecordModel};

verus! {

/// The versioned record store, held in process memory: one slot per ticket
/// identifier, plus the populated-count metadata the catalog keeps beside
/// the ticket records.
///
/// The interface is the plain get/put/delete contract of a versioned
/// key-value medium: a write unconditionally overwrites whatever the key
/// holds, and no compare-and-swap primitive is offered. A production
/// deployment can put the same operations over an external medium behind
/// the application layer; the catalog and the reservation protocol only
/// depend on the contracts below.
pub struct CacheKV {
    slots: Vec<Option<MyValue>>,
    count: Option<u32>,
}

impl CacheKV {
    /// The slot table never outgrows the ticket identifier space.
    #[verifier::type_invariant]
    spec fn inv(self) -> bool {
        self.slots@.len() <= u32::MAX as int + 1
    }

    /// The records the store holds, keyed by ticket identifier.
    pub closed spec fn tickets(self) -> Map<u32, RecordModel> {
        Map::new(
            |k: u32| (k as int) < self.slots@.len() && self.slots@[k as int] is Some,
            |k: u32| self.slots@[k as int]->Some_0@,
        )
    }

    /// The populated-count metadata, if any has been written.
    pub closed spec fn count_meta(self) -> Option<u32> {
        self.count
    }

    /// An empty store: no records, no count metadata.
    pub fn new() -> (s: CacheKV)
        ensures
            forall|k: u32| !s.tickets().contains_key(k),
            s.count_meta() is None,
    {
        CacheKV { slots: Vec::new(), count: None }
    }

    /// Reads the record stored for ticket `id`, if the key holds one.
    pub fn get(&self, id: u32) -> (r: Option<&MyValue>)
        ensures
            match r {
                Some(v) => self.tickets().contains_key(id) && v@ == self.tickets()[id],
                None => !self.tickets().contains_key(id),
            },
    {
        let idx = id as usize;
        if idx < self.slots.len() {
            match &self.slots[idx] {
                Some(v) => Some(v),
                None => None,
            }
        } else {
            None
        }
    }

    /// Stores `val` for ticket `id`, overwriting whatever the key held.
    pub fn put(&mut self, id: u32, val: MyValue)
        ensures
            final(self).tickets() == old(self).tickets().insert(id, val@),
            final(self).count_meta() == old(self).count_meta(),
    {
        proof {
            use_type_invariant(&*self);
        }
        let ghost orig = self.slots@;
        let mut slots: Vec<Option<MyValue>> = Vec::new();
        core::mem::swap(&mut self.slots, &mut slots);
        let idx = id as usize;
        while slots.len() <= idx
            invariant
                idx <= u32::MAX as int,
                orig.len() <= slots@.len(),
                slots@.len() <= idx + 1 || slots@.len() == orig.len(),
                forall|j: int| 0 <= j < orig.len() ==> slots@[j] == orig[j],
                forall|j: int| orig.len() <= j < slots@.len() ==> slots@[j] is None,
            decreases idx + 1 - slots@.len(),
        {
            slots.push(None);
        }
        slots[idx] = Some(val);
        self.slots = slots;
        proof {
            assert(final(self).tickets() =~= old(self).tickets().insert(id, val@));
        }
    }

    /// Removes the record stored for ticket `id`; absent keys stay absent.
    pub fn delete(&mut self, id: u32)
        ensures
            final(self).tickets() == old(self).tickets().remove(id),
            final(self).count_meta() == old(self).count_meta(),
    {
        proof {
            use_type_invariant(&*self);
        }
        let ghost orig = self.slots@;
        let mut slots: Vec<Option<MyValue>> = Vec::new();
        core::mem::swap(&mut self.slots, &mut slots);
        let idx = id as usize;
        if idx < slots.len() {
            slots[idx] = None;
        }
        self.slots = slots;
        proof {
            assert(final(self).tickets() =~= old(self).tickets().remove(id));
        }
    }

    /// Reads the populated-count metadata.
    pub fn get_count(&self) -> (r: Option<u32>)
        ensures
            r == self.count_meta(),
    {
        self.count
    }

    /// Writes the populated-count metadata, overwriting any earlier count.
    pub fn put_count(&mut self, n: u32)
        ensures
            final(self).count_meta() == Some(n),
            final(self).tickets() == old(self).tickets(),
    {
        proof {
            use_type_invariant(&*self);
        }
        self.count = Some(n);
        proof {
            assert(final(self).tickets() =~= old(self).tickets());
        }
    }

    /// The identifiers of the stored tickets that are still available,
    /// in increasing order.
    pub fn list_available(&self) -> (r: Vec<u32>)
        ensures
            forall|j: int|
                0 <= j < r@.len() ==> self.tickets().contains_key(#[trigger] r@[j])
                    && !self.tickets()[r@[j]].value.taken,
            forall|k: u32|
                self.tickets().contains_key(k) && !self.tickets()[k].value.taken ==> r@.contains(
                    k,
                ),
            forall|j1: int, j2: int| 0 <= j1 < j2 < r@.len() ==> r@[j1] < r@[j2],
    {
        proof {
            use_type_invariant(&*self);
        }
        let mut out: Vec<u32> = Vec::new();
        let mut i: usize = 0;
        while i < self.slots.len()
            invariant
                self.inv(),
                i <= self.slots@.len(),
                forall|j: int|
                    0 <= j < out@.len() ==> self.tickets().contains_key(#[trigger] out@[j])
                        && !self.tickets()[out@[j]].value.taken,
                forall|k: u32|
                    (k as int) < i && self.tickets().contains_key(k)
                        && !self.tickets()[k].value.taken ==> out@.contains(k),
                forall|j: int| 0 <= j < out@.len() ==> (out@[j] as int) < i,
                forall|j1: int, j2: int| 0 <= j1 < j2 < out@.len() ==> out@[j1] < out@[j2],
            decreases self.slots@.len() - i,
        {
            match &self.slots[i] {
                Some(v) => {
                    if !v.value.taken {
                        let ghost prev = out@;
                        out.push(i as u32);
                        proof {
                            assert forall|k: u32|
                                (k as int) < i + 1 && self.tickets().contains_key(k)
                                    && !self.tickets()[k].value.taken implies out@.contains(k) by {
                                if (k as int) < i {
                                    assert(prev.contains(k));
                                    let j = choose|j: int|
                                        0 <= j < prev.len() && prev[j] == k;
                                    assert(out@[j] == k);
                                } else {
                                    assert(out@[out@.len() - 1] == k);
                                }
                            }
                        }
                    }
                },
                None => {},
            }
            i = i + 1;
        }
        out
    }
}

} // verus!
