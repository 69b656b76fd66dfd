use vstd::prelude::*;

use crate::store::CacheKV;
use crate::ticket::{fresh_record, MyValue, RecordModel, Ticket, TicketError};

verus! {

/// The catalog after populating `n` tickets: every identifier below `n`
/// holds a fresh record; everything at or beyond `n` is left as it was.
pub open spec fn populate_map(m: Map<u32, RecordModel>, n: u32) -> Map<u32, RecordModel> {
    Map::new(
        |k: u32| k < n || m.contains_key(k),
        |k: u32|
            if k < n {
                fresh_record(k)
            } else {
                m[k]
            },
    )
}

/// The catalog after clearing a recorded count of `c`: every identifier
/// below `c` is gone; everything at or beyond `c` is left as it was.
pub open spec fn clear_map(m: Map<u32, RecordModel>, c: u32) -> Map<u32, RecordModel> {
    Map::new(|k: u32| m.contains_key(k) && k >= c, |k: u32| m[k])
}

/// Creates tickets `0..n`, each available, with version zero and no
/// reservation details, and records `n` as the populated count.
///
/// Populating is not idempotent: tickets the catalog already held at or
/// beyond `n` are not cleaned up, so callers should clear before
/// repopulating.
pub fn populate_tickets(store: &mut CacheKV, n: u32)
    ensures
        final(store).tickets() == populate_map(old(store).tickets(), n),
        final(store).count_meta() == Some(n),
{
    let mut i: u32 = 0;
    while i < n
        invariant
            i <= n,
            forall|k: u32|
                k < i ==> #[trigger] store.tickets().contains_key(k) && store.tickets()[k]
                    == fresh_record(k),
            forall|k: u32|
                k >= i ==> (#[trigger] store.tickets().contains_key(k) <==> old(
                    store,
                ).tickets().contains_key(k)) && (old(store).tickets().contains_key(k)
                    ==> store.tickets()[k] == old(store).tickets()[k]),
            store.count_meta() == old(store).count_meta(),
        decreases n - i,
    {
        let ticket = Ticket {
            id: i,
            taken: false,
            res_email: None,
            res_name: None,
            res_card: None,
        };
        let val = MyValue { version: 0, value: ticket };
        store.put(i, val);
        i = i + 1;
    }
    store.put_count(n);
    proof {
        assert(final(store).tickets() =~= populate_map(old(store).tickets(), n));
    }
}

/// Deletes every ticket the recorded count covers and resets the count to
/// zero. Fails with `NotFound`, touching nothing, when no count was ever
/// recorded.
pub fn clear_cache(store: &mut CacheKV) -> (r: Result<(), TicketError>)
    ensures
        match r {
            Ok(()) => {
                &&& old(store).count_meta() is Some
                &&& final(store).tickets() == clear_map(
                    old(store).tickets(),
                    old(store).count_meta()->Some_0,
                )
                &&& final(store).count_meta() == Some(0u32)
            },
            Err(e) => {
                &&& e == TicketError::NotFound
                &&& old(store).count_meta() is None
                &&& *final(store) == *old(store)
            },
        },
{
    let n = match store.get_count() {
        Some(n) => n,
        None => {
            return Err(TicketError::NotFound);
        },
    };
    let mut i: u32 = 0;
    while i < n
        invariant
            i <= n,
            forall|k: u32| k < i ==> !(#[trigger] store.tickets().contains_key(k)),
            forall|k: u32|
                k >= i ==> (#[trigger] store.tickets().contains_key(k) <==> old(
                    store,
                ).tickets().contains_key(k)) && (old(store).tickets().contains_key(k)
                    ==> store.tickets()[k] == old(store).tickets()[k]),
            store.count_meta() == old(store).count_meta(),
        decreases n - i,
    {
        store.delete(i);
        i = i + 1;
    }
    store.put_count(0);
    proof {
        assert(final(store).tickets() =~= clear_map(old(store).tickets(), n));
    }
    Ok(())
}

/// Returns the ticket stored under `id`, or `NotFound` when the key holds
/// nothing — whether it never held a record or the record was cleared.
pub fn get_ticket(store: &CacheKV, id: u32) -> (r: Result<Ticket, TicketError>)
    ensures
        match r {
            Ok(t) => store.tickets().contains_key(id) && t@ == store.tickets()[id].value,
            Err(e) => e == TicketError::NotFound && !store.tickets().contains_key(id),
        },
{
    match store.get(id) {
        Some(v) => Ok(v.value.duplicate()),
        None => Err(TicketError::NotFound),
    }
}

/// After populating `n` tickets, every identifier below `n` holds a ticket
/// that is not taken, has version zero, its own identifier, and no
/// reservation details.
pub proof fn lemma_populate_gives_fresh(m: Map<u32, RecordModel>, n: u32, i: u32)
    requires
        i < n,
    ensures
        populate_map(m, n).contains_key(i),
        populate_map(m, n)[i] == fresh_record(i),
        !populate_map(m, n)[i].value.taken,
        populate_map(m, n)[i].value.res_email is None,
        populate_map(m, n)[i].value.res_name is None,
        populate_map(m, n)[i].value.res_card is None,
        populate_map(m, n)[i].version == 0,
        populate_map(m, n)[i].value.id == i,
        populate_map(m, n)[i].wf(),
{
}

/// Clearing with the count a population recorded removes every ticket that
/// population created: every lookup below the count finds nothing.
pub proof fn lemma_clear_after_populate(m: Map<u32, RecordModel>, n: u32, i: u32)
    requires
        i < n,
    ensures
        !clear_map(populate_map(m, n), n).contains_key(i),
{
}

} // verus!
