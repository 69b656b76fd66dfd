use vstd::prelude::*;

use crate::fraud::{anti_fraud, is_email};
use crate::store::CacheKV;
use crate::text::{key_of, ticket_key};
use crate::ticket::{MyValue, RecordModel, Ticket, TicketError, TicketModel};

verus! {

/// Whether a proposed reservation carries all three details.
pub open spec fn has_details(q: TicketModel) -> bool {
    q.res_email is Some && q.res_name is Some && q.res_card is Some
}

/// The record a successful reservation writes back: the version the writer
/// last read plus one, and the ticket taken with the submitted details.
pub open spec fn reserved_record(cur: RecordModel, q: TicketModel) -> RecordModel
    recommends
        cur.version < u32::MAX,
{
    RecordModel {
        version: (cur.version + 1) as u32,
        value: TicketModel {
            id: q.id,
            taken: true,
            res_email: q.res_email,
            res_name: q.res_name,
            res_card: q.res_card,
        },
    }
}

/// The decision of the reservation protocol, given the record the writer
/// read (`None` when the key held nothing) and the proposed reservation:
/// either the record to write back, or the error to surface. An absent
/// record is turned away first, then a taken ticket, then missing details,
/// then a rejected email; exactly one outcome applies to every input.
pub open spec fn reserve_outcome(cur: Option<RecordModel>, q: TicketModel) -> Result<
    RecordModel,
    TicketError,
>
    recommends
        cur matches Some(c) ==> c.version < u32::MAX,
{
    match cur {
        None => Err(TicketError::NotFound),
        Some(c) => if c.value.taken {
            Err(TicketError::AlreadyReserved)
        } else if !has_details(q) {
            Err(TicketError::MissingField)
        } else if !is_email(q.res_email->Some_0) {
            Err(TicketError::FraudRejected)
        } else {
            Ok(reserved_record(c, q))
        },
    }
}

/// What a read of the store at `id` sees.
pub open spec fn lookup(m: Map<u32, RecordModel>, id: u32) -> Option<RecordModel> {
    if m.contains_key(id) {
        Some(m[id])
    } else {
        None
    }
}

/// Decides one reservation attempt from the record the caller read and the
/// proposed details, touching no store: the check half of the protocol,
/// the same for every storage medium.
pub fn reserve_decide(current: &MyValue, proposed: Ticket) -> (r: Result<MyValue, TicketError>)
    requires
        current@.version < u32::MAX,
    ensures
        match r {
            Ok(v) => reserve_outcome(Some(current@), proposed@) == Ok::<RecordModel, TicketError>(
                v@,
            ),
            Err(e) => reserve_outcome(Some(current@), proposed@) == Err::<
                RecordModel,
                TicketError,
            >(e),
        },
{
    let ghost q = proposed@;
    if current.value.taken {
        return Err(TicketError::AlreadyReserved);
    }
    let email = match proposed.res_email {
        Some(e) => e,
        None => {
            return Err(TicketError::MissingField);
        },
    };
    let name = match proposed.res_name {
        Some(x) => x,
        None => {
            return Err(TicketError::MissingField);
        },
    };
    let card = match proposed.res_card {
        Some(x) => x,
        None => {
            return Err(TicketError::MissingField);
        },
    };
    let new_ticket = Ticket {
        id: proposed.id,
        taken: true,
        res_email: Some(email),
        res_name: Some(name),
        res_card: Some(card),
    };
    proof {
        assert(new_ticket@.res_email == q.res_email);
    }
    if !anti_fraud(&new_ticket) {
        return Err(TicketError::FraudRejected);
    }
    Ok(MyValue { version: current.version + 1, value: new_ticket })
}

/// One reservation attempt against the store: read the current record,
/// check availability and details, run the fraud decision, and on
/// acceptance write the incremented-version record back under the same
/// key. The write unconditionally overwrites the key — the version read is
/// not rechecked at write time (see
/// [`lemma_concurrent_reserves_lose_update`]). On every failure the store
/// is untouched.
pub fn reserve_ticket(store: &mut CacheKV, proposed: Ticket) -> (r: Result<(), TicketError>)
    requires
        old(store).tickets().contains_key(proposed.id) ==> old(store).tickets()[proposed.id].version
            < u32::MAX,
    ensures
        match reserve_outcome(lookup(old(store).tickets(), proposed.id), proposed@) {
            Ok(v) => r == Ok::<(), TicketError>(()) && final(store).tickets() == old(
                store,
            ).tickets().insert(proposed.id, v),
            Err(e) => r == Err::<(), TicketError>(e) && final(store).tickets() == old(
                store,
            ).tickets(),
        },
        final(store).count_meta() == old(store).count_meta(),
{
    let id = proposed.id;
    let cur = match store.get(id) {
        Some(v) => v.duplicate(),
        None => {
            return Err(TicketError::NotFound);
        },
    };
    match reserve_decide(&cur, proposed) {
        Ok(new_val) => {
            store.put(id, new_val);
            Ok(())
        },
        Err(e) => Err(e),
    }
}

/// A successful reservation writes a well-formed record: the ticket turns
/// taken atomically with all three details filled in — no partial
/// reservation is ever written — and the version is the one the writer
/// read plus one.
pub proof fn lemma_reserve_writes_well_formed(
    cur: Option<RecordModel>,
    q: TicketModel,
    v: RecordModel,
)
    requires
        cur matches Some(c) ==> c.version < u32::MAX,
        reserve_outcome(cur, q) == Ok::<RecordModel, TicketError>(v),
    ensures
        v.wf(),
        v.value.taken,
        cur matches Some(c) && v.version == c.version + 1,
{
}

/// Reserving the same ticket twice in sequence: the second attempt reads
/// the record the first one wrote, finds it taken, and is turned away as
/// already reserved, whatever details it carries.
pub proof fn lemma_second_reserve_rejected(
    m: Map<u32, RecordModel>,
    q1: TicketModel,
    q2: TicketModel,
    v1: RecordModel,
)
    requires
        reserve_outcome(lookup(m, q1.id), q1) == Ok::<RecordModel, TicketError>(v1),
        q2.id == q1.id,
    ensures
        reserve_outcome(lookup(m.insert(q1.id, v1), q2.id), q2) == Err::<
            RecordModel,
            TicketError,
        >(TicketError::AlreadyReserved),
{
    assert(lookup(m.insert(q1.id, v1), q2.id) == Some(v1));
    assert(v1.value.taken);
}

/// The documented concurrency hazard, exactly as the protocol has it: two
/// reservation attempts that both read the same available record both
/// decide to accept. The write is a blind overwrite, so applying both
/// writes leaves only the later writer's reservation — the earlier one is
/// silently discarded although it reported success — and both writers
/// store the same version counter, as if only one write had happened.
pub proof fn lemma_concurrent_reserves_lose_update(
    m: Map<u32, RecordModel>,
    cur: RecordModel,
    a: TicketModel,
    b: TicketModel,
    id: u32,
)
    requires
        lookup(m, id) == Some(cur),
        a.id == id,
        b.id == id,
        !cur.value.taken,
        cur.version < u32::MAX,
        has_details(a) && is_email(a.res_email->Some_0),
        has_details(b) && is_email(b.res_email->Some_0),
    ensures
        reserve_outcome(Some(cur), a) == Ok::<RecordModel, TicketError>(reserved_record(cur, a)),
        reserve_outcome(Some(cur), b) == Ok::<RecordModel, TicketError>(reserved_record(cur, b)),
        m.insert(id, reserved_record(cur, a)).insert(id, reserved_record(cur, b)) == m.insert(
            id,
            reserved_record(cur, b),
        ),
        reserved_record(cur, a).version == cur.version + 1,
        reserved_record(cur, b).version == cur.version + 1,
        a.res_email != b.res_email ==> m.insert(id, reserved_record(cur, a)).insert(
            id,
            reserved_record(cur, b),
        )[id].value.res_email != a.res_email,
{
    assert(m.insert(id, reserved_record(cur, a)).insert(id, reserved_record(cur, b)) =~= m.insert(
        id,
        reserved_record(cur, b),
    ));
}

/// The keys one reservation request reads and writes: exactly the record
/// key of the proposed ticket.
pub struct RWSetResponse {
    pub status: u16,
    pub rw_set: Vec<String>,
}

/// Reports the read/write set of a reservation request.
pub fn get_rw_set(proposed: &Ticket) -> (r: RWSetResponse)
    ensures
        r.status == 200,
        r.rw_set@.len() == 1,
        r.rw_set@[0]@ == key_of(proposed.id),
{
    let mut rw_set: Vec<String> = Vec::new();
    rw_set.push(ticket_key(proposed.id));
    RWSetResponse { status: 200, rw_set }
}

} // verus!
