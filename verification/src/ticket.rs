use vstd::prelude::*;

verus! {

/// The failures a catalog or reservation operation can surface to its caller.
///
/// Every operation recovers from these and reports them as a value; none of
/// the verified functions panic.
#[derive(Clone, Copy, Debug, PartialEq, Eq, Structural)]
pub enum TicketError {
    /// The request carried text that does not denote a number.
    InvalidInput,
    /// The ticket record (or the catalog metadata) is absent from the store.
    NotFound,
    /// The ticket has already been taken by an earlier reservation.
    AlreadyReserved,
    /// The reservation is missing its email, name or card detail.
    MissingField,
    /// The fraud check rejected the reservation details.
    FraudRejected,
    /// The underlying record store could not be reached.
    StoreUnavailable,
}

/// A reservable unit: a numbered ticket with its taken/available state and,
/// once taken, the reservation details.
#[derive(Debug)]
pub struct Ticket {
    pub id: u32,
    pub taken: bool,
    pub res_email: Option<String>,
    pub res_name: Option<String>,
    pub res_card: Option<String>,
}

/// The mathematical shape of a [`Ticket`]: the detail fields are read as
/// character sequences, so contracts can compare them by content.
#[verifier::ext_equal]
pub struct TicketModel {
    pub id: u32,
    pub taken: bool,
    pub res_email: Option<Seq<char>>,
    pub res_name: Option<Seq<char>>,
    pub res_card: Option<Seq<char>>,
}

impl TicketModel {
    /// A ticket is well formed when each detail field is present exactly
    /// when the ticket is taken: no partial reservations exist.
    pub open spec fn wf(self) -> bool {
        &&& (self.taken <==> self.res_email is Some)
        &&& (self.taken <==> self.res_name is Some)
        &&& (self.taken <==> self.res_card is Some)
    }
}

impl View for Ticket {
    type V = TicketModel;

    open spec fn view(&self) -> TicketModel {
        TicketModel {
            id: self.id,
            taken: self.taken,
            res_email: match self.res_email {
                Some(s) => Some(s@),
                None => None,
            },
            res_name: match self.res_name {
                Some(s) => Some(s@),
                None => None,
            },
            res_card: match self.res_card {
                Some(s) => Some(s@),
                None => None,
            },
        }
    }
}

/// A stored value paired with its monotonically increasing version counter.
#[derive(Debug)]
pub struct MyValue {
    pub version: u32,
    pub value: Ticket,
}

/// The mathematical shape of a [`MyValue`].
#[verifier::ext_equal]
pub struct RecordModel {
    pub version: u32,
    pub value: TicketModel,
}

impl RecordModel {
    pub open spec fn wf(self) -> bool {
        self.value.wf()
    }
}

impl View for MyValue {
    type V = RecordModel;

    open spec fn view(&self) -> RecordModel {
        RecordModel { version: self.version, value: self.value@ }
    }
}

/// The record a freshly populated ticket is stored under: version zero,
/// not taken, and no reservation details.
pub open spec fn fresh_record(id: u32) -> RecordModel {
    RecordModel {
        version: 0,
        value: TicketModel { id, taken: false, res_email: None, res_name: None, res_card: None },
    }
}

fn duplicate_detail(d: &Option<String>) -> (r: Option<String>)
    ensures
        (match r {
            Some(s) => match d {
                Some(o) => s@ == o@,
                None => false,
            },
            None => d is None,
        }),
{
    match d {
        Some(s) => Some(s.clone()),
        None => None,
    }
}

impl Ticket {
    /// An owned copy of the ticket with the same contents.
    pub fn duplicate(&self) -> (t: Ticket)
        ensures
            t@ == self@,
    {
        Ticket {
            id: self.id,
            taken: self.taken,
            res_email: duplicate_detail(&self.res_email),
            res_name: duplicate_detail(&self.res_name),
            res_card: duplicate_detail(&self.res_card),
        }
    }
}

impl MyValue {
    /// An owned copy of the versioned record with the same contents.
    pub fn duplicate(&self) -> (v: MyValue)
        ensures
            v@ == self@,
    {
        MyValue { version: self.version, value: self.value.duplicate() }
    }
}

} // verus!
