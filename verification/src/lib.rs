//! A ticket reservation core: a fixed pool of numbered tickets, each
//! reservable exactly once, over a versioned key-value record store.
//!
//! The store adapter keeps every value behind a monotonic version counter;
//! the catalog populates and clears the pool in bulk; the reservation
//! protocol turns an available ticket into a taken one with an optimistic
//! read-check-write sequence; and a fraud check gates which reservations
//! are accepted.

pub mod catalog;
pub mod codec;
pub mod fraud;
pub mod protocol;
pub mod store;
pub mod text;
pub mod ticket;

pub use ticket::{MyValue, RecordModel, Ticket, TicketError, TicketModel};
