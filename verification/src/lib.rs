//! A reservation manager: bookings of a resource over half-open time
//! intervals, with the guarantee that no two active reservations for the
//! same resource ever overlap.
//!
//! The manager validates a requested interval, inserts the reservation only
//! when it conflicts with no stored one, and exposes the lifecycle
//! (pending, confirmed, deleted) together with a filtered query.

pub mod error;
pub mod laws;
pub mod manager;
pub mod reservation;
pub mod time;
