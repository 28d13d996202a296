//! The error taxonomy of the reservation manager.

use vstd::prelude::*;

verus! {

/// Everything a reservation operation can fail with.
///
/// `DbError` and `Unknown` are reserved for a persistence backend and for
/// unclassified failures; the in-memory store never produces them, and the
/// contracts of the manager say so.
#[derive(Clone, Copy, PartialEq, Eq, Structural, Debug)]
pub enum ReservationError {
    /// The backing store failed for a reason unrelated to overlap.
    DbError,
    /// The requested interval is missing a bound or is not strictly
    /// increasing.
    InvalidTime,
    /// The requested interval overlaps an active reservation for the same
    /// resource.
    Conflict,
    /// The referenced reservation id does not exist (or was deleted).
    NotFound,
    /// A status change was requested from a state that does not permit it.
    InvalidTransition,
    /// An unclassified failure.
    Unknown,
}

impl ReservationError {
    /// A short human-readable description of the error.
    pub fn message(&self) -> (m: &'static str)
        ensures
            m@ == match *self {
                ReservationError::DbError => "database error"@,
                ReservationError::InvalidTime => "invalid time"@,
                ReservationError::Conflict => "reservation conflict"@,
                ReservationError::NotFound => "reservation not found"@,
                ReservationError::InvalidTransition => "invalid status transition"@,
                ReservationError::Unknown => "unknown error"@,
            },
    {
        match self {
            ReservationError::DbError => "database error",
            ReservationError::InvalidTime => "invalid time",
            ReservationError::Conflict => "reservation conflict",
            ReservationError::NotFound => "reservation not found",
            ReservationError::InvalidTransition => "invalid status transition",
            ReservationError::Unknown => "unknown error",
        }
    }
}

} // verus!
