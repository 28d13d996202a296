//! The reservation record, its lifecycle status, and the query filter.

use vstd::prelude::*;

use crate::time::{TimeSpan, Timestamp};

verus! {

/// The lifecycle status of a stored reservation.
///
/// A reservation is created `Pending` and may be confirmed once; deletion
/// removes the record from the store, so no `Deleted` status is stored.
#[derive(Clone, Copy, PartialEq, Eq, Structural, Debug)]
pub enum ReservationStatus {
    Pending,
    Confirmed,
}

/// A reservation: a user books a resource for a half-open time interval.
///
/// Before creation the bounds come in as options and `id` is unassigned;
/// the manager assigns `id` and guarantees both bounds are present on
/// every stored record.
#[derive(Debug)]
pub struct Reservation {
    /// Unique identifier, assigned by the store on creation; meaningless
    /// on a request that was not stored yet.
    pub id: u64,
    /// Identifier of the requester.
    pub user_id: String,
    /// Identifier of the booked resource.
    pub resource_id: String,
    /// Start of the booked interval (inclusive).
    pub start: Option<Timestamp>,
    /// End of the booked interval (exclusive).
    pub end: Option<Timestamp>,
    /// Free-text annotation, mutable after creation.
    pub note: String,
    /// Lifecycle status.
    pub status: ReservationStatus,
}

impl Reservation {
    /// The booked interval of a record whose bounds are present.
    pub open spec fn spec_span(self) -> TimeSpan
        recommends
            self.start is Some,
            self.end is Some,
    {
        TimeSpan { start: self.start.unwrap(), end: self.end.unwrap() }
    }

    /// What holds of every record the store keeps: both bounds present
    /// and the interval well-formed.
    pub open spec fn stored_wf(self) -> bool {
        &&& self.start is Some
        &&& self.end is Some
        &&& self.spec_span().wf()
    }

    /// A fresh reservation request: no id assigned yet, status defaulted
    /// to `Pending`.
    pub fn new(
        user_id: String,
        resource_id: String,
        start: Option<Timestamp>,
        end: Option<Timestamp>,
        note: String,
    ) -> (r: Reservation)
        ensures
            r.id == 0,
            r.user_id == user_id,
            r.resource_id == resource_id,
            r.start == start,
            r.end == end,
            r.note == note,
            r.status == ReservationStatus::Pending,
    {
        Reservation {
            id: 0,
            user_id,
            resource_id,
            start,
            end,
            note,
            status: ReservationStatus::Pending,
        }
    }

    /// The booked interval of a stored record.
    pub fn span(&self) -> (s: TimeSpan)
        requires
            self.start is Some,
            self.end is Some,
        ensures
            s == self.spec_span(),
    {
        TimeSpan { start: *self.start.as_ref().unwrap(), end: *self.end.as_ref().unwrap() }
    }

    /// Does this stored record start no later than `t`?
    pub(crate) fn starts_no_later_than(&self, t: &Timestamp) -> (b: bool)
        requires
            self.stored_wf(),
        ensures
            b == self.spec_span().start.spec_le(*t),
    {
        let s = self.span();
        s.start.le(t)
    }
}

impl Clone for Reservation {
    /// Cloning keeps every field.
    fn clone(&self) -> (r: Self)
        ensures
            r == *self,
    {
        Reservation {
            id: self.id,
            user_id: self.user_id.clone(),
            resource_id: self.resource_id.clone(),
            start: self.start,
            end: self.end,
            note: self.note.clone(),
            status: self.status,
        }
    }
}

/// A conjunction of optional filters over reservations; an absent filter
/// matches everything.
///
/// The window bounds select reservations whose interval overlaps the
/// (possibly half-unbounded) window `[start, end)`.
#[derive(Debug)]
pub struct ReservationQuery {
    pub resource_id: Option<String>,
    pub user_id: Option<String>,
    pub status: Option<ReservationStatus>,
    pub start: Option<Timestamp>,
    pub end: Option<Timestamp>,
}

impl ReservationQuery {
    /// A query with no filters: it matches every reservation.
    pub fn all() -> (q: ReservationQuery)
        ensures
            q.resource_id is None,
            q.user_id is None,
            q.status is None,
            q.start is None,
            q.end is None,
    {
        ReservationQuery { resource_id: None, user_id: None, status: None, start: None, end: None }
    }

    /// Does `r` pass every supplied filter?
    pub open spec fn spec_matches(self, r: Reservation) -> bool {
        &&& (self.resource_id is Some ==> self.resource_id.unwrap()@ == r.resource_id@)
        &&& (self.user_id is Some ==> self.user_id.unwrap()@ == r.user_id@)
        &&& (self.status is Some ==> self.status.unwrap() == r.status)
        &&& (self.start is Some ==> self.start.unwrap().spec_lt(r.spec_span().end))
        &&& (self.end is Some ==> r.spec_span().start.spec_lt(self.end.unwrap()))
    }

    /// Does the stored record `r` pass every supplied filter?
    pub fn matches(&self, r: &Reservation) -> (b: bool)
        requires
            r.stored_wf(),
        ensures
            b == self.spec_matches(*r),
    {
        let span = r.span();
        let resource_ok = match &self.resource_id {
            Some(rid) => *rid == r.resource_id,
            None => true,
        };
        let user_ok = match &self.user_id {
            Some(uid) => *uid == r.user_id,
            None => true,
        };
        let status_ok = match &self.status {
            Some(st) => *st == r.status,
            None => true,
        };
        let start_ok = match &self.start {
            Some(ws) => ws.lt(&span.end),
            None => true,
        };
        let end_ok = match &self.end {
            Some(we) => span.start.lt(we),
            None => true,
        };
        resource_ok && user_ok && status_ok && start_ok && end_ok
    }
}

} // verus!
