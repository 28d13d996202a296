//! The reservation manager: a conflict-aware store of reservations and the
//! lifecycle operations over it.
//!
//! The store keeps its records ordered by interval start and maintains the
//! central invariant that no two records for the same resource overlap.
//! Every operation is total over its inputs: its contract says exactly on
//! which inputs it succeeds and which error it returns otherwise.

use vstd::prelude::*;

use crate::error::ReservationError;
use crate::reservation::{Reservation, ReservationQuery, ReservationStatus};
use crate::time::{validate_span, spec_valid_bounds, TimeSpan, Timestamp};

verus! {

/// The store-assigned identifier of a reservation. The store hands them
/// out; 0 never names a stored record.
pub type ReservationId = u64;

/// Every record the store keeps has both bounds present and a well-formed
/// interval.
pub open spec fn stored_records_wf(s: Seq<Reservation>) -> bool {
    forall|i: int| 0 <= i < s.len() ==> (#[trigger] s[i]).stored_wf()
}

/// No two stored records share an id.
pub open spec fn unique_ids(s: Seq<Reservation>) -> bool {
    forall|i: int, j: int|
        0 <= i < s.len() && 0 <= j < s.len() && i != j ==> (#[trigger] s[i]).id != (
        #[trigger] s[j]).id
}

/// The records are ordered by interval start, ascending.
pub open spec fn sorted_by_start(s: Seq<Reservation>) -> bool {
    forall|i: int, j: int|
        0 <= i < j < s.len() ==> (#[trigger] s[i]).spec_span().start.spec_le(
            (#[trigger] s[j]).spec_span().start,
        )
}

/// The overlap invariant: no two stored records for the same resource have
/// overlapping intervals.
pub open spec fn no_overlap(s: Seq<Reservation>) -> bool {
    forall|i: int, j: int|
        0 <= i < s.len() && 0 <= j < s.len() && i != j && (#[trigger] s[i]).resource_id@ == (
        #[trigger] s[j]).resource_id@ ==> !s[i].spec_span().spec_overlaps(s[j].spec_span())
}

/// Everything the store promises of its contents at every step.
pub open spec fn store_wf(s: Seq<Reservation>) -> bool {
    &&& stored_records_wf(s)
    &&& unique_ids(s)
    &&& sorted_by_start(s)
    &&& no_overlap(s)
}

/// Would a reservation of `span` on the resource named `resource_id`
/// overlap some record already in `s`?
pub open spec fn spec_conflicts(s: Seq<Reservation>, resource_id: Seq<char>, span: TimeSpan) -> bool {
    exists|i: int|
        0 <= i < s.len() && (#[trigger] s[i]).resource_id@ == resource_id
            && s[i].spec_span().spec_overlaps(span)
}

/// Does some record in `s` carry the id `id`?
pub open spec fn spec_contains_id(s: Seq<Reservation>, id: u64) -> bool {
    exists|i: int| 0 <= i < s.len() && (#[trigger] s[i]).id == id
}

/// The record `r` with its status replaced.
pub open spec fn with_status(r: Reservation, status: ReservationStatus) -> Reservation {
    Reservation { status, ..r }
}

/// The record `r` with its note replaced.
pub open spec fn with_note(r: Reservation, note: String) -> Reservation {
    Reservation { note, ..r }
}

/// The records of `s` that pass every filter of `q`, in the order they
/// stand in `s`.
pub open spec fn spec_query(s: Seq<Reservation>, q: ReservationQuery) -> Seq<Reservation>
    decreases s.len(),
{
    if s.len() == 0 {
        Seq::empty()
    } else {
        let rest = spec_query(s.drop_last(), q);
        if q.spec_matches(s.last()) {
            rest.push(s.last())
        } else {
            rest
        }
    }
}

/// Replacing a record by one with the same id, resource and interval
/// preserves the store invariant.
proof fn lemma_store_wf_update(s: Seq<Reservation>, i: int, r: Reservation)
    requires
        store_wf(s),
        0 <= i < s.len(),
        r.id == s[i].id,
        r.resource_id@ == s[i].resource_id@,
        r.start == s[i].start,
        r.end == s[i].end,
    ensures
        store_wf(s.update(i, r)),
{
    let t = s.update(i, r);
    assert(r.spec_span() == s[i].spec_span());
    assert(r.stored_wf());
    assert forall|a: int| 0 <= a < t.len() implies (#[trigger] t[a]).stored_wf() by {
        if a != i {
            assert(t[a] == s[a]);
        }
    }
    assert forall|a: int, b: int|
        0 <= a < t.len() && 0 <= b < t.len() && a != b implies (#[trigger] t[a]).id != (
    #[trigger] t[b]).id by {
        assert(t[a].id == s[a].id);
        assert(t[b].id == s[b].id);
    }
    assert forall|a: int, b: int| 0 <= a < b < t.len() implies (
    #[trigger] t[a]).spec_span().start.spec_le((#[trigger] t[b]).spec_span().start) by {
        assert(t[a].spec_span() == s[a].spec_span());
        assert(t[b].spec_span() == s[b].spec_span());
    }
    assert forall|a: int, b: int|
        0 <= a < t.len() && 0 <= b < t.len() && a != b && (#[trigger] t[a]).resource_id@ == (
    #[trigger] t[b]).resource_id@ implies !t[a].spec_span().spec_overlaps(t[b].spec_span()) by {
        assert(t[a].spec_span() == s[a].spec_span() && t[a].resource_id@ == s[a].resource_id@);
        assert(t[b].spec_span() == s[b].spec_span() && t[b].resource_id@ == s[b].resource_id@);
    }
}

/// Where an element of `s.remove(i)` stood in `s`: indices below `i` are
/// kept, those above shift down by one.
spec fn removed_source_index(a: int, i: int) -> int {
    if a < i {
        a
    } else {
        a + 1
    }
}

/// Removing a record preserves the store invariant, and no remaining
/// record carries the removed record's id.
proof fn lemma_store_wf_remove(s: Seq<Reservation>, i: int)
    requires
        store_wf(s),
        0 <= i < s.len(),
    ensures
        store_wf(s.remove(i)),
        !spec_contains_id(s.remove(i), s[i].id),
        forall|a: int|
            0 <= a < s.remove(i).len() ==> (#[trigger] s.remove(i)[a]) == s[removed_source_index(
                a,
                i,
            )],
{
    s.remove_ensures(i);
    let t = s.remove(i);
    assert forall|a: int| 0 <= a < t.len() implies (#[trigger] t[a]) == s[removed_source_index(
        a,
        i,
    )] by {}
    assert forall|a: int| 0 <= a < t.len() implies (#[trigger] t[a]).id != s[i].id by {
        let oa = if a < i { a } else { a + 1 };
        assert(t[a] == s[oa]);
    }
    assert forall|a: int| 0 <= a < t.len() implies (#[trigger] t[a]).stored_wf() by {
        let oa = if a < i { a } else { a + 1 };
        assert(t[a] == s[oa]);
    }
    assert forall|a: int, b: int|
        0 <= a < t.len() && 0 <= b < t.len() && a != b implies (#[trigger] t[a]).id != (
    #[trigger] t[b]).id by {
        let oa = if a < i { a } else { a + 1 };
        let ob = if b < i { b } else { b + 1 };
        assert(t[a] == s[oa] && t[b] == s[ob]);
    }
    assert forall|a: int, b: int| 0 <= a < b < t.len() implies (
    #[trigger] t[a]).spec_span().start.spec_le((#[trigger] t[b]).spec_span().start) by {
        let oa = if a < i { a } else { a + 1 };
        let ob = if b < i { b } else { b + 1 };
        assert(t[a] == s[oa] && t[b] == s[ob]);
    }
    assert forall|a: int, b: int|
        0 <= a < t.len() && 0 <= b < t.len() && a != b && (#[trigger] t[a]).resource_id@ == (
    #[trigger] t[b]).resource_id@ implies !t[a].spec_span().spec_overlaps(t[b].spec_span()) by {
        let oa = if a < i { a } else { a + 1 };
        let ob = if b < i { b } else { b + 1 };
        assert(t[a] == s[oa] && t[b] == s[ob]);
    }
}

/// Filtering distributes over appending one record.
proof fn lemma_query_push(s: Seq<Reservation>, q: ReservationQuery, r: Reservation)
    ensures
        spec_query(s.push(r), q) == if q.spec_matches(r) {
            spec_query(s, q).push(r)
        } else {
            spec_query(s, q)
        },
{
    assert(s.push(r).drop_last() =~= s);
    assert(s.push(r).last() == r);
}

/// The reservation store interface: make, confirm, annotate, delete, look
/// up and query reservations.
///
/// The contracts are stated over three abstract views: `inv`, the store's
/// internal invariant; `store`, the stored records in ascending order of
/// interval start; and `fresh_id`, the id the next successful reservation
/// will receive.
pub trait Rsvp: Sized {
    /// The internal invariant: every operation requires and preserves it.
    spec fn inv(&self) -> bool;

    /// The stored reservations, ordered by interval start.
    spec fn store(&self) -> Seq<Reservation>;

    /// The id the next successful `reserve` will assign.
    spec fn fresh_id(&self) -> u64;

    /// What the invariant publicly guarantees of the store model:
    /// well-formed records, unique ids, ascending order by interval
    /// start, and no two overlapping intervals on one resource.
    proof fn inv_implies_store_wf(&self)
        requires
            self.inv(),
        ensures
            store_wf(self.store()),
    ;

    /// Make a reservation.
    ///
    /// Succeeds exactly when the requested interval is valid and overlaps
    /// no stored reservation for the same resource; the new record is
    /// stored `Pending` under a fresh id. On failure nothing changes:
    /// `InvalidTime` when the interval is missing a bound or not strictly
    /// increasing, `Conflict` when it overlaps.
    fn reserve(&mut self, rsvp: Reservation) -> (res: Result<Reservation, ReservationError>)
        requires
            old(self).inv(),
            old(self).fresh_id() < u64::MAX,
        ensures
            final(self).inv(),
            match res {
                Ok(r) => {
                    &&& spec_valid_bounds(rsvp.start, rsvp.end)
                    &&& !spec_conflicts(old(self).store(), rsvp.resource_id@, rsvp.spec_span())
                    &&& r.id == old(self).fresh_id()
                    &&& !spec_contains_id(old(self).store(), r.id)
                    &&& r.user_id@ == rsvp.user_id@
                    &&& r.resource_id@ == rsvp.resource_id@
                    &&& r.start == rsvp.start
                    &&& r.end == rsvp.end
                    &&& r.note@ == rsvp.note@
                    &&& r.status == ReservationStatus::Pending
                    &&& r.stored_wf()
                    &&& exists|k: int|
                        0 <= k <= old(self).store().len() && final(self).store() == old(
                            self,
                        ).store().insert(k, r)
                    &&& final(self).fresh_id() == old(self).fresh_id() + 1
                },
                Err(e) => {
                    &&& *final(self) == *old(self)
                    &&& (e == ReservationError::InvalidTime <==> !spec_valid_bounds(
                        rsvp.start,
                        rsvp.end,
                    ))
                    &&& (e == ReservationError::Conflict <==> spec_valid_bounds(
                        rsvp.start,
                        rsvp.end,
                    ) && spec_conflicts(old(self).store(), rsvp.resource_id@, rsvp.spec_span()))
                    &&& (e == ReservationError::InvalidTime || e == ReservationError::Conflict)
                },
            },
    ;

    /// Change a reservation's status: `Pending` becomes `Confirmed`.
    ///
    /// Succeeds exactly when a record with `id` is stored and still
    /// `Pending`; `NotFound` when the id names no record,
    /// `InvalidTransition` when the record is no longer `Pending`.
    fn change_status(&mut self, id: ReservationId) -> (res: Result<Reservation, ReservationError>)
        requires
            old(self).inv(),
        ensures
            final(self).inv(),
            final(self).fresh_id() == old(self).fresh_id(),
            match res {
                Ok(r) => {
                    &&& r.status == ReservationStatus::Confirmed
                    &&& exists|i: int|
                        (0 <= i < old(self).store().len() && (#[trigger] old(self).store()[i]).id
                            == id && old(self).store()[i].status == ReservationStatus::Pending && r
                            == with_status(old(self).store()[i], ReservationStatus::Confirmed)
                            && final(self).store() == old(self).store().update(i, r))
                },
                Err(e) => {
                    &&& *final(self) == *old(self)
                    &&& (e == ReservationError::NotFound <==> !spec_contains_id(
                        old(self).store(),
                        id,
                    ))
                    &&& (e == ReservationError::InvalidTransition <==> exists|i: int|
                        (0 <= i < old(self).store().len() && (#[trigger] old(self).store()[i]).id
                            == id && old(self).store()[i].status != ReservationStatus::Pending))
                    &&& (e == ReservationError::NotFound || e == ReservationError::InvalidTransition)
                },
            },
    ;

    /// Replace a reservation's note; its interval and status are kept.
    ///
    /// Succeeds exactly when a record with `id` is stored; `NotFound`
    /// otherwise.
    fn update_note(&mut self, id: ReservationId, note: String) -> (res: Result<Reservation, ReservationError>)
        requires
            old(self).inv(),
        ensures
            final(self).inv(),
            final(self).fresh_id() == old(self).fresh_id(),
            match res {
                Ok(r) => {
                    &&& r.note == note
                    &&& exists|i: int|
                        (0 <= i < old(self).store().len() && (#[trigger] old(self).store()[i]).id
                            == id && r == with_note(old(self).store()[i], note)
                            && final(self).store() == old(self).store().update(i, r))
                },
                Err(e) => {
                    &&& *final(self) == *old(self)
                    &&& e == ReservationError::NotFound
                    &&& !spec_contains_id(old(self).store(), id)
                },
            },
            res is Ok <==> spec_contains_id(old(self).store(), id),
    ;

    /// Delete a reservation; its interval becomes bookable again at once.
    ///
    /// Succeeds exactly when a record with `id` is stored, and removes it;
    /// deleting an unknown (or already deleted) id returns `NotFound`.
    fn delete(&mut self, id: ReservationId) -> (res: Result<(), ReservationError>)
        requires
            old(self).inv(),
        ensures
            final(self).inv(),
            final(self).fresh_id() == old(self).fresh_id(),
            match res {
                Ok(u) => {
                    &&& spec_contains_id(old(self).store(), id)
                    &&& !spec_contains_id(final(self).store(), id)
                    &&& exists|i: int|
                        (0 <= i < old(self).store().len() && (#[trigger] old(self).store()[i]).id
                            == id && final(self).store() == old(self).store().remove(i))
                },
                Err(e) => {
                    &&& *final(self) == *old(self)
                    &&& e == ReservationError::NotFound
                    &&& !spec_contains_id(old(self).store(), id)
                },
            },
    ;

    /// Look a reservation up by id; never mutates.
    ///
    /// Succeeds exactly when a record with `id` is stored and returns that
    /// record; `NotFound` otherwise.
    fn get(&self, id: ReservationId) -> (res: Result<Reservation, ReservationError>)
        requires
            self.inv(),
        ensures
            match res {
                Ok(r) => exists|i: int|
                    (0 <= i < self.store().len() && (#[trigger] self.store()[i]).id == id && r
                        == self.store()[i]),
                Err(e) => {
                    &&& e == ReservationError::NotFound
                    &&& !spec_contains_id(self.store(), id)
                },
            },
    ;

    /// Query reservations: every stored record that passes all supplied
    /// filters, in ascending order of interval start, each exactly once;
    /// never mutates and never fails.
    fn query(&self, query: ReservationQuery) -> (res: Result<Vec<Reservation>, ReservationError>)
        requires
            self.inv(),
        ensures
            res is Ok,
            res.unwrap()@ == spec_query(self.store(), query),
            sorted_by_start(res.unwrap()@),
            unique_ids(res.unwrap()@),
    ;
}

/// The conflict-aware reservation store, kept in memory.
///
/// `resvs` holds the active records ordered by interval start; `next_id`
/// is the id counter, starting at 1 so that 0 never names a stored record.
pub struct ReservationManager {
    resvs: Vec<Reservation>,
    next_id: u64,
}

impl ReservationManager {
    /// An empty store; the first reservation receives id 1.
    pub fn new() -> (m: ReservationManager)
        ensures
            m.inv(),
            m.store() == Seq::<Reservation>::empty(),
            m.fresh_id() == 1,
    {
        ReservationManager { resvs: Vec::new(), next_id: 1 }
    }

    /// Can another id still be assigned? `reserve` asks for this; it
    /// only turns false after an unreachable number of reservations.
    pub fn has_fresh_ids(&self) -> (b: bool)
        ensures
            b == (self.fresh_id() < u64::MAX),
    {
        self.next_id < u64::MAX
    }

    /// Does some stored record for `resource_id` overlap `span`?
    fn conflict_exists(&self, resource_id: &String, span: &TimeSpan) -> (b: bool)
        requires
            stored_records_wf(self.resvs@),
        ensures
            b == spec_conflicts(self.resvs@, resource_id@, *span),
    {
        let mut i: usize = 0;
        while i < self.resvs.len()
            invariant
                i <= self.resvs@.len(),
                stored_records_wf(self.resvs@),
                forall|k: int|
                    0 <= k < i ==> !((#[trigger] self.resvs@[k]).resource_id@ == resource_id@
                        && self.resvs@[k].spec_span().spec_overlaps(*span)),
            decreases self.resvs@.len() - i,
        {
            let r = &self.resvs[i];
            if r.resource_id == *resource_id {
                let rs = r.span();
                if rs.overlaps(span) {
                    return true;
                }
            }
            i += 1;
        }
        false
    }

    /// The position at which a record starting at `start` belongs: after
    /// every record starting no later, before every record starting after.
    fn insert_position(&self, start: &Timestamp) -> (k: usize)
        requires
            stored_records_wf(self.resvs@),
            sorted_by_start(self.resvs@),
        ensures
            k <= self.resvs@.len(),
            forall|i: int|
                0 <= i < k ==> (#[trigger] self.resvs@[i]).spec_span().start.spec_le(*start),
            forall|i: int|
                k <= i < self.resvs@.len() ==> start.spec_lt(
                    (#[trigger] self.resvs@[i]).spec_span().start,
                ),
    {
        let mut k: usize = 0;
        while k < self.resvs.len() && self.resvs[k].starts_no_later_than(start)
            invariant
                k <= self.resvs@.len(),
                stored_records_wf(self.resvs@),
                sorted_by_start(self.resvs@),
                forall|i: int|
                    0 <= i < k ==> (#[trigger] self.resvs@[i]).spec_span().start.spec_le(*start),
            decreases self.resvs@.len() - k,
        {
            k += 1;
        }
        proof {
            if k < self.resvs@.len() {
                assert forall|i: int| k <= i < self.resvs@.len() implies start.spec_lt(
                    (#[trigger] self.resvs@[i]).spec_span().start,
                ) by {
                    assert(self.resvs@[k as int].spec_span().start.spec_le(
                        self.resvs@[i].spec_span().start,
                    ));
                }
            }
        }
        k
    }

    /// The index of the record with id `id`, if one is stored.
    fn find_index(&self, id: ReservationId) -> (r: Option<usize>)
        ensures
            match r {
                Some(i) => i < self.resvs@.len() && self.resvs@[i as int].id == id,
                None => !spec_contains_id(self.resvs@, id),
            },
    {
        let mut i: usize = 0;
        while i < self.resvs.len()
            invariant
                i <= self.resvs@.len(),
                forall|k: int| 0 <= k < i ==> (#[trigger] self.resvs@[k]).id != id,
            decreases self.resvs@.len() - i,
        {
            if self.resvs[i].id == id {
                return Some(i);
            }
            i += 1;
        }
        None
    }
}

impl Rsvp for ReservationManager {
    closed spec fn inv(&self) -> bool {
        &&& store_wf(self.resvs@)
        &&& forall|i: int| 0 <= i < self.resvs@.len() ==> (#[trigger] self.resvs@[i]).id < self.next_id
        &&& self.next_id >= 1
    }

    closed spec fn store(&self) -> Seq<Reservation> {
        self.resvs@
    }

    closed spec fn fresh_id(&self) -> u64 {
        self.next_id
    }

    proof fn inv_implies_store_wf(&self) {
    }

    fn reserve(&mut self, rsvp: Reservation) -> (res: Result<Reservation, ReservationError>) {
        let ghost s0 = self.resvs@;
        let span = match validate_span(&rsvp.start, &rsvp.end) {
            Ok(s) => s,
            Err(e) => {
                return Err(e);
            },
        };
        if self.conflict_exists(&rsvp.resource_id, &span) {
            return Err(ReservationError::Conflict);
        }
        let k = self.insert_position(&span.start);
        let id = self.next_id;
        let stored = Reservation {
            id,
            user_id: rsvp.user_id,
            resource_id: rsvp.resource_id,
            start: rsvp.start,
            end: rsvp.end,
            note: rsvp.note,
            status: ReservationStatus::Pending,
        };
        let ghost rec = stored;
        let result = stored.clone();
        self.resvs.insert(k, stored);
        self.next_id = id + 1;
        proof {
            s0.insert_ensures(k as int, rec);
            let t = self.resvs@;
            assert(t == s0.insert(k as int, rec));
            assert(rec.spec_span() == span);
            assert forall|a: int| 0 <= a < t.len() implies (#[trigger] t[a]).stored_wf() by {
                if a < k {
                    assert(t[a] == s0[a]);
                } else if a == k {
                    assert(t[a] == rec);
                } else {
                    assert(t[a] == s0[a - 1]);
                }
            }
            assert forall|a: int, b: int|
                0 <= a < t.len() && 0 <= b < t.len() && a != b implies (#[trigger] t[a]).id != (
            #[trigger] t[b]).id by {
                if a == k {
                    if b != k {
                        let ob = if b < k { b } else { b - 1 };
                        assert(t[b] == s0[ob]);
                        assert(s0[ob].id < id);
                    }
                } else if b == k {
                    let oa = if a < k { a } else { a - 1 };
                    assert(t[a] == s0[oa]);
                    assert(s0[oa].id < id);
                } else {
                    let oa = if a < k { a } else { a - 1 };
                    let ob = if b < k { b } else { b - 1 };
                    assert(t[a] == s0[oa]);
                    assert(t[b] == s0[ob]);
                }
            }
            assert forall|a: int, b: int| 0 <= a < b < t.len() implies (
            #[trigger] t[a]).spec_span().start.spec_le((#[trigger] t[b]).spec_span().start) by {
                if b < k {
                    assert(t[a] == s0[a] && t[b] == s0[b]);
                } else if b == k {
                    assert(t[a] == s0[a]);
                } else if a == k {
                    assert(t[b] == s0[b - 1]);
                    assert(span.start.spec_lt(s0[b - 1].spec_span().start));
                } else if a < k {
                    assert(t[a] == s0[a] && t[b] == s0[b - 1]);
                    assert(s0[a].spec_span().start.spec_le(*(&span.start)));
                    assert(span.start.spec_lt(s0[b - 1].spec_span().start));
                } else {
                    assert(t[a] == s0[a - 1] && t[b] == s0[b - 1]);
                }
            }
            assert forall|a: int, b: int|
                0 <= a < t.len() && 0 <= b < t.len() && a != b && (#[trigger] t[a]).resource_id@
                    == (#[trigger] t[b]).resource_id@ implies !t[a].spec_span().spec_overlaps(
                t[b].spec_span(),
            ) by {
                if a == k {
                    let ob = if b < k { b } else { b - 1 };
                    assert(t[b] == s0[ob]);
                    assert(!(s0[ob].resource_id@ == rec.resource_id@
                        && s0[ob].spec_span().spec_overlaps(span)));
                    crate::time::lemma_overlap_symmetric(rec.spec_span(), s0[ob].spec_span());
                } else if b == k {
                    let oa = if a < k { a } else { a - 1 };
                    assert(t[a] == s0[oa]);
                    assert(!(s0[oa].resource_id@ == rec.resource_id@
                        && s0[oa].spec_span().spec_overlaps(span)));
                } else {
                    let oa = if a < k { a } else { a - 1 };
                    let ob = if b < k { b } else { b - 1 };
                    assert(t[a] == s0[oa]);
                    assert(t[b] == s0[ob]);
                }
            }
            assert forall|a: int| 0 <= a < t.len() implies (#[trigger] t[a]).id < self.next_id by {
                if a != k {
                    let oa = if a < k { a } else { a - 1 };
                    assert(t[a] == s0[oa]);
                }
            }
        }
        Ok(result)
    }

    fn change_status(&mut self, id: ReservationId) -> (res: Result<Reservation, ReservationError>) {
        let ghost s0 = self.resvs@;
        let idx = match self.find_index(id) {
            None => {
                proof {
                    if exists|j: int|
                        (0 <= j < s0.len() && (#[trigger] s0[j]).id == id && s0[j].status
                            != ReservationStatus::Pending) {
                        let j = choose|j: int|
                            (0 <= j < s0.len() && (#[trigger] s0[j]).id == id && s0[j].status
                                != ReservationStatus::Pending);
                        assert(spec_contains_id(s0, id));
                    }
                }
                return Err(ReservationError::NotFound);
            },
            Some(i) => i,
        };
        let cur = &self.resvs[idx];
        match cur.status {
            ReservationStatus::Confirmed => {
                proof {
                    assert(s0[idx as int].id == id);
                    assert(spec_contains_id(s0, id));
                }
                Err(ReservationError::InvalidTransition)
            },
            ReservationStatus::Pending => {
                let updated = Reservation {
                    id: cur.id,
                    user_id: cur.user_id.clone(),
                    resource_id: cur.resource_id.clone(),
                    start: cur.start,
                    end: cur.end,
                    note: cur.note.clone(),
                    status: ReservationStatus::Confirmed,
                };
                let result = updated.clone();
                proof {
                    assert(updated == with_status(s0[idx as int], ReservationStatus::Confirmed));
                    lemma_store_wf_update(s0, idx as int, updated);
                }
                self.resvs[idx] = updated;
                proof {
                    assert forall|a: int| 0 <= a < self.resvs@.len() implies (
                    #[trigger] self.resvs@[a]).id < self.next_id by {
                        assert(self.resvs@[a].id == s0[a].id);
                    }
                }
                Ok(result)
            },
        }
    }

    fn update_note(&mut self, id: ReservationId, note: String) -> (res: Result<
        Reservation,
        ReservationError,
    >) {
        let ghost s0 = self.resvs@;
        let idx = match self.find_index(id) {
            None => {
                return Err(ReservationError::NotFound);
            },
            Some(i) => i,
        };
        let cur = &self.resvs[idx];
        let updated = Reservation {
            id: cur.id,
            user_id: cur.user_id.clone(),
            resource_id: cur.resource_id.clone(),
            start: cur.start,
            end: cur.end,
            note,
            status: cur.status,
        };
        let result = updated.clone();
        proof {
            assert(s0[idx as int].id == id);
            assert(spec_contains_id(s0, id));
            assert(updated == with_note(s0[idx as int], updated.note));
            lemma_store_wf_update(s0, idx as int, updated);
        }
        self.resvs[idx] = updated;
        proof {
            assert forall|a: int| 0 <= a < self.resvs@.len() implies (
            #[trigger] self.resvs@[a]).id < self.next_id by {
                assert(self.resvs@[a].id == s0[a].id);
            }
            assert((idx as int) < s0.len() && s0[idx as int].id == id && result == with_note(
                s0[idx as int],
                result.note,
            ) && self.resvs@ == s0.update(idx as int, result));
            assert(old(self).store() == s0);
            assert(self.store() == self.resvs@);
            assert(exists|i: int|
                (0 <= i < s0.len() && (#[trigger] s0[i]).id == id && result == with_note(
                    s0[i],
                    result.note,
                ) && self.resvs@ == s0.update(i, result)));
        }
        Ok(result)
    }

    fn delete(&mut self, id: ReservationId) -> (res: Result<(), ReservationError>) {
        let ghost s0 = self.resvs@;
        let idx = match self.find_index(id) {
            None => {
                return Err(ReservationError::NotFound);
            },
            Some(i) => i,
        };
        proof {
            assert(s0[idx as int].id == id);
            assert(spec_contains_id(s0, id));
            lemma_store_wf_remove(s0, idx as int);
        }
        self.resvs.remove(idx);
        proof {
            let t = self.resvs@;
            assert(t == s0.remove(idx as int));
            assert forall|a: int| 0 <= a < t.len() implies (#[trigger] t[a]).id < self.next_id by {
                assert(t[a] == s0[removed_source_index(a, idx as int)]);
            }
            assert((idx as int) < s0.len() && s0[idx as int].id == id && self.resvs@ == s0.remove(
                idx as int,
            ));
            assert(old(self).store() == s0);
            assert(self.store() == self.resvs@);
            assert(exists|i: int|
                (0 <= i < s0.len() && (#[trigger] s0[i]).id == id && self.resvs@ == s0.remove(i)));
        }
        Ok(())
    }

    fn get(&self, id: ReservationId) -> (res: Result<Reservation, ReservationError>) {
        match self.find_index(id) {
            None => Err(ReservationError::NotFound),
            Some(i) => {
                let r = self.resvs[i].clone();
                proof {
                    assert(self.store() == self.resvs@);
                    assert((i as int) < self.resvs@.len() && self.resvs@[i as int].id == id && r
                        == self.resvs@[i as int]);
                    assert(exists|j: int|
                        (0 <= j < self.resvs@.len() && (#[trigger] self.resvs@[j]).id == id && r
                            == self.resvs@[j]));
                }
                Ok(r)
            },
        }
    }

    fn query(&self, query: ReservationQuery) -> (res: Result<Vec<Reservation>, ReservationError>) {
        let mut out: Vec<Reservation> = Vec::new();
        let mut i: usize = 0;
        proof {
            assert(self.resvs@.take(0) =~= Seq::<Reservation>::empty());
        }
        while i < self.resvs.len()
            invariant
                i <= self.resvs@.len(),
                stored_records_wf(self.resvs@),
                out@ == spec_query(self.resvs@.take(i as int), query),
            decreases self.resvs@.len() - i,
        {
            let r = &self.resvs[i];
            if query.matches(r) {
                out.push(r.clone());
            }
            proof {
                assert(self.resvs@.take(i + 1 as int) =~= self.resvs@.take(i as int).push(
                    self.resvs@[i as int],
                ));
                lemma_query_push(self.resvs@.take(i as int), query, self.resvs@[i as int]);
            }
            i += 1;
        }
        proof {
            assert(self.resvs@.take(self.resvs@.len() as int) =~= self.resvs@);
            crate::laws::lemma_query_sorted(self.resvs@, query);
            crate::laws::lemma_query_unique(self.resvs@, query);
        }
        Ok(out)
    }
}

} // verus!
