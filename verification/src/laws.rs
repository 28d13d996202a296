//! The library's general guarantees, stated once over the store model
//! that the manager's contracts speak of, and proved.

use vstd::prelude::*;

use crate::manager::{
    sorted_by_start, spec_conflicts, spec_contains_id, spec_query, store_wf, unique_ids,
    with_status,
};
use crate::reservation::{Reservation, ReservationQuery, ReservationStatus};
use crate::time::TimeSpan;

verus! {

/// Disjoint intervals reserve independently: a valid interval that
/// overlaps neither any stored record nor a newly inserted one still
/// finds no conflict after the insertion. Applied call after call, every
/// `reserve` of a sequence of pairwise disjoint intervals on one resource
/// succeeds.
pub proof fn lemma_disjoint_reserves_succeed(
    s: Seq<Reservation>,
    r1: Reservation,
    k: int,
    span2: TimeSpan,
)
    requires
        0 <= k <= s.len(),
        !spec_conflicts(s, r1.resource_id@, span2),
        !r1.spec_span().spec_overlaps(span2),
    ensures
        !spec_conflicts(s.insert(k, r1), r1.resource_id@, span2),
{
    s.insert_ensures(k, r1);
    let t = s.insert(k, r1);
    assert forall|i: int|
        0 <= i < t.len() && (#[trigger] t[i]).resource_id@ == r1.resource_id@ implies !t[i].spec_span().spec_overlaps(span2) by {
        if i != k {
            let oi = if i < k {
                i
            } else {
                i - 1
            };
            assert(t[i] == s[oi]);
            assert(!(s[oi].resource_id@ == r1.resource_id@ && s[oi].spec_span().spec_overlaps(
                span2,
            )));
        }
    }
}

/// Overlapping intervals conflict: once a record for `[s1, e1)` is
/// stored, any interval `[s2, e2)` with `s1 < e2` and `s2 < e1` conflicts
/// on the same resource — so of two overlapping `reserve` calls the
/// second fails with `Conflict`, whichever came first.
pub proof fn lemma_overlapping_reserve_conflicts(
    s: Seq<Reservation>,
    r1: Reservation,
    k: int,
    span2: TimeSpan,
)
    requires
        0 <= k <= s.len(),
        r1.spec_span().start.spec_lt(span2.end),
        span2.start.spec_lt(r1.spec_span().end),
    ensures
        spec_conflicts(s.insert(k, r1), r1.resource_id@, span2),
{
    s.insert_ensures(k, r1);
    let t = s.insert(k, r1);
    assert(t[k] == r1);
    assert(t[k].spec_span().spec_overlaps(span2));
    assert(spec_conflicts(t, r1.resource_id@, span2));
}

/// Confirming is one-shot: after the pending record with some id is
/// confirmed, that id still names a record, but no longer a pending one —
/// a second `change_status` on it must fail with `InvalidTransition`.
pub proof fn lemma_confirm_is_one_shot(s: Seq<Reservation>, i: int, t: Seq<Reservation>)
    requires
        store_wf(s),
        0 <= i < s.len(),
        s[i].status == ReservationStatus::Pending,
        t == s.update(i, with_status(s[i], ReservationStatus::Confirmed)),
    ensures
        spec_contains_id(t, s[i].id),
        forall|j: int|
            0 <= j < t.len() && (#[trigger] t[j]).id == s[i].id ==> t[j].status
                == ReservationStatus::Confirmed,
        exists|j: int|
            (0 <= j < t.len() && (#[trigger] t[j]).id == s[i].id && t[j].status
                != ReservationStatus::Pending),
{
    assert(t[i].id == s[i].id);
    assert(spec_contains_id(t, s[i].id));
    assert forall|j: int|
        0 <= j < t.len() && (#[trigger] t[j]).id == s[i].id implies t[j].status
        == ReservationStatus::Confirmed by {
        if j != i {
            assert(t[j] == s[j]);
            assert(s[j].id != s[i].id);
        }
    }
    assert(t[i].status != ReservationStatus::Pending);
}

/// A deleted id is gone: removing the record that carries an id leaves a
/// store in which no record carries it, so a `get` after a `delete`
/// returns `NotFound`.
pub proof fn lemma_deleted_id_is_gone(s: Seq<Reservation>, i: int)
    requires
        store_wf(s),
        0 <= i < s.len(),
    ensures
        !spec_contains_id(s.remove(i), s[i].id),
{
    s.remove_ensures(i);
    let t = s.remove(i);
    assert forall|a: int| 0 <= a < t.len() implies (#[trigger] t[a]).id != s[i].id by {
        let oa = if a < i {
            a
        } else {
            a + 1
        };
        assert(t[a] == s[oa]);
    }
}

/// A query returns exactly the matching records: a record stands in the
/// result exactly when it is stored and passes every supplied filter.
pub proof fn lemma_query_exact(s: Seq<Reservation>, q: ReservationQuery, r: Reservation)
    ensures
        spec_query(s, q).contains(r) <==> (s.contains(r) && q.spec_matches(r)),
    decreases s.len(),
{
    let out = spec_query(s, q);
    if s.len() == 0 {
        assert(!s.contains(r));
        assert(!out.contains(r));
    } else {
        let s1 = s.drop_last();
        let last = s.last();
        let rest = spec_query(s1, q);
        lemma_query_exact(s1, q, r);
        if s.contains(r) && q.spec_matches(r) {
            let w = choose|w: int| 0 <= w < s.len() && s[w] == r;
            if w == s.len() - 1 {
                assert(out[rest.len() as int] == r);
                assert(out.contains(r));
            } else {
                assert(s1[w] == r);
                assert(s1.contains(r));
                let j = choose|j: int| 0 <= j < rest.len() && rest[j] == r;
                assert(out[j] == r);
                assert(out.contains(r));
            }
        }
        if out.contains(r) {
            let j = choose|j: int| 0 <= j < out.len() && out[j] == r;
            if q.spec_matches(last) && j == rest.len() {
                assert(r == last);
                assert(s[s.len() - 1] == r);
                assert(s.contains(r));
            } else {
                assert(rest[j] == r);
                assert(rest.contains(r));
                let w = choose|w: int| 0 <= w < s1.len() && s1[w] == r;
                assert(s[w] == r);
                assert(s.contains(r));
            }
        }
    }
}

/// A query returns each record at most once: with unique ids in the
/// store, the ids in the result are unique too.
pub proof fn lemma_query_unique(s: Seq<Reservation>, q: ReservationQuery)
    requires
        unique_ids(s),
    ensures
        unique_ids(spec_query(s, q)),
    decreases s.len(),
{
    if s.len() != 0 {
        let s1 = s.drop_last();
        let last = s.last();
        assert forall|a: int, b: int|
            0 <= a < s1.len() && 0 <= b < s1.len() && a != b implies (#[trigger] s1[a]).id != (
        #[trigger] s1[b]).id by {
            assert(s1[a] == s[a] && s1[b] == s[b]);
        }
        lemma_query_unique(s1, q);
        let rest = spec_query(s1, q);
        let out = spec_query(s, q);
        if q.spec_matches(last) {
            assert forall|a: int, b: int|
                0 <= a < out.len() && 0 <= b < out.len() && a != b implies (#[trigger] out[a]).id
                != (#[trigger] out[b]).id by {
                if a < rest.len() && b < rest.len() {
                    assert(out[a] == rest[a] && out[b] == rest[b]);
                } else if a < rest.len() {
                    assert(out[a] == rest[a]);
                    assert(out[b] == last);
                    assert(rest.contains(rest[a]));
                    lemma_query_exact(s1, q, rest[a]);
                    let w = choose|w: int| 0 <= w < s1.len() && s1[w] == rest[a];
                    assert(s[w] == s1[w]);
                    assert(s[w].id != s[s.len() - 1].id);
                } else {
                    assert(out[b] == rest[b]);
                    assert(out[a] == last);
                    assert(rest.contains(rest[b]));
                    lemma_query_exact(s1, q, rest[b]);
                    let w = choose|w: int| 0 <= w < s1.len() && s1[w] == rest[b];
                    assert(s[w] == s1[w]);
                    assert(s[w].id != s[s.len() - 1].id);
                }
            }
        }
    }
}

/// Query results keep the store's order: filtering a store that is
/// ordered by interval start yields a result ordered by interval start.
pub proof fn lemma_query_sorted(s: Seq<Reservation>, q: ReservationQuery)
    requires
        sorted_by_start(s),
    ensures
        sorted_by_start(spec_query(s, q)),
    decreases s.len(),
{
    if s.len() != 0 {
        let s1 = s.drop_last();
        let last = s.last();
        assert forall|a: int, b: int| 0 <= a < b < s1.len() implies (
        #[trigger] s1[a]).spec_span().start.spec_le((#[trigger] s1[b]).spec_span().start) by {
            assert(s1[a] == s[a] && s1[b] == s[b]);
        }
        lemma_query_sorted(s1, q);
        let rest = spec_query(s1, q);
        let out = spec_query(s, q);
        if q.spec_matches(last) {
            assert forall|a: int, b: int| 0 <= a < b < out.len() implies (
            #[trigger] out[a]).spec_span().start.spec_le((#[trigger] out[b]).spec_span().start) by {
                if b < rest.len() {
                    assert(out[a] == rest[a] && out[b] == rest[b]);
                } else {
                    assert(out[b] == last);
                    assert(out[a] == rest[a]);
                    assert(rest.contains(rest[a]));
                    lemma_query_exact(s1, q, rest[a]);
                    let w = choose|w: int| 0 <= w < s1.len() && s1[w] == rest[a];
                    assert(s[w] == s1[w]);
                    assert(s[w].spec_span().start.spec_le(s[s.len() - 1].spec_span().start));
                }
            }
        }
    }
}

} // verus!
