use reservation::error::ReservationError;
use reservation::manager::{ReservationManager, Rsvp};
use reservation::reservation::{Reservation, ReservationQuery, ReservationStatus};
use reservation::time::Timestamp;

fn ts(seconds: i64) -> Timestamp {
    Timestamp { seconds, nanos: 0 }
}

fn req(user: &str, resource: &str, start: i64, end: i64) -> Reservation {
    Reservation::new(
        String::from(user),
        String::from(resource),
        Some(ts(start)),
        Some(ts(end)),
        String::from(""),
    )
}

fn query_for_resource(resource: &str) -> ReservationQuery {
    let mut q = ReservationQuery::all();
    q.resource_id = Some(String::from(resource));
    q
}

// Reserving R1 for [10:00,11:00) succeeds; R1 for [10:30,10:45) fails with
// Conflict; R1 for [11:00,12:00) succeeds on the touching boundary.
#[test]
fn overlap_is_rejected_touching_is_not() {
    let mut m = ReservationManager::new();
    let first = m.reserve(req("alice", "R1", 36000, 39600)).unwrap();
    assert_eq!(first.status, ReservationStatus::Pending);
    let err = m.reserve(req("bob", "R1", 37800, 38700)).unwrap_err();
    assert_eq!(err, ReservationError::Conflict);
    let third = m.reserve(req("bob", "R1", 39600, 43200)).unwrap();
    assert_ne!(first.id, third.id);
}

// Sequential reserves of pairwise disjoint intervals on one resource all
// succeed, in any insertion order.
#[test]
fn disjoint_intervals_all_succeed() {
    let mut m = ReservationManager::new();
    assert!(m.reserve(req("alice", "R1", 300, 400)).is_ok());
    assert!(m.reserve(req("alice", "R1", 100, 200)).is_ok());
    assert!(m.reserve(req("alice", "R1", 200, 300)).is_ok());
    assert!(m.reserve(req("alice", "R1", 400, 500)).is_ok());
}

// With two overlapping intervals the second reserve conflicts regardless
// of the call order.
#[test]
fn conflict_is_symmetric_in_call_order() {
    let mut m1 = ReservationManager::new();
    assert!(m1.reserve(req("alice", "R1", 36000, 39600)).is_ok());
    assert_eq!(
        m1.reserve(req("bob", "R1", 37800, 38700)).unwrap_err(),
        ReservationError::Conflict
    );

    let mut m2 = ReservationManager::new();
    assert!(m2.reserve(req("bob", "R1", 37800, 38700)).is_ok());
    assert_eq!(
        m2.reserve(req("alice", "R1", 36000, 39600)).unwrap_err(),
        ReservationError::Conflict
    );
}

// The same interval is free to book on a different resource.
#[test]
fn different_resources_do_not_conflict() {
    let mut m = ReservationManager::new();
    assert!(m.reserve(req("alice", "R1", 100, 200)).is_ok());
    assert!(m.reserve(req("bob", "R2", 100, 200)).is_ok());
}

// An interval with start >= end, or with a bound missing, is rejected
// with InvalidTime and nothing is persisted.
#[test]
fn invalid_intervals_are_rejected_without_effect() {
    let mut m = ReservationManager::new();
    let inverted = req("alice", "R1", 39600, 36000);
    assert_eq!(m.reserve(inverted).unwrap_err(), ReservationError::InvalidTime);
    let empty = req("alice", "R1", 36000, 36000);
    assert_eq!(m.reserve(empty).unwrap_err(), ReservationError::InvalidTime);
    let mut no_start = req("alice", "R1", 0, 39600);
    no_start.start = None;
    assert_eq!(m.reserve(no_start).unwrap_err(), ReservationError::InvalidTime);
    let mut no_end = req("alice", "R1", 36000, 0);
    no_end.end = None;
    assert_eq!(m.reserve(no_end).unwrap_err(), ReservationError::InvalidTime);
    let all = m.query(ReservationQuery::all()).unwrap();
    assert_eq!(all.len(), 0);
}

// A timestamp whose nanosecond part does not name an offset into its
// second is rejected as invalid time.
#[test]
fn unnormalized_nanos_are_rejected() {
    let mut m = ReservationManager::new();
    let mut r = req("alice", "R1", 100, 200);
    r.start = Some(Timestamp { seconds: 100, nanos: 1_000_000_000 });
    assert_eq!(m.reserve(r).unwrap_err(), ReservationError::InvalidTime);
}

// The nanosecond part breaks ties between equal seconds.
#[test]
fn nanos_break_ties() {
    let mut m = ReservationManager::new();
    let mut a = req("alice", "R1", 100, 100);
    a.start = Some(Timestamp { seconds: 100, nanos: 10 });
    a.end = Some(Timestamp { seconds: 100, nanos: 20 });
    assert!(m.reserve(a).is_ok());
    let mut b = req("bob", "R1", 100, 100);
    b.start = Some(Timestamp { seconds: 100, nanos: 20 });
    b.end = Some(Timestamp { seconds: 100, nanos: 30 });
    assert!(m.reserve(b).is_ok());
    let mut c = req("carol", "R1", 100, 100);
    c.start = Some(Timestamp { seconds: 100, nanos: 15 });
    c.end = Some(Timestamp { seconds: 100, nanos: 25 });
    assert_eq!(m.reserve(c).unwrap_err(), ReservationError::Conflict);
}

// change_status turns a fresh (Pending) reservation Confirmed, a later
// get reflects it, and a second change_status fails with
// InvalidTransition.
#[test]
fn confirm_once_then_invalid_transition() {
    let mut m = ReservationManager::new();
    let r = m.reserve(req("alice", "R1", 100, 200)).unwrap();
    let confirmed = m.change_status(r.id).unwrap();
    assert_eq!(confirmed.status, ReservationStatus::Confirmed);
    let got = m.get(r.id).unwrap();
    assert_eq!(got.status, ReservationStatus::Confirmed);
    assert_eq!(got.id, r.id);
    assert_eq!(
        m.change_status(r.id).unwrap_err(),
        ReservationError::InvalidTransition
    );
}

// change_status of an id that was never assigned fails with NotFound.
#[test]
fn change_status_unknown_id_not_found() {
    let mut m = ReservationManager::new();
    assert_eq!(m.change_status(42).unwrap_err(), ReservationError::NotFound);
}

// update_note replaces the note and nothing else, and a later get sees
// the new note; an unknown id gives NotFound.
#[test]
fn update_note_replaces_note_only() {
    let mut m = ReservationManager::new();
    let r = m.reserve(req("alice", "R1", 100, 200)).unwrap();
    let updated = m.update_note(r.id, String::from("window seat")).unwrap();
    assert_eq!(updated.note, "window seat");
    assert_eq!(updated.status, ReservationStatus::Pending);
    assert_eq!(updated.start, r.start);
    assert_eq!(updated.end, r.end);
    let got = m.get(r.id).unwrap();
    assert_eq!(got.note, "window seat");
    assert_eq!(
        m.update_note(7777, String::from("nobody")).unwrap_err(),
        ReservationError::NotFound
    );
}

// delete followed by get returns NotFound, deleting a non-existent id
// returns NotFound, and the freed interval is bookable again at once.
#[test]
fn delete_frees_the_interval() {
    let mut m = ReservationManager::new();
    let r = m.reserve(req("alice", "R1", 100, 200)).unwrap();
    assert!(m.delete(r.id).is_ok());
    assert_eq!(m.get(r.id).unwrap_err(), ReservationError::NotFound);
    assert_eq!(m.delete(r.id).unwrap_err(), ReservationError::NotFound);
    assert!(m.reserve(req("bob", "R1", 100, 200)).is_ok());
}

// get returns the stored record with all its fields.
#[test]
fn get_returns_the_record() {
    let mut m = ReservationManager::new();
    let r = m
        .reserve(Reservation::new(
            String::from("alice"),
            String::from("R1"),
            Some(ts(100)),
            Some(ts(200)),
            String::from("by the door"),
        ))
        .unwrap();
    let got = m.get(r.id).unwrap();
    assert_eq!(got.id, r.id);
    assert_eq!(got.user_id, "alice");
    assert_eq!(got.resource_id, "R1");
    assert_eq!(got.start, Some(ts(100)));
    assert_eq!(got.end, Some(ts(200)));
    assert_eq!(got.note, "by the door");
    assert_eq!(got.status, ReservationStatus::Pending);
}

// After the boundary scenario, a query on the resource returns exactly
// the two successful reservations, ordered by start time.
#[test]
fn query_returns_the_two_winners_in_order() {
    let mut m = ReservationManager::new();
    let late = m.reserve(req("bob", "R1", 39600, 43200)).unwrap();
    let early = m.reserve(req("alice", "R1", 36000, 39600)).unwrap();
    assert_eq!(
        m.reserve(req("carol", "R1", 37800, 38700)).unwrap_err(),
        ReservationError::Conflict
    );
    let found = m.query(query_for_resource("R1")).unwrap();
    assert_eq!(found.len(), 2);
    assert_eq!(found[0].id, early.id);
    assert_eq!(found[1].id, late.id);
}

// Each filter of a query narrows the result; an empty filter set returns
// everything.
#[test]
fn query_filters_compose() {
    let mut m = ReservationManager::new();
    let a = m.reserve(req("alice", "R1", 100, 200)).unwrap();
    let b = m.reserve(req("bob", "R1", 200, 300)).unwrap();
    let c = m.reserve(req("alice", "R2", 100, 200)).unwrap();
    m.change_status(b.id).unwrap();

    let all = m.query(ReservationQuery::all()).unwrap();
    assert_eq!(all.len(), 3);

    let mut by_user = ReservationQuery::all();
    by_user.user_id = Some(String::from("alice"));
    let found = m.query(by_user).unwrap();
    assert_eq!(found.len(), 2);
    assert!(found.iter().all(|r| r.user_id == "alice"));

    let mut by_status = ReservationQuery::all();
    by_status.status = Some(ReservationStatus::Confirmed);
    let found = m.query(by_status).unwrap();
    assert_eq!(found.len(), 1);
    assert_eq!(found[0].id, b.id);

    let mut by_both = query_for_resource("R1");
    by_both.user_id = Some(String::from("alice"));
    let found = m.query(by_both).unwrap();
    assert_eq!(found.len(), 1);
    assert_eq!(found[0].id, a.id);
    let _ = c;
}

// The query window keeps the reservations whose interval overlaps it,
// under the same half-open rule as conflict detection.
#[test]
fn query_window_selects_overlapping_intervals() {
    let mut m = ReservationManager::new();
    let a = m.reserve(req("alice", "R1", 100, 200)).unwrap();
    let b = m.reserve(req("bob", "R1", 300, 400)).unwrap();

    let mut w = ReservationQuery::all();
    w.start = Some(ts(150));
    w.end = Some(ts(250));
    let found = m.query(w).unwrap();
    assert_eq!(found.len(), 1);
    assert_eq!(found[0].id, a.id);

    let mut touching = ReservationQuery::all();
    touching.start = Some(ts(200));
    touching.end = Some(ts(300));
    let found = m.query(touching).unwrap();
    assert_eq!(found.len(), 0);

    let mut open_ended = ReservationQuery::all();
    open_ended.start = Some(ts(250));
    let found = m.query(open_ended).unwrap();
    assert_eq!(found.len(), 1);
    assert_eq!(found[0].id, b.id);
}

// Among several mutually overlapping attempts on one resource, exactly
// one wins and every other observes Conflict, in whatever order they
// arrive.
#[test]
fn one_winner_among_overlapping_attempts() {
    let attempts = [(100, 200), (150, 250), (120, 180), (159, 300)];
    for first in 0..attempts.len() {
        let mut m = ReservationManager::new();
        let mut winners = 0;
        let mut conflicts = 0;
        for k in 0..attempts.len() {
            let (s, e) = attempts[(first + k) % attempts.len()];
            match m.reserve(req("user", "R1", s, e)) {
                Ok(_) => winners += 1,
                Err(err) => {
                    assert_eq!(err, ReservationError::Conflict);
                    conflicts += 1;
                }
            }
        }
        assert_eq!(winners, 1);
        assert_eq!(conflicts, attempts.len() - 1);
    }
}

// The note of a confirmed reservation may still be updated; after a
// delete the id is gone and the note cannot.
#[test]
fn note_update_follows_the_lifecycle() {
    let mut m = ReservationManager::new();
    let r = m.reserve(req("alice", "R1", 100, 200)).unwrap();
    m.change_status(r.id).unwrap();
    let updated = m.update_note(r.id, String::from("late checkout")).unwrap();
    assert_eq!(updated.status, ReservationStatus::Confirmed);
    assert_eq!(updated.note, "late checkout");
    m.delete(r.id).unwrap();
    assert_eq!(
        m.update_note(r.id, String::from("gone")).unwrap_err(),
        ReservationError::NotFound
    );
}

// Ids are assigned by the store, never reused, and 0 never names a
// stored record.
#[test]
fn ids_are_fresh_and_nonzero() {
    let mut m = ReservationManager::new();
    let a = m.reserve(req("alice", "R1", 100, 200)).unwrap();
    let b = m.reserve(req("bob", "R1", 200, 300)).unwrap();
    assert!(a.id >= 1);
    assert!(b.id >= 1);
    assert_ne!(a.id, b.id);
    m.delete(a.id).unwrap();
    let c = m.reserve(req("carol", "R1", 100, 200)).unwrap();
    assert_ne!(c.id, a.id);
    assert_ne!(c.id, b.id);
    assert_eq!(m.get(0).unwrap_err(), ReservationError::NotFound);
}
