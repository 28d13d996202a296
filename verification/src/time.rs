//! Instants and half-open time intervals, and the validator that turns a
//! pair of optional bounds into a well-formed interval.

use vstd::prelude::*;

use crate::error::ReservationError;

verus! {

/// Nanoseconds in one second; a normalized timestamp keeps its `nanos`
/// strictly below this.
pub const NANOS_PER_SECOND: u32 = 1_000_000_000;

/// An instant in UTC: whole seconds since an epoch plus a nanosecond
/// offset into that second.
#[derive(Clone, Copy, PartialEq, Eq, Structural, Debug)]
pub struct Timestamp {
    pub seconds: i64,
    pub nanos: u32,
}

impl Timestamp {
    /// A timestamp is normalized when the nanosecond part names a real
    /// offset into its second.
    pub open spec fn wf(self) -> bool {
        self.nanos < NANOS_PER_SECOND
    }

    /// Strict order of instants: seconds first, nanoseconds as tie-break.
    pub open spec fn spec_lt(self, other: Timestamp) -> bool {
        self.seconds < other.seconds
            || (self.seconds == other.seconds && self.nanos < other.nanos)
    }

    /// Non-strict order of instants.
    pub open spec fn spec_le(self, other: Timestamp) -> bool {
        self.spec_lt(other) || self == other
    }

    /// Is this instant strictly before `other`?
    pub fn lt(&self, other: &Timestamp) -> (r: bool)
        ensures
            r == self.spec_lt(*other),
    {
        self.seconds < other.seconds
            || (self.seconds == other.seconds && self.nanos < other.nanos)
    }

    /// Is this instant no later than `other`?
    pub fn le(&self, other: &Timestamp) -> (r: bool)
        ensures
            r == self.spec_le(*other),
    {
        self.seconds < other.seconds
            || (self.seconds == other.seconds && self.nanos <= other.nanos)
    }
}

/// A half-open interval `[start, end)` of instants.
#[derive(Clone, Copy, PartialEq, Eq, Structural, Debug)]
pub struct TimeSpan {
    pub start: Timestamp,
    pub end: Timestamp,
}

impl TimeSpan {
    /// A valid interval has normalized bounds and a strictly positive
    /// length: `start < end`.
    pub open spec fn wf(self) -> bool {
        self.start.wf() && self.end.wf() && self.start.spec_lt(self.end)
    }

    /// Two half-open intervals overlap exactly when each starts before the
    /// other ends: they then share at least one instant.
    pub open spec fn spec_overlaps(self, other: TimeSpan) -> bool {
        self.start.spec_lt(other.end) && other.start.spec_lt(self.end)
    }

    /// Does this interval share an instant with `other`?
    pub fn overlaps(&self, other: &TimeSpan) -> (r: bool)
        ensures
            r == self.spec_overlaps(*other),
    {
        self.start.lt(&other.end) && other.start.lt(&self.end)
    }
}

/// Overlap does not depend on the order of the two intervals.
pub proof fn lemma_overlap_symmetric(a: TimeSpan, b: TimeSpan)
    ensures
        a.spec_overlaps(b) == b.spec_overlaps(a),
{
}

/// An interval never overlaps one that ends before it starts or starts at
/// or after its end: touching boundaries do not overlap.
pub proof fn lemma_touching_spans_disjoint(a: TimeSpan, b: TimeSpan)
    requires
        a.end.spec_le(b.start) || b.end.spec_le(a.start),
    ensures
        !a.spec_overlaps(b),
{
}

/// What a pair of optional bounds must look like for the validator to
/// accept it.
pub open spec fn spec_valid_bounds(start: Option<Timestamp>, end: Option<Timestamp>) -> bool {
    &&& start is Some
    &&& end is Some
    &&& start.unwrap().wf()
    &&& end.unwrap().wf()
    &&& start.unwrap().spec_lt(end.unwrap())
}

/// The time-range validator: turns two optional bounds into a validated
/// half-open interval, or fails with `InvalidTime`.
///
/// It accepts exactly the pairs where both bounds are present, both are
/// normalized, and the start is strictly before the end; a zero-length or
/// inverted interval is never valid. It has no side effects.
pub fn validate_span(start: &Option<Timestamp>, end: &Option<Timestamp>) -> (r: Result<
    TimeSpan,
    ReservationError,
>)
    ensures
        r is Ok <==> spec_valid_bounds(*start, *end),
        r is Ok ==> r.unwrap() == (TimeSpan { start: start.unwrap(), end: end.unwrap() })
            && r.unwrap().wf(),
        r is Err ==> r.unwrap_err() == ReservationError::InvalidTime,
{
    match (start, end) {
        (Some(s), Some(e)) => {
            if s.nanos < NANOS_PER_SECOND && e.nanos < NANOS_PER_SECOND && s.lt(e) {
                Ok(TimeSpan { start: *s, end: *e })
            } else {
                Err(ReservationError::InvalidTime)
            }
        },
        _ => Err(ReservationError::InvalidTime),
    }
}

} // verus!
