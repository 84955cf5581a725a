//! Instants on the UTC time line, ordered as the clock orders them.

use vstd::prelude::*;

verus! {

/// An instant: whole seconds since the Unix epoch and the nanoseconds within
/// that second. Two instants are ordered by their seconds first and by their
/// nanoseconds second.
#[derive(Clone, Copy, Debug, PartialEq, Eq, Structural)]
pub struct Timestamp {
    pub secs: i64,
    pub nanos: u32,
}

impl Timestamp {
    /// `self` is not later than `other`.
    pub open spec fn le(self, other: Timestamp) -> bool {
        self.secs < other.secs || (self.secs == other.secs && self.nanos <= other.nanos)
    }

    /// The later of two instants.
    pub open spec fn max(self, other: Timestamp) -> Timestamp {
        if self.le(other) {
            other
        } else {
            self
        }
    }

    /// The earlier of two instants.
    pub open spec fn min(self, other: Timestamp) -> Timestamp {
        if self.le(other) {
            self
        } else {
            other
        }
    }

    pub fn new(secs: i64, nanos: u32) -> (r: Timestamp)
        ensures
            r.secs == secs,
            r.nanos == nanos,
    {
        Timestamp { secs, nanos }
    }

    pub fn is_at_or_before(&self, other: &Timestamp) -> (r: bool)
        ensures
            r == self.le(*other),
    {
        self.secs < other.secs || (self.secs == other.secs && self.nanos <= other.nanos)
    }

    pub fn later(self, other: Timestamp) -> (r: Timestamp)
        ensures
            r == self.max(other),
    {
        if self.is_at_or_before(&other) {
            other
        } else {
            self
        }
    }

    pub fn earlier(self, other: Timestamp) -> (r: Timestamp)
        ensures
            r == self.min(other),
    {
        if self.is_at_or_before(&other) {
            self
        } else {
            other
        }
    }
}

/// The later of an instant that may be missing and a present one.
pub open spec fn max_opt(existing: Option<Timestamp>, new: Timestamp) -> Timestamp {
    match existing {
        Some(t) => t.max(new),
        None => new,
    }
}

/// The order of instants is total, reflexive and transitive, and `max` is the
/// least upper bound under it.
pub proof fn lemma_timestamp_order(a: Timestamp, b: Timestamp, c: Timestamp)
    ensures
        a.le(a),
        a.le(b) || b.le(a),
        a.le(b) && b.le(a) ==> a == b,
        a.le(b) && b.le(c) ==> a.le(c),
        a.le(a.max(b)),
        b.le(a.max(b)),
        a.max(b) == a || a.max(b) == b,
        a.max(b) == b.max(a),
        a.max(b).max(c) == a.max(b.max(c)),
        a.min(b).le(a),
        a.min(b).le(b),
{
}

} // verus!
