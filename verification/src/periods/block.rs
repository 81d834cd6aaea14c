use vstd::prelude::*;

use super::instant::Instant;
use super::period::Interval;
use super::period::Period;
use super::period::PeriodError;
use super::span::Span;

verus! {

/// An already-scheduled busy period. Immutable once constructed, and
/// always strictly ordered: `start < end`.
#[derive(Debug, Clone, Copy)]
pub struct Block {
    start: Instant,
    end: Instant,
}

impl View for Block {
    type V = Interval;

    closed spec fn view(&self) -> Interval {
        Interval { start: self.start@, end: self.end@ }
    }
}

/// Whether the block covers the whole window.
pub open spec fn covers_window(b: Interval, t: Interval) -> bool {
    b.start <= t.start && t.end <= b.end
}

/// Whether the block occupies the leading edge of the window.
pub open spec fn overlaps_window_start(b: Interval, t: Interval) -> bool {
    b.start <= t.start && b.end <= t.end && t.start <= b.end
}

/// Whether the block lies wholly inside the window.
pub open spec fn inside_window(b: Interval, t: Interval) -> bool {
    t.start <= b.start && b.end <= t.end
}

/// Whether the block occupies the trailing edge of the window.
pub open spec fn overlaps_window_end(b: Interval, t: Interval) -> bool {
    t.start <= b.start && t.end <= b.end && b.start <= t.end
}

impl Block {
    /// Type invariant: a block is strictly ordered, by construction.
    #[verifier::type_invariant]
    pub open spec fn ordered(self) -> bool {
        self@.start < self@.end
    }

    /// Builds a block; fails exactly when the bounds are not strictly
    /// ordered.
    pub fn new(start: Instant, end: Instant) -> (r: Result<Self, PeriodError>)
        ensures
            r is Ok <==> start@ < end@,
            r is Ok ==> r.unwrap()@ == (Interval { start: start@, end: end@ }),
            r is Err ==> r.unwrap_err() == PeriodError::InvalidTime,
    {
        if start.secs >= end.secs {
            return Err(PeriodError::InvalidTime);
        }
        Ok(Block { start, end })
    }

    /// Whether this block covers the given window entirely.
    pub fn contains(&self, other: &Span) -> (r: bool)
        ensures
            r == covers_window(self@, other@),
    {
        self.start.secs <= other.start().secs && other.end().secs <= self.end.secs
    }

    /// Whether this block lies wholly inside the given window.
    pub fn is_contained_in(&self, other: &Span) -> (r: bool)
        ensures
            r == inside_window(self@, other@),
    {
        other.start().secs <= self.start.secs && self.end.secs <= other.end().secs
    }

    /// Whether this block occupies the trailing edge of the given window.
    pub fn overlaps_at_end(&self, other: &Span) -> (r: bool)
        ensures
            r == overlaps_window_end(self@, other@),
    {
        other.start().secs <= self.start.secs && other.end().secs <= self.end.secs
            && self.start.secs <= other.end().secs
    }

    /// Whether this block occupies the leading edge of the given window.
    pub fn overlaps_at_start(&self, other: &Span) -> (r: bool)
        ensures
            r == overlaps_window_start(self@, other@),
    {
        self.start.secs <= other.start().secs && self.end.secs <= other.end().secs
            && other.start().secs <= self.end.secs
    }
}

impl Period for Block {
    open spec fn spec_start(&self) -> int {
        self@.start
    }

    open spec fn spec_end(&self) -> int {
        self@.end
    }

    fn start(&self) -> (r: Instant) {
        self.start
    }

    fn end(&self) -> (r: Instant) {
        self.end
    }
}

} // verus!
