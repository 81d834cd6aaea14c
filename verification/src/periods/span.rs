use vstd::prelude::*;

use super::block::Block;
use super::instant::Instant;
use super::period::Interval;
use super::period::Period;
use super::period::PeriodError;
use super::slot::Slot;

verus! {

/// The mutable scan state of a sweep: the portion of the original query
/// window that has not been accounted for yet.
///
/// A span is strictly ordered at construction, but unlike `Block` and
/// `Slot` it may later be consumed down to `start == end` (or beyond, if
/// `shorten` is applied to a block reaching past its end).
#[derive(Debug, Clone, Copy)]
pub struct Span {
    start: Instant,
    end: Instant,
}

impl View for Span {
    type V = Interval;

    closed spec fn view(&self) -> Interval {
        Interval { start: self.start@, end: self.end@ }
    }
}

impl Span {
    /// Builds a span; fails exactly when the bounds are not strictly
    /// ordered.
    pub fn new(start: Instant, end: Instant) -> (r: Result<Self, PeriodError>)
        ensures
            r is Ok <==> start@ < end@,
            r is Ok ==> r.unwrap()@ == (Interval { start: start@, end: end@ }),
            r is Err ==> r.unwrap_err() == PeriodError::InvalidTime,
    {
        if start.secs >= end.secs {
            return Err(PeriodError::InvalidTime);
        }
        Ok(Span { start, end })
    }

    /// Whether any part of the span is still unconsumed.
    pub fn remain(&self) -> (r: bool)
        ensures
            r == (self@.start < self@.end),
    {
        self.start.secs < self.end.secs
    }

    /// Advances the span past the given block (partial consumption).
    pub fn shorten(&mut self, other: &Block)
        ensures
            final(self)@ == (Interval { start: other@.end, end: old(self)@.end }),
    {
        self.start = other.end();
    }

    /// Collapses the span (full consumption).
    pub fn terminate(&mut self)
        ensures
            final(self)@ == (Interval { start: old(self)@.end, end: old(self)@.end }),
    {
        self.start = self.end;
    }

    /// Converts what remains of the span into a free slot; fails exactly
    /// when the span has already been consumed.
    pub fn to_slot(&self) -> (r: Result<Slot, PeriodError>)
        ensures
            r is Ok <==> self@.start < self@.end,
            r is Ok ==> r.unwrap()@ == self@,
            r is Err ==> r.unwrap_err() == PeriodError::InvalidTime,
    {
        Slot::new(self.start, self.end)
    }
}

impl Period for Span {
    open spec fn spec_start(&self) -> int {
        self@.start
    }

    open spec fn spec_end(&self) -> int {
        self@.end
    }

    fn start(&self) -> (r: Instant) {
        self.start
    }

    fn end(&self) -> (r: Instant) {
        self.end
    }
}

} // verus!
