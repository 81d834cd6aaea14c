use vstd::prelude::*;

use super::block::Block;
use super::instant::Instant;
use super::period::Interval;
use super::period::Period;
use super::period::PeriodError;
use super::span::Span;

verus! {

/// A confirmed free gap. Immutable once constructed, and always strictly
/// ordered: `start < end`.
#[derive(Debug, Clone, Copy)]
pub struct Slot {
    start: Instant,
    end: Instant,
}

impl View for Slot {
    type V = Interval;

    closed spec fn view(&self) -> Interval {
        Interval { start: self.start@, end: self.end@ }
    }
}

impl Slot {
    /// Type invariant: a slot is strictly ordered, by construction.
    #[verifier::type_invariant]
    pub open spec fn ordered(self) -> bool {
        self@.start < self@.end
    }

    /// Builds a slot; fails exactly when the bounds are not strictly
    /// ordered.
    pub fn new(start: Instant, end: Instant) -> (r: Result<Self, PeriodError>)
        ensures
            r is Ok <==> start@ < end@,
            r is Ok ==> r.unwrap()@ == (Interval { start: start@, end: end@ }),
            r is Err ==> r.unwrap_err() == PeriodError::InvalidTime,
    {
        if start.secs >= end.secs {
            return Err(PeriodError::InvalidTime);
        }
        Ok(Slot { start, end })
    }

    /// Builds the slot that runs from the window's start up to the
    /// block's start; fails exactly when that gap would be empty or
    /// inverted.
    pub fn create_from(target: &Span, block: &Block) -> (r: Result<Self, PeriodError>)
        ensures
            r is Ok <==> target@.start < block@.start,
            r is Ok ==> r.unwrap()@ == (Interval { start: target@.start, end: block@.start }),
            r is Err ==> r.unwrap_err() == PeriodError::InvalidTime,
    {
        if target.start().secs >= block.start().secs {
            return Err(PeriodError::InvalidTime);
        }
        Ok(Slot { start: target.start(), end: block.start() })
    }

}

impl Period for Slot {
    open spec fn spec_start(&self) -> int {
        self@.start
    }

    open spec fn spec_end(&self) -> int {
        self@.end
    }

    fn start(&self) -> (r: Instant) {
        self.start
    }

    fn end(&self) -> (r: Instant) {
        self.end
    }
}

} // verus!
