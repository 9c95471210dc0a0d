//! Signed indexes and ranges of signed indexes into a `TwoSidedVec`.
use vstd::prelude::*;

use crate::TwoSidedVec;

verus! {

/// Something that selects a run of elements of a `TwoSidedVec` by signed indexes.
pub trait TwoSidedIndex<T>: Sized {
    /// Whether this selects only indexes in `[start, end)` (a range may also be empty at
    /// `end`).
    spec fn spec_check(&self, start: int, end: int) -> bool;

    /// The half-open run `[first, last)` of signed indexes that this selects from a vector
    /// whose indexes run over `[start, end)`.
    spec fn spec_span(&self, start: int, end: int) -> (int, int);

    /// Whether this can be used against `target`.
    fn check(&self, target: &TwoSidedVec<T>) -> (b: bool)
        requires
            target.wf(),
        ensures
            b == self.spec_check(-(target@.0.len() as int), target@.1.len() as int),
    ;

    /// The half-open run of signed indexes that this selects, which lies within the
    /// indexes of `target` when the check passes.
    fn span(&self, target: &TwoSidedVec<T>) -> (r: (isize, isize))
        requires
            target.wf(),
            self.spec_check(-(target@.0.len() as int), target@.1.len() as int),
        ensures
            r.0 == self.spec_span(-(target@.0.len() as int), target@.1.len() as int).0,
            r.1 == self.spec_span(-(target@.0.len() as int), target@.1.len() as int).1,
            -(target@.0.len() as int) <= r.0 <= r.1 <= target@.1.len(),
    ;
}

impl<T> TwoSidedIndex<T> for isize {
    /// A single index must lie in `[start, end)`.
    open spec fn spec_check(&self, start: int, end: int) -> bool {
        start <= *self < end
    }

    /// A single index selects itself.
    open spec fn spec_span(&self, start: int, end: int) -> (int, int) {
        (*self as int, *self + 1)
    }

    fn check(&self, target: &TwoSidedVec<T>) -> (b: bool) {
        *self >= target.start() && *self < target.end()
    }

    fn span(&self, target: &TwoSidedVec<T>) -> (r: (isize, isize)) {
        (*self, *self + 1)
    }
}

impl<T> TwoSidedIndex<T> for core::ops::Range<isize> {
    /// A range must start no earlier than `start`, end no later than `end`, and not run
    /// backwards.
    open spec fn spec_check(&self, start: int, end: int) -> bool {
        start <= self.start <= self.end <= end
    }

    /// A range selects the indexes from its start up to, not including, its end.
    open spec fn spec_span(&self, start: int, end: int) -> (int, int) {
        (self.start as int, self.end as int)
    }

    fn check(&self, target: &TwoSidedVec<T>) -> (b: bool) {
        self.start >= target.start() && self.start <= self.end && self.end <= target.end()
    }

    fn span(&self, target: &TwoSidedVec<T>) -> (r: (isize, isize)) {
        (self.start, self.end)
    }
}

/// The full range `..`, which selects every element.
#[verifier::external_type_specification]
#[verifier::external_body]
pub struct ExRangeFull(core::ops::RangeFull);

impl<T> TwoSidedIndex<T> for core::ops::RangeFull {
    /// The full range always fits.
    open spec fn spec_check(&self, start: int, end: int) -> bool {
        true
    }

    /// The full range selects every index.
    open spec fn spec_span(&self, start: int, end: int) -> (int, int) {
        (start, end)
    }

    fn check(&self, target: &TwoSidedVec<T>) -> (b: bool) {
        true
    }

    fn span(&self, target: &TwoSidedVec<T>) -> (r: (isize, isize)) {
        (target.start(), target.end())
    }
}

} // verus!
