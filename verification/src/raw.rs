//! Capacity bookkeeping for the two halves of a two-sided buffer.
use vstd::prelude::*;

pub use crate::RawTwoSidedVec;

verus! {

/// How many elements fit behind the middle (`back`) and in front of it (`front`).
#[derive(Clone, Copy, Debug)]
pub struct Capacity {
    pub back: usize,
    pub front: usize,
}

impl Capacity {
    /// The number of slots over both halves.
    pub open spec fn spec_total(self) -> int {
        self.back + self.front
    }

    /// Both halves of `self` are at least as large as those of `other`.
    pub open spec fn spec_can_fit(self, other: Capacity) -> bool {
        self.back >= other.back && self.front >= other.front
    }

    /// The half-wise sum of two capacities.
    pub open spec fn spec_add(self, rhs: Capacity) -> Capacity {
        Capacity { back: (self.back + rhs.back) as usize, front: (self.front + rhs.front) as usize }
    }

    /// A capacity with no room on either side.
    pub open spec fn empty_spec() -> Capacity {
        Capacity { back: 0, front: 0 }
    }

    /// A capacity with no room on either side.
    pub fn empty() -> (c: Capacity)
        ensures
            c == Capacity::empty_spec(),
    {
        Capacity { back: 0, front: 0 }
    }

    /// The total number of slots; the sum must fit in a `usize`.
    pub fn checked_total(&self) -> (t: usize)
        requires
            self.spec_total() <= usize::MAX,
        ensures
            t == self.spec_total(),
    {
        self.back + self.front
    }

    /// The total number of slots; the sum must fit in a `usize`.
    pub fn total(&self) -> (t: usize)
        requires
            self.spec_total() <= usize::MAX,
        ensures
            t == self.spec_total(),
    {
        self.back + self.front
    }

    /// Whether `other` fits inside `self` on both sides.
    pub fn can_fit(&self, other: Capacity) -> (b: bool)
        ensures
            b == self.spec_can_fit(other),
    {
        self.back >= other.back && self.front >= other.front
    }

    /// Whether there is no room on either side.
    pub fn is_empty(&self) -> (b: bool)
        ensures
            b == (self.back == 0 && self.front == 0),
    {
        self.back == 0 && self.front == 0
    }

    /// The half-wise sum; neither half may overflow.
    pub fn add(self, rhs: Capacity) -> (c: Capacity)
        requires
            self.back + rhs.back <= usize::MAX,
            self.front + rhs.front <= usize::MAX,
        ensures
            c == self.spec_add(rhs),
            c.back == self.back + rhs.back,
            c.front == self.front + rhs.front,
    {
        Capacity { front: self.front + rhs.front, back: self.back + rhs.back }
    }
}

/// The capacity a buffer has after it was asked to grow by `request`: unchanged where the
/// used and needed slots already fit, and otherwise exactly the used plus the needed slots.
pub open spec fn reserved_capacity(current: Capacity, request: CapacityRequest) -> Capacity {
    let requested = request.used.spec_add(request.needed);
    if current.spec_can_fit(requested) {
        current
    } else {
        requested
    }
}

/// A request to grow a buffer: the slots in use and the extra slots wanted on each side.
#[derive(Clone, Copy, Debug)]
pub struct CapacityRequest {
    pub used: Capacity,
    pub needed: Capacity,
}

} // verus!
