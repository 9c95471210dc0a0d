//! Extending either side of a two-sided vector with many elements at once.
use vstd::prelude::*;

use crate::raw::{reserved_capacity, Capacity, CapacityRequest};
use crate::{used_capacity, TwoSidedVec};

verus! {

/// The two-sided counterpart of `Extend`: adds many elements to the back or to the front.
pub trait TwoSidedExtend<T>: Sized {
    /// Whether `count` more elements can be added behind.
    spec fn can_extend_back(&self, count: nat) -> bool;

    /// Whether `count` more elements can be added in front.
    spec fn can_extend_front(&self, count: nat) -> bool;

    /// `after` is `before` with each of `items`, in order, added behind.
    spec fn extended_back(before: Self, items: Seq<T>, after: Self) -> bool;

    /// `after` is `before` with each of `items`, in order, added in front.
    spec fn extended_front(before: Self, items: Seq<T>, after: Self) -> bool;

    /// Adds each of `items`, in order, behind.
    fn extend_back(&mut self, items: Vec<T>)
        requires
            old(self).can_extend_back(items@.len()),
        ensures
            Self::extended_back(*old(self), items@, *final(self)),
    ;

    /// Adds each of `items`, in order, in front.
    fn extend_front(&mut self, items: Vec<T>)
        requires
            old(self).can_extend_front(items@.len()),
        ensures
            Self::extended_front(*old(self), items@, *final(self)),
    ;
}

impl<T> TwoSidedExtend<T> for TwoSidedVec<T> {
    /// The vector is well formed, and the elements fit behind or can be given slots.
    open spec fn can_extend_back(&self, count: nat) -> bool {
        &&& self.wf()
        &&& self.spec_capacity().back - self@.0.len() >= count || self@.0.len() + self@.1.len()
            + count <= isize::MAX
    }

    /// The vector is well formed, and the elements fit in front or can be given slots.
    open spec fn can_extend_front(&self, count: nat) -> bool {
        &&& self.wf()
        &&& self.spec_capacity().front - self@.1.len() >= count || self@.0.len() + self@.1.len()
            + count <= isize::MAX
    }

    /// Each item was pushed to the back in turn, so the last item now stands at `start()`;
    /// room for all of them was reserved first.
    open spec fn extended_back(before: Self, items: Seq<T>, after: Self) -> bool {
        &&& after.wf()
        &&& after@ == (items.reverse() + before@.0, before@.1)
        &&& after.spec_capacity() == reserved_capacity(
            before.spec_capacity(),
            CapacityRequest {
                used: used_capacity(before@),
                needed: Capacity { back: items.len() as usize, front: 0 },
            },
        )
    }

    /// The items follow the old front in order; room for all of them was reserved first.
    open spec fn extended_front(before: Self, items: Seq<T>, after: Self) -> bool {
        &&& after.wf()
        &&& after@ == (before@.0, before@.1 + items)
        &&& after.spec_capacity() == reserved_capacity(
            before.spec_capacity(),
            CapacityRequest {
                used: used_capacity(before@),
                needed: Capacity { back: 0, front: items.len() as usize },
            },
        )
    }

    fn extend_back(&mut self, items: Vec<T>) {
        self.default_extend_back(items);
    }

    fn extend_front(&mut self, items: Vec<T>) {
        self.default_extend_front(items);
    }
}

impl<'a, T: Copy> TwoSidedExtend<&'a T> for TwoSidedVec<T> {
    /// The vector is well formed, and the elements fit behind or can be given slots.
    open spec fn can_extend_back(&self, count: nat) -> bool {
        &&& self.wf()
        &&& self.spec_capacity().back - self@.0.len() >= count || self@.0.len() + self@.1.len()
            + count <= isize::MAX
    }

    /// The vector is well formed, and the elements fit in front or can be given slots.
    open spec fn can_extend_front(&self, count: nat) -> bool {
        &&& self.wf()
        &&& self.spec_capacity().front - self@.1.len() >= count || self@.0.len() + self@.1.len()
            + count <= isize::MAX
    }

    /// Copies of the referenced items were pushed to the back in turn.
    open spec fn extended_back(before: Self, items: Seq<&'a T>, after: Self) -> bool {
        <TwoSidedVec<T> as TwoSidedExtend<T>>::extended_back(before, items.unref(), after)
    }

    /// Copies of the referenced items follow the old front in order.
    open spec fn extended_front(before: Self, items: Seq<&'a T>, after: Self) -> bool {
        <TwoSidedVec<T> as TwoSidedExtend<T>>::extended_front(before, items.unref(), after)
    }

    fn extend_back(&mut self, items: Vec<&'a T>) {
        let copies = copied(&items);
        self.default_extend_back(copies);
    }

    fn extend_front(&mut self, items: Vec<&'a T>) {
        let copies = copied(&items);
        self.default_extend_front(copies);
    }
}

/// Copies of the referenced values, in order.
fn copied<'a, T: Copy>(items: &Vec<&'a T>) -> (r: Vec<T>)
    ensures
        r@ == items@.unref(),
{
    let mut r: Vec<T> = Vec::new();
    let mut i: usize = 0;
    while i < items.len()
        invariant
            i <= items@.len(),
            r@ == items@.subrange(0, i as int).unref(),
        decreases items@.len() - i,
    {
        let x: T = *items[i];
        r.push(x);
        i = i + 1;
        assert(r@ =~= items@.subrange(0, i as int).unref());
    }
    assert(items@.subrange(0, items@.len() as int) =~= items@);
    r
}

} // verus!
