//! A vector that grows in both directions: elements behind the middle have negative
//! indexes, elements in front of it have indexes from zero upwards, and pushing to
//! one side never moves the indexes of the other.
use vstd::prelude::*;

pub mod raw;
pub mod select;
pub mod serialize;
pub mod drain;
pub mod enumerate;
pub mod extend;
pub mod index;
pub mod laws;
pub mod prelude;

use crate::drain::{DrainFilterBack, DrainFilterFront};
use crate::enumerate::SignedEnumerate;
use crate::index::TwoSidedIndex;
use crate::raw::{reserved_capacity, Capacity, CapacityRequest};
use crate::select::{lemma_select_reverse, negate, reversed, select};
use vstd::std_specs::cmp::PartialEqSpec;

verus! {

/// The buffer behind a `TwoSidedVec`: its elements in index order, and the number of
/// slots granted behind and in front of the middle.
#[derive(Debug)]
pub struct RawTwoSidedVec<T> {
    storage: Vec<T>,
    capacity: Capacity,
}

impl<T> View for RawTwoSidedVec<T> {
    type V = Seq<T>;

    closed spec fn view(&self) -> Seq<T> {
        self.storage@
    }
}

impl<T> RawTwoSidedVec<T> {
    /// The slots granted on each side.
    pub closed spec fn spec_capacity(&self) -> Capacity {
        self.capacity
    }

    /// The elements take up space, the granted slots can be addressed with `isize` offsets,
    /// and they hold the elements.
    pub closed spec fn wf(&self) -> bool {
        &&& vstd::layout::size_of::<T>() != 0
        &&& self.capacity.spec_total() <= isize::MAX
        &&& self.storage@.len() <= self.capacity.spec_total()
    }

    /// An empty buffer with no slots; the element type must not be zero-sized.
    pub fn new() -> (r: Self)
        requires
            vstd::layout::size_of::<T>() != 0,
        ensures
            r.wf(),
            r@ == Seq::<T>::empty(),
            r.spec_capacity() == Capacity::empty_spec(),
    {
        RawTwoSidedVec { storage: Vec::new(), capacity: Capacity::empty() }
    }

    /// An empty buffer with exactly the given slots on each side; the element type must not
    /// be zero-sized.
    pub fn with_capacity(capacity: Capacity) -> (r: Self)
        requires
            vstd::layout::size_of::<T>() != 0,
            capacity.spec_total() <= isize::MAX,
        ensures
            r.wf(),
            r@ == Seq::<T>::empty(),
            r.spec_capacity() == capacity,
    {
        if capacity.is_empty() {
            return RawTwoSidedVec::new();
        }
        let total = capacity.checked_total();
        RawTwoSidedVec { storage: Vec::with_capacity(total), capacity }
    }

    /// The slots granted on each side.
    pub fn capacity(&self) -> (c: &Capacity)
        ensures
            *c == self.spec_capacity(),
    {
        &self.capacity
    }

    /// Makes room for `request.needed` more slots beside the `request.used` ones. Where the
    /// sum does not fit, the buffer is given exactly that sum on each side.
    pub fn reserve(&mut self, request: CapacityRequest)
        requires
            old(self).wf(),
            old(self).spec_capacity().spec_can_fit(request.used),
            old(self)@.len() <= request.used.spec_total(),
            request.used.back + request.needed.back <= usize::MAX,
            request.used.front + request.needed.front <= usize::MAX,
            !old(self).spec_capacity().spec_can_fit(request.used.spec_add(request.needed))
                ==> request.used.spec_add(request.needed).spec_total() <= isize::MAX,
        ensures
            final(self).wf(),
            final(self)@ == old(self)@,
            final(self).spec_capacity() == reserved_capacity(old(self).spec_capacity(), request),
            final(self).spec_capacity().spec_can_fit(request.used.spec_add(request.needed)),
    {
        let requested = request.used.add(request.needed);
        if !self.capacity.can_fit(requested) {
            let additional = request.needed.total();
            self.storage.reserve(additional);
            self.capacity = requested;
        }
    }
}

/// A vector that can grow both forwards and backwards.
///
/// The back and the front are two independent sequences: index `-1` is the back element
/// nearest the middle and index `0` the first front element. Pushing to the back never
/// changes what a non-negative index refers to.
#[derive(Debug)]
pub struct TwoSidedVec<T> {
    memory: RawTwoSidedVec<T>,
    start_index: isize,
    end_index: isize,
}

impl<T> View for TwoSidedVec<T> {
    /// The back (in index order, from `start()` up to `-1`) and the front (from `0` up to
    /// `end() - 1`).
    type V = (Seq<T>, Seq<T>);

    closed spec fn view(&self) -> (Seq<T>, Seq<T>) {
        let mid = -self.start_index;
        (
            self.memory.storage@.subrange(0, mid),
            self.memory.storage@.subrange(mid, self.memory.storage@.len() as int),
        )
    }
}

/// The number of slots in use on each side of a vector with the given back and front.
pub open spec fn used_capacity<T>(v: (Seq<T>, Seq<T>)) -> Capacity {
    Capacity { back: v.0.len() as usize, front: v.1.len() as usize }
}

/// The element at a signed index of a vector with the given back and front.
pub open spec fn element_at<T>(v: (Seq<T>, Seq<T>), index: int) -> T {
    if index < 0 {
        v.0[v.0.len() + index]
    } else {
        v.1[index]
    }
}

/// Whether a signed index addresses an element of a vector with the given back and front.
pub open spec fn index_in_bounds<T>(v: (Seq<T>, Seq<T>), index: int) -> bool {
    -v.0.len() <= index < v.1.len()
}

/// A vector with the given back and front, with the element at a signed index replaced.
pub open spec fn updated_at<T>(v: (Seq<T>, Seq<T>), index: int, value: T) -> (Seq<T>, Seq<T>) {
    if index < 0 {
        (v.0.update(v.0.len() + index, value), v.1)
    } else {
        (v.0, v.1.update(index, value))
    }
}

impl<T> TwoSidedVec<T> {
    /// The indexes and the buffer agree, and every slot can be addressed with an `isize`.
    pub closed spec fn wf(&self) -> bool {
        &&& self.memory.wf()
        &&& self.start_index <= 0 <= self.end_index
        &&& self.memory.storage@.len() == self.end_index - self.start_index
        &&& -self.start_index <= self.memory.capacity.back
        &&& self.end_index <= self.memory.capacity.front
    }

    /// The slots granted on each side.
    pub closed spec fn spec_capacity(&self) -> Capacity {
        self.memory.capacity
    }

    /// The number of elements behind the middle.
    pub open spec fn spec_len_back(&self) -> nat {
        self@.0.len()
    }

    /// The number of elements in front of the middle.
    pub open spec fn spec_len_front(&self) -> nat {
        self@.1.len()
    }

    /// All elements in index order.
    pub open spec fn spec_entire(&self) -> Seq<T> {
        self@.0 + self@.1
    }

    /// What a well-formed vector guarantees about its sizes.
    pub proof fn lemma_wf(&self)
        requires
            self.wf(),
        ensures
            self.spec_len_back() <= self.spec_capacity().back,
            self.spec_len_front() <= self.spec_capacity().front,
            self.spec_capacity().spec_total() <= isize::MAX,
    {
    }

    /// An empty vector with no room on either side; the element type must not be zero-sized.
    pub fn new() -> (r: Self)
        requires
            vstd::layout::size_of::<T>() != 0,
        ensures
            r.wf(),
            r@ == (Seq::<T>::empty(), Seq::<T>::empty()),
            r.spec_capacity() == Capacity::empty_spec(),
    {
        let r = TwoSidedVec { memory: RawTwoSidedVec::new(), start_index: 0, end_index: 0 };
        assert(r@.0 =~= Seq::<T>::empty());
        assert(r@.1 =~= Seq::<T>::empty());
        r
    }

    /// An empty vector with exactly `back` slots behind and `front` slots in front of the
    /// middle; the element type must not be zero-sized.
    pub fn with_capacity(back: usize, front: usize) -> (r: Self)
        requires
            vstd::layout::size_of::<T>() != 0,
            back + front <= isize::MAX,
        ensures
            r.wf(),
            r@ == (Seq::<T>::empty(), Seq::<T>::empty()),
            r.spec_capacity() == (Capacity { back, front }),
    {
        let r = TwoSidedVec {
            memory: RawTwoSidedVec::with_capacity(Capacity { back, front }),
            start_index: 0,
            end_index: 0,
        };
        assert(r@.0 =~= Seq::<T>::empty());
        assert(r@.1 =~= Seq::<T>::empty());
        r
    }

    /// The number of elements behind the middle.
    pub fn len_back(&self) -> (n: usize)
        requires
            self.wf(),
        ensures
            n == self@.0.len(),
    {
        (-self.start_index) as usize
    }

    /// The number of elements in front of the middle.
    pub fn len_front(&self) -> (n: usize)
        requires
            self.wf(),
        ensures
            n == self@.1.len(),
    {
        self.end_index as usize
    }

    /// The number of elements on both sides together.
    pub fn len(&self) -> (n: usize)
        requires
            self.wf(),
        ensures
            n == self@.0.len() + self@.1.len(),
    {
        (self.end_index - self.start_index) as usize
    }

    /// Whether neither side holds an element.
    pub fn is_empty(&self) -> (b: bool)
        requires
            self.wf(),
        ensures
            b == (self@.0.len() == 0 && self@.1.len() == 0),
    {
        self.start_index == self.end_index
    }

    /// The (inclusive) first index: minus the length of the back.
    pub fn start(&self) -> (i: isize)
        requires
            self.wf(),
        ensures
            i == -(self@.0.len() as int),
    {
        self.start_index
    }

    /// The (exclusive) last index: the length of the front.
    pub fn end(&self) -> (i: isize)
        requires
            self.wf(),
        ensures
            i == self@.1.len(),
    {
        self.end_index
    }

    /// The slots granted behind the middle.
    pub fn capacity_back(&self) -> (n: usize)
        requires
            self.wf(),
        ensures
            n == self.spec_capacity().back,
    {
        self.memory.capacity().back
    }

    /// The slots granted in front of the middle.
    pub fn capacity_front(&self) -> (n: usize)
        requires
            self.wf(),
        ensures
            n == self.spec_capacity().front,
    {
        self.memory.capacity().front
    }

    /// The indexes run from minus the back's length up to the front's length, and the
    /// buffer's two sides hold them.
    fn check_sanity(&self) -> (b: bool)
        requires
            self.wf(),
        ensures
            b,
    {
        self.start_index <= 0 && self.end_index >= 0
    }

    /// Whether `amount` more elements fit in front without growing.
    fn can_fit_front(&self, amount: usize) -> (b: bool)
        requires
            self.wf(),
        ensures
            b == (self.spec_capacity().front - self@.1.len() >= amount),
    {
        let remaining_front = self.capacity_front() - self.len_front();
        remaining_front >= amount
    }

    /// Whether `amount` more elements fit behind without growing.
    fn can_fit_back(&self, amount: usize) -> (b: bool)
        requires
            self.wf(),
        ensures
            b == (self.spec_capacity().back - self@.0.len() >= amount),
    {
        let remaining_back = self.capacity_back() - self.len_back();
        remaining_back >= amount
    }

    /// Appends `value` to the front, growing the front by one slot where it is full.
    pub fn push_front(&mut self, value: T)
        requires
            old(self).wf(),
            old(self)@.0.len() + old(self)@.1.len() < isize::MAX,
        ensures
            final(self).wf(),
            final(self)@ == (old(self)@.0, old(self)@.1.push(value)),
            final(self).spec_capacity() == reserved_capacity(
                old(self).spec_capacity(),
                CapacityRequest {
                    used: used_capacity(old(self)@),
                    needed: Capacity { back: 0, front: 1 },
                },
            ),
    {
        self.reserve_front(1);
        let ghost before = self.memory.storage@;
        self.memory.storage.push(value);
        self.end_index = self.end_index + 1;
        proof {
            let mid = -self.start_index;
            assert(self@.0 =~= before.subrange(0, mid));
            assert(self@.1 =~= before.subrange(mid, before.len() as int).push(value));
        }
    }

    /// Removes and returns the last front element (the one at `end() - 1`), if any.
    pub fn pop_front(&mut self) -> (r: Option<T>)
        requires
            old(self).wf(),
        ensures
            final(self).wf(),
            final(self).spec_capacity() == old(self).spec_capacity(),
            old(self)@.1.len() > 0 ==> r == Some(old(self)@.1.last())
                && final(self)@ == (old(self)@.0, old(self)@.1.drop_last()),
            old(self)@.1.len() == 0 ==> r is None && final(self)@ == old(self)@,
    {
        if self.end_index > 0 {
            let ghost before = self.memory.storage@;
            self.end_index = self.end_index - 1;
            let r = self.memory.storage.pop();
            proof {
                let mid = -self.start_index;
                assert(self@.0 =~= before.subrange(0, mid));
                assert(self@.1 =~= before.subrange(mid, before.len() as int).drop_last());
            }
            r
        } else {
            None
        }
    }

    /// Removes and returns the first back element (the one at `start()`), if any.
    pub fn pop_back(&mut self) -> (r: Option<T>)
        requires
            old(self).wf(),
        ensures
            final(self).wf(),
            final(self).spec_capacity() == old(self).spec_capacity(),
            old(self)@.0.len() > 0 ==> r == Some(old(self)@.0[0])
                && final(self)@ == (old(self)@.0.drop_first(), old(self)@.1),
            old(self)@.0.len() == 0 ==> r is None && final(self)@ == old(self)@,
    {
        if self.start_index < 0 {
            let ghost before = self.memory.storage@;
            self.start_index = self.start_index + 1;
            let value = self.memory.storage.remove(0);
            proof {
                let mid = -self.start_index;
                assert(self@.0 =~= before.subrange(0, mid + 1).drop_first());
                assert(self@.1 =~= before.subrange(mid + 1, before.len() as int));
            }
            Some(value)
        } else {
            None
        }
    }

    /// Puts `value` before the back, at the new `start()`, growing the back by one slot
    /// where it is full. Every existing index keeps its element.
    pub fn push_back(&mut self, value: T)
        requires
            old(self).wf(),
            old(self)@.0.len() + old(self)@.1.len() < isize::MAX,
        ensures
            final(self).wf(),
            final(self)@ == (seq![value] + old(self)@.0, old(self)@.1),
            final(self).spec_capacity() == reserved_capacity(
                old(self).spec_capacity(),
                CapacityRequest {
                    used: used_capacity(old(self)@),
                    needed: Capacity { back: 1, front: 0 },
                },
            ),
    {
        self.reserve_back(1);
        let ghost before = self.memory.storage@;
        self.memory.storage.insert(0, value);
        self.start_index = self.start_index - 1;
        proof {
            let mid = -self.start_index;
            assert(self@.0 =~= seq![value] + before.subrange(0, mid - 1));
            assert(self@.1 =~= before.subrange(mid - 1, before.len() as int));
        }
    }

    /// The back and the front as two slices.
    pub fn split(&self) -> (r: (&[T], &[T]))
        requires
            self.wf(),
        ensures
            r.0@ == self@.0,
            r.1@ == self@.1,
    {
        let mid = self.len_back();
        self.memory.storage.as_slice().split_at(mid)
    }

    /// The front as a slice.
    pub fn front(&self) -> (r: &[T])
        requires
            self.wf(),
        ensures
            r@ == self@.1,
    {
        self.split().1
    }

    /// The back as a slice, in index order.
    pub fn back(&self) -> (r: &[T])
        requires
            self.wf(),
        ensures
            r@ == self@.0,
    {
        self.split().0
    }

    /// The back and the front as two mutable slices. What the vector holds afterwards is
    /// stated for slices that kept their lengths, as every mutable slice does.
    pub fn split_mut(&mut self) -> (r: (&mut [T], &mut [T]))
        requires
            old(self).wf(),
        ensures
            r.0@ == old(self)@.0,
            r.1@ == old(self)@.1,
            final(self).spec_capacity() == old(self).spec_capacity(),
            final(r.0)@.len() == r.0@.len() && final(r.1)@.len() == r.1@.len() ==> final(self).wf()
                && final(self)@ == (final(r.0)@, final(r.1)@),
    {
        let mid = self.len_back();
        let ghost s = self.memory.storage@;
        let r = self.memory.storage.as_mut_slice().split_at_mut(mid);
        proof {
            assert(final(r.0)@.len() == r.0@.len() && final(r.1)@.len() == r.1@.len() ==> (
                final(r.0)@ + final(r.1)@).subrange(0, mid as int) =~= final(r.0)@);
            assert(final(r.0)@.len() == r.0@.len() && final(r.1)@.len() == r.1@.len() ==> (
                final(r.0)@ + final(r.1)@).subrange(mid as int, s.len() as int) =~= final(r.1)@);
        }
        r
    }

    /// The front as a mutable slice. What the vector holds afterwards is stated for a slice
    /// that kept its length, as every mutable slice does.
    pub fn front_mut(&mut self) -> (r: &mut [T])
        requires
            old(self).wf(),
        ensures
            r@ == old(self)@.1,
            final(self).spec_capacity() == old(self).spec_capacity(),
            final(r)@.len() == r@.len() ==> final(self).wf() && final(self)@ == (
                old(self)@.0,
                final(r)@,
            ),
    {
        self.split_mut().1
    }

    /// The back as a mutable slice, in index order. What the vector holds afterwards is
    /// stated for a slice that kept its length, as every mutable slice does.
    pub fn back_mut(&mut self) -> (r: &mut [T])
        requires
            old(self).wf(),
        ensures
            r@ == old(self)@.0,
            final(self).spec_capacity() == old(self).spec_capacity(),
            final(r)@.len() == r@.len() ==> final(self).wf() && final(self)@ == (
                final(r)@,
                old(self)@.1,
            ),
    {
        self.split_mut().0
    }

    /// The `[start, end)` range of the indexes.
    pub fn range(&self) -> (r: core::ops::Range<isize>)
        requires
            self.wf(),
        ensures
            r.start == -(self@.0.len() as int),
            r.end == self@.1.len(),
    {
        self.start_index..self.end_index
    }

    /// All elements, back then front, in index order.
    pub fn entire(&self) -> (r: &[T])
        requires
            self.wf(),
        ensures
            r@ == self@.0 + self@.1,
    {
        proof {
            assert(self.memory.storage@ =~= self@.0 + self@.1);
        }
        self.memory.storage.as_slice()
    }

    /// An iterator over all elements, back then front, in index order.
    pub fn iter_entire(&self) -> (r: core::slice::Iter<'_, T>)
        requires
            self.wf(),
        ensures
            vstd::std_specs::slice::into_iter_elts(r) == self.spec_entire(),
    {
        let all = self.entire();
        let r = all.iter();
        proof {
            broadcast use vstd::std_specs::slice::group_slice_axioms;
            assert(all@.as_ref().unref() =~= all@);
        }
        r
    }

    /// The back elements paired with their (negative) indexes, from `start()` on.
    pub fn enumerate_back(&self) -> (r: SignedEnumerate<'_, T>)
        requires
            self.wf(),
        ensures
            r.wf(),
            r.remaining() == Seq::new(
                self@.0.len(),
                |k: int| (k - self@.0.len(), self@.0[k]),
            ),
    {
        let r = SignedEnumerate::new(self.start_index, self.back());
        assert(r.remaining() =~= Seq::new(self@.0.len(), |k: int| (k - self@.0.len(), self@.0[k])));
        r
    }

    /// The front elements paired with their indexes, from `0` on.
    pub fn enumerate_front(&self) -> (r: SignedEnumerate<'_, T>)
        requires
            self.wf(),
        ensures
            r.wf(),
            r.remaining() == Seq::new(self@.1.len(), |k: int| (k, self@.1[k])),
    {
        SignedEnumerate::new(0, self.front())
    }

    /// All elements paired with their signed indexes, from `start()` on.
    pub fn enumerate(&self) -> (r: SignedEnumerate<'_, T>)
        requires
            self.wf(),
        ensures
            r.wf(),
            r.remaining() == Seq::new(
                self.spec_entire().len(),
                |k: int| (k - self@.0.len(), self.spec_entire()[k]),
            ),
    {
        let r = SignedEnumerate::new(self.start(), self.entire());
        assert(r.remaining() =~= Seq::new(
            self.spec_entire().len(),
            |k: int| (k - self@.0.len(), self.spec_entire()[k]),
        ));
        r
    }

    /// The element at a signed index, if the index is in `[start, end)`.
    pub fn get(&self, index: isize) -> (r: Option<&T>)
        requires
            self.wf(),
        ensures
            index_in_bounds(self@, index as int) ==> r == Some(&element_at(self@, index as int)),
            !index_in_bounds(self@, index as int) ==> r is None,
    {
        if index >= self.start_index && index < self.end_index {
            let offset = (index - self.start_index) as usize;
            Some(&self.memory.storage[offset])
        } else {
            None
        }
    }

    /// The elements that `index` selects, if it lies within the indexes of this vector.
    pub fn get_range<I: TwoSidedIndex<T>>(&self, index: I) -> (r: Option<&[T]>)
        requires
            self.wf(),
        ensures
            index.spec_check(-(self@.0.len() as int), self@.1.len() as int) ==> r is Some
                && r->0@ == self.spec_entire().subrange(
                index.spec_span(-(self@.0.len() as int), self@.1.len() as int).0 + self@.0.len(),
                index.spec_span(-(self@.0.len() as int), self@.1.len() as int).1 + self@.0.len(),
            ),
            !index.spec_check(-(self@.0.len() as int), self@.1.len() as int) ==> r is None,
    {
        if index.check(self) {
            let (first, last) = index.span(self);
            proof {
                assert(self.memory.storage@ =~= self@.0 + self@.1);
            }
            let all = self.memory.storage.as_slice();
            let from = (first - self.start_index) as usize;
            let to = (last - self.start_index) as usize;
            Some(vstd::slice::slice_subrange(all, from, to))
        } else {
            None
        }
    }

    /// The elements that `index` selects, as a mutable slice, if it lies within the indexes
    /// of this vector. What the vector holds afterwards is stated for a slice that kept its
    /// length, as every mutable slice does: the selected run is replaced by the slice's final
    /// contents and nothing else changes.
    pub fn get_range_mut<I: TwoSidedIndex<T>>(&mut self, index: I) -> (r: Option<&mut [T]>)
        requires
            old(self).wf(),
        ensures
            final(self).spec_capacity() == old(self).spec_capacity(),
            index.spec_check(-(old(self)@.0.len() as int), old(self)@.1.len() as int) ==> {
                let first = index.spec_span(-(old(self)@.0.len() as int), old(self)@.1.len() as int).0
                    + old(self)@.0.len();
                let last = index.spec_span(-(old(self)@.0.len() as int), old(self)@.1.len() as int).1
                    + old(self)@.0.len();
                let all = old(self).spec_entire();
                &&& r is Some
                &&& r->0@ == all.subrange(first, last)
                &&& final(r->0)@.len() == r->0@.len() ==> {
                    &&& final(self).wf()
                    &&& final(self)@.0.len() == old(self)@.0.len()
                    &&& final(self).spec_entire() == all.subrange(0, first) + final(r->0)@
                        + all.subrange(last, all.len() as int)
                }
            },
            !index.spec_check(-(old(self)@.0.len() as int), old(self)@.1.len() as int) ==> r is None
                && final(self).wf() && final(self)@ == old(self)@,
    {
        if index.check(self) {
            let (first, last) = index.span(self);
            let from = (first - self.start_index) as usize;
            let to = (last - self.start_index) as usize;
            let ghost s = self.memory.storage@;
            let ghost mid = -self.start_index;
            proof {
                assert(s =~= self@.0 + self@.1);
            }
            let all = self.memory.storage.as_mut_slice();
            let (left, rest) = all.split_at_mut(to);
            let (before, selected) = left.split_at_mut(from);
            proof {
                assert(final(selected)@.len() == selected@.len() ==> (before@ + final(selected)@
                    + rest@).subrange(0, mid) + (before@ + final(selected)@ + rest@).subrange(
                    mid,
                    s.len() as int,
                ) =~= s.subrange(0, from as int) + final(selected)@ + s.subrange(
                    to as int,
                    s.len() as int,
                ));
            }
            Some(selected)
        } else {
            None
        }
    }

    /// A mutable reference to the element at a signed index, if the index is in `[start, end)`.
    pub fn get_mut(&mut self, index: isize) -> (r: Option<&mut T>)
        requires
            old(self).wf(),
        ensures
            final(self).spec_capacity() == old(self).spec_capacity(),
            final(self).wf(),
            index_in_bounds(old(self)@, index as int) ==> r is Some && *r->0 == element_at(
                old(self)@,
                index as int,
            ) && final(self)@ == updated_at(old(self)@, index as int, *final(r->0)),
            !index_in_bounds(old(self)@, index as int) ==> r is None && final(self)@ == old(
                self,
            )@,
    {
        if index >= self.start_index && index < self.end_index {
            let offset = (index - self.start_index) as usize;
            let ghost s = self.memory.storage@;
            let ghost mid = -self.start_index;
            let r = &mut self.memory.storage[offset];
            proof {
                let u = s.update(offset as int, *final(r));
                assert(updated_at((s.subrange(0, mid), s.subrange(mid, s.len() as int)), index as int, *final(r)).0
                    =~= u.subrange(0, mid));
                assert(updated_at((s.subrange(0, mid), s.subrange(mid, s.len() as int)), index as int, *final(r)).1
                    =~= u.subrange(mid, s.len() as int));
            }
            Some(r)
        } else {
            None
        }
    }

    /// The elements before a signed index, and those from it on; the index must lie in
    /// `[start, end]`.
    pub fn split_at(&self, index: isize) -> (r: (&[T], &[T]))
        requires
            self.wf(),
            -self@.0.len() <= index <= self@.1.len(),
        ensures
            r.0@ == self.spec_entire().subrange(0, index + self@.0.len()),
            r.1@ == self.spec_entire().subrange(
                index + self@.0.len(),
                self.spec_entire().len() as int,
            ),
    {
        proof {
            assert(self.memory.storage@ =~= self@.0 + self@.1);
        }
        let offset = (index - self.start_index) as usize;
        self.memory.storage.as_slice().split_at(offset)
    }

    /// Removes every element, back first (from `start()` towards the middle), then front
    /// (from `end() - 1` towards the middle). The capacity stays.
    pub fn clear(&mut self)
        requires
            old(self).wf(),
        ensures
            final(self).wf(),
            final(self)@ == (Seq::<T>::empty(), Seq::<T>::empty()),
            final(self).spec_capacity() == old(self).spec_capacity(),
    {
        while self.start_index < 0
            invariant
                self.wf(),
                self@.1 == old(self)@.1,
                self.spec_capacity() == old(self).spec_capacity(),
            decreases self@.0.len(),
        {
            let value = self.pop_back();
        }
        while self.end_index > 0
            invariant
                self.wf(),
                self@.0.len() == 0,
                self.spec_capacity() == old(self).spec_capacity(),
            decreases self@.1.len(),
        {
            let value = self.pop_front();
        }
        proof {
            assert(self@.0 =~= Seq::<T>::empty());
            assert(self@.1 =~= Seq::<T>::empty());
        }
    }

    /// Keeps only the `len` back elements nearest the middle, dropping the others from
    /// `start()` on. The front and the capacity stay.
    pub fn truncate_back(&mut self, len: usize)
        requires
            old(self).wf(),
        ensures
            final(self).wf(),
            final(self)@.1 == old(self)@.1,
            final(self)@.0 == if old(self)@.0.len() > len {
                old(self)@.0.subrange(old(self)@.0.len() - len, old(self)@.0.len() as int)
            } else {
                old(self)@.0
            },
            final(self).spec_capacity() == old(self).spec_capacity(),
    {
        while self.len_back() > len
            invariant
                self.wf(),
                self@.1 == old(self)@.1,
                self.spec_capacity() == old(self).spec_capacity(),
                self@.0.len() >= len || self@.0 == old(self)@.0,
                self@.0.len() <= old(self)@.0.len(),
                self@.0 == old(self)@.0.subrange(
                    old(self)@.0.len() - self@.0.len(),
                    old(self)@.0.len() as int,
                ),
            decreases self@.0.len(),
        {
            let value = self.pop_back();
        }
        proof {
            if old(self)@.0.len() <= len {
                assert(self@.0 =~= old(self)@.0);
            }
        }
    }

    /// Keeps only the first `len` front elements, dropping the others from `end() - 1`
    /// downwards. The back and the capacity stay.
    pub fn truncate_front(&mut self, len: usize)
        requires
            old(self).wf(),
        ensures
            final(self).wf(),
            final(self)@.0 == old(self)@.0,
            final(self)@.1 == if old(self)@.1.len() > len {
                old(self)@.1.subrange(0, len as int)
            } else {
                old(self)@.1
            },
            final(self).spec_capacity() == old(self).spec_capacity(),
    {
        while self.len_front() > len
            invariant
                self.wf(),
                self@.0 == old(self)@.0,
                self.spec_capacity() == old(self).spec_capacity(),
                self@.1.len() <= old(self)@.1.len(),
                self@.1.len() >= len || self@.1 == old(self)@.1,
                self@.1 == old(self)@.1.subrange(0, self@.1.len() as int),
            decreases self@.1.len(),
        {
            let value = self.pop_front();
        }
        proof {
            if old(self)@.1.len() <= len {
                assert(self@.1 =~= old(self)@.1);
            }
        }
    }

    /// Appends `items` to the front, in order, within the slots the front already has.
    pub(crate) fn append_front(&mut self, items: &mut Vec<T>)
        requires
            old(self).wf(),
            old(self)@.1.len() + old(items)@.len() <= old(self).spec_capacity().front,
        ensures
            final(self).wf(),
            final(self)@ == (old(self)@.0, old(self)@.1 + old(items)@),
            final(self).spec_capacity() == old(self).spec_capacity(),
            final(items)@ == Seq::<T>::empty(),
    {
        let ghost s = self.memory.storage@;
        let ghost mid = -self.start_index;
        let n = items.len();
        self.memory.storage.append(items);
        self.end_index = self.end_index + n as isize;
        proof {
            let t = self.memory.storage@;
            assert(t.subrange(0, mid) =~= s.subrange(0, mid));
            assert(t.subrange(mid, t.len() as int) =~= s.subrange(mid, s.len() as int) + old(
                items,
            )@);
        }
    }

    /// Puts `items`, in their order, before the back, within the slots the back already has.
    pub(crate) fn prepend_back(&mut self, items: Vec<T>)
        requires
            old(self).wf(),
            old(self)@.0.len() + items@.len() <= old(self).spec_capacity().back,
        ensures
            final(self).wf(),
            final(self)@ == (items@ + old(self)@.0, old(self)@.1),
            final(self).spec_capacity() == old(self).spec_capacity(),
    {
        let ghost s = self.memory.storage@;
        let ghost mid = -self.start_index;
        let n = items.len();
        let mut joined = items;
        let ghost front_items = joined@;
        joined.append(&mut self.memory.storage);
        self.memory.storage = joined;
        self.start_index = self.start_index - n as isize;
        proof {
            let t = self.memory.storage@;
            assert(t =~= front_items + s);
            assert(t.subrange(0, mid + n) =~= front_items + s.subrange(0, mid));
            assert(t.subrange(mid + n, t.len() as int) =~= s.subrange(mid, s.len() as int));
        }
    }

    /// Starts a filtering pass over the front: the front is taken out, so that the vector
    /// reads as having an empty front (`end()` is `0`) until the pass puts kept elements back.
    /// `pred` is not called here; each call of `next` on the returned pass visits front
    /// elements in index order from `0`, puts the ones for which `pred` does not hold back in
    /// the front, and hands out the next one for which it holds. `finish` visits all the
    /// rest. Kept elements are back in the front as soon as they are visited; elements never
    /// visited (a pass dropped before it ends) are dropped with the pass.
    pub fn drain_filter_front<'a, F: Fn(isize, &T) -> bool>(&'a mut self, pred: F) -> (r:
        DrainFilterFront<'a, T, F>)
        requires
            old(self).wf(),
            forall|i: isize, x: T| #[trigger] pred.requires((i, &x)),
        ensures
            r.wf(),
            r.vector()@ == (old(self)@.0, Seq::<T>::empty()),
            r.vector().spec_capacity() == old(self).spec_capacity(),
            r.unvisited() == old(self)@.1,
            r.next_index() == 0,
            r.predicate() == pred,
            mut_ref_future(r.target()) == *final(self),
    {
        let ghost old_back = self@.0;
        let ghost old_front = self@.1;
        let mid = self.len_back();
        let front = self.memory.storage.split_off(mid);
        self.end_index = 0;
        proof {
            assert(front@ =~= old_front);
            assert(self@.0 =~= old_back);
            assert(self@.1 =~= Seq::<T>::empty());
        }
        let pending = reversed(front);
        proof {
            assert(pending@.reverse() =~= old_front);
        }
        DrainFilterFront::new(self, pred, pending)
    }

    /// Starts a filtering pass over the back: the back is taken out, so that the vector reads
    /// as having an empty back (`start()` is `0`) until the pass puts kept elements back.
    /// `pred` is not called here; each call of `next` on the returned pass visits back
    /// elements from index `-1` down to the old `start()`, puts the ones for which `pred` does
    /// not hold back (they stay in order and end at `-1`), and hands out the next one for
    /// which it holds. `finish` visits all the rest. Kept elements are back as soon as they
    /// are visited; elements never visited (a pass dropped before it ends) are dropped with
    /// the pass.
    pub fn drain_filter_back<'a, F: Fn(isize, &T) -> bool>(&'a mut self, pred: F) -> (r:
        DrainFilterBack<'a, T, F>)
        requires
            old(self).wf(),
            forall|i: isize, x: T| #[trigger] pred.requires((i, &x)),
        ensures
            r.wf(),
            r.vector()@ == (Seq::<T>::empty(), old(self)@.1),
            r.vector().spec_capacity() == old(self).spec_capacity(),
            r.unvisited() == old(self)@.0.reverse(),
            r.next_index() == 0,
            r.predicate() == pred,
            mut_ref_future(r.target()) == *final(self),
    {
        let ghost old_back = self@.0;
        let ghost old_front = self@.1;
        let mid = self.len_back();
        let mut pending = self.memory.storage.split_off(mid);
        core::mem::swap(&mut pending, &mut self.memory.storage);
        self.start_index = 0;
        proof {
            assert(pending@ =~= old_back);
            assert(self@.0 =~= Seq::<T>::empty());
            assert(self@.1 =~= old_front);
        }
        DrainFilterBack::new(self, pred, pending)
    }

    /// Keeps only the front elements for which `pred` holds, visiting the front in index
    /// order from `0`; the kept elements stay in order from index `0`.
    pub fn retain_front<F: Fn(isize, &T) -> bool>(&mut self, pred: F)
        requires
            old(self).wf(),
            forall|i: isize, x: T| #[trigger] pred.requires((i, &x)),
        ensures
            final(self).wf(),
            final(self)@.0 == old(self)@.0,
            final(self).spec_capacity() == old(self).spec_capacity(),
            exists|kept: Seq<bool>|
                {
                    &&& kept.len() == old(self)@.1.len()
                    &&& forall|k: int|
                        0 <= k < kept.len() ==> #[trigger] pred.ensures(
                            (k as isize, &old(self)@.1[k]),
                            kept[k],
                        )
                    &&& final(self)@.1 == select(old(self)@.1, kept)
                },
    {
        let ghost old_front = self@.1;
        let spec_pred: Ghost<F> = Ghost(pred);
        let reject = |index: isize, element: &T| -> (b: bool)
            requires
                spec_pred@.requires((index, element)),
            ensures
                spec_pred@.ensures((index, element), !b),
            { !pred(index, element) };
        let pass = self.drain_filter_front(reject);
        pass.finish();
        proof {
            assert(mut_ref_future(pass.target()) == *self);
            assert(pass.vector()@.1 == Seq::<T>::empty());
            let taken = choose|taken: Seq<bool>|
                {
                    &&& taken.len() == pass.unvisited().len()
                    &&& forall|j: int|
                        0 <= j < taken.len() ==> #[trigger] pass.predicate().ensures(
                            ((pass.next_index() + j) as isize, &pass.unvisited()[j]),
                            taken[j],
                        )
                    &&& mut_ref_future(pass.target())@ == (
                        pass.vector()@.0,
                        pass.vector()@.1 + select(pass.unvisited(), negate(taken)),
                    )
                };
            assert(Seq::<T>::empty() + select(old_front, negate(taken)) =~= select(
                old_front,
                negate(taken),
            ));
            let kept = negate(taken);
            assert(self@.1 =~= select(old_front, kept));
            assert forall|k: int|
                0 <= k < kept.len() implies #[trigger] spec_pred@.ensures(
                (k as isize, &old_front[k]),
                kept[k],
            ) by {
                assert(pass.predicate().ensures(
                    ((pass.next_index() + k) as isize, &pass.unvisited()[k]),
                    taken[k],
                ));
                assert(reject.ensures((k as isize, &old_front[k]), taken[k]));
            }
        }
    }

    /// Keeps only the back elements for which `pred` holds, visiting the back from index
    /// `-1` down to `start()`; the kept elements stay in order and end at index `-1`.
    pub fn retain_back<F: Fn(isize, &T) -> bool>(&mut self, pred: F)
        requires
            old(self).wf(),
            forall|i: isize, x: T| #[trigger] pred.requires((i, &x)),
        ensures
            final(self).wf(),
            final(self)@.1 == old(self)@.1,
            final(self).spec_capacity() == old(self).spec_capacity(),
            exists|kept: Seq<bool>|
                {
                    &&& kept.len() == old(self)@.0.len()
                    &&& forall|k: int|
                        0 <= k < kept.len() ==> #[trigger] pred.ensures(
                            ((k - old(self)@.0.len()) as isize, &old(self)@.0[k]),
                            kept[k],
                        )
                    &&& final(self)@.0 == select(old(self)@.0, kept)
                },
    {
        let ghost old_back = self@.0;
        let ghost rb = old_back.reverse();
        let spec_pred: Ghost<F> = Ghost(pred);
        let reject = |index: isize, element: &T| -> (b: bool)
            requires
                spec_pred@.requires((index, element)),
            ensures
                spec_pred@.ensures((index, element), !b),
            { !pred(index, element) };
        let pass = self.drain_filter_back(reject);
        pass.finish();
        proof {
            assert(mut_ref_future(pass.target()) == *self);
            assert(pass.vector()@.0 == Seq::<T>::empty());
            let taken_rev = choose|taken: Seq<bool>|
                {
                    &&& taken.len() == pass.unvisited().len()
                    &&& forall|j: int|
                        0 <= j < taken.len() ==> #[trigger] pass.predicate().ensures(
                            ((-(pass.next_index() + j + 1)) as isize, &pass.unvisited()[j]),
                            taken[j],
                        )
                    &&& mut_ref_future(pass.target())@ == (
                        select(pass.unvisited(), negate(taken)).reverse() + pass.vector()@.0,
                        pass.vector()@.1,
                    )
                };
            assert(select(rb, negate(taken_rev)).reverse() + Seq::<T>::empty() =~= select(
                rb,
                negate(taken_rev),
            ).reverse());
            let n = rb.len();
            let taken = taken_rev.reverse();
            let kept = negate(taken);
            assert(rb.reverse() =~= old_back);
            assert(negate(taken).reverse() =~= negate(taken_rev));
            lemma_select_reverse(old_back, negate(taken));
            assert(self@.0 =~= select(old_back, kept));
            assert forall|k: int|
                0 <= k < kept.len() implies #[trigger] spec_pred@.ensures(
                ((k - old_back.len()) as isize, &old_back[k]),
                kept[k],
            ) by {
                let m = n - 1 - k;
                assert(rb[m] == old_back[k]);
                assert(taken[k] == taken_rev[m]);
                assert(-(m + 1) == k - old_back.len());
                assert(pass.predicate().ensures(
                    ((-(pass.next_index() + m + 1)) as isize, &pass.unvisited()[m]),
                    taken_rev[m],
                ));
                assert(reject.ensures(((-(m + 1)) as isize, &rb[m]), taken_rev[m]));
            }
        }
    }

    /// Keeps only the elements for which `pred` holds: the back is visited first, from
    /// index `-1` down to `start()`, then the front from `0` upwards. Kept elements keep
    /// their order on their own side of the middle.
    pub fn retain<F: Fn(isize, &T) -> bool>(&mut self, pred: F)
        requires
            old(self).wf(),
            forall|i: isize, x: T| #[trigger] pred.requires((i, &x)),
        ensures
            final(self).wf(),
            final(self).spec_capacity() == old(self).spec_capacity(),
            exists|kept_back: Seq<bool>, kept_front: Seq<bool>|
                {
                    &&& kept_back.len() == old(self)@.0.len()
                    &&& kept_front.len() == old(self)@.1.len()
                    &&& forall|k: int|
                        0 <= k < kept_back.len() ==> #[trigger] pred.ensures(
                            ((k - old(self)@.0.len()) as isize, &old(self)@.0[k]),
                            kept_back[k],
                        )
                    &&& forall|k: int|
                        0 <= k < kept_front.len() ==> #[trigger] pred.ensures(
                            (k as isize, &old(self)@.1[k]),
                            kept_front[k],
                        )
                    &&& final(self)@ == (
                        select(old(self)@.0, kept_back),
                        select(old(self)@.1, kept_front),
                    )
                },
    {
        let spec_pred: Ghost<F> = Ghost(pred);
        let ghost old_back = self@.0;
        let ghost old_front = self@.1;
        let keep_back = |index: isize, element: &T| -> (b: bool)
            requires
                spec_pred@.requires((index, element)),
            ensures
                spec_pred@.ensures((index, element), b),
            { pred(index, element) };
        self.retain_back(keep_back);
        let ghost new_back = self@.0;
        let keep_front = |index: isize, element: &T| -> (b: bool)
            requires
                spec_pred@.requires((index, element)),
            ensures
                spec_pred@.ensures((index, element), b),
            { pred(index, element) };
        self.retain_front(keep_front);
        proof {
            let kept_back = choose|kept: Seq<bool>|
                {
                    &&& kept.len() == old_back.len()
                    &&& forall|k: int|
                        0 <= k < kept.len() ==> #[trigger] keep_back.ensures(
                            ((k - old_back.len()) as isize, &old_back[k]),
                            kept[k],
                        )
                    &&& new_back == select(old_back, kept)
                };
            let kept_front = choose|kept: Seq<bool>|
                {
                    &&& kept.len() == old_front.len()
                    &&& forall|k: int|
                        0 <= k < kept.len() ==> #[trigger] keep_front.ensures(
                            (k as isize, &old_front[k]),
                            kept[k],
                        )
                    &&& self@.1 == select(old_front, kept)
                };
            assert forall|k: int|
                0 <= k < kept_back.len() implies #[trigger] spec_pred@.ensures(
                ((k - old_back.len()) as isize, &old_back[k]),
                kept_back[k],
            ) by {
                assert(keep_back.ensures(((k - old_back.len()) as isize, &old_back[k]), kept_back[k]));
            }
            assert forall|k: int|
                0 <= k < kept_front.len() implies #[trigger] spec_pred@.ensures(
                (k as isize, &old_front[k]),
                kept_front[k],
            ) by {
                assert(keep_front.ensures((k as isize, &old_front[k]), kept_front[k]));
            }
            assert(self@ == (select(old_back, kept_back), select(old_front, kept_front)));
        }
    }

    /// Pushes each of `items`, in order, to the back, after making room for all of them.
    #[verifier::rlimit(30)]
    pub(crate) fn default_extend_back(&mut self, items: Vec<T>)
        requires
            old(self).wf(),
            old(self).spec_capacity().back - old(self)@.0.len() >= items@.len()
                || old(self)@.0.len() + old(self)@.1.len() + items@.len() <= isize::MAX,
        ensures
            final(self).wf(),
            final(self)@ == (items@.reverse() + old(self)@.0, old(self)@.1),
            final(self).spec_capacity() == reserved_capacity(
                old(self).spec_capacity(),
                CapacityRequest {
                    used: used_capacity(old(self)@),
                    needed: Capacity { back: items@.len() as usize, front: 0 },
                },
            ),
    {
        let ghost all = items@;
        self.reserve_back(items.len());
        let ghost reserved = self.spec_capacity();
        let mut pending = reversed(items);
        let n = pending.len();
        proof {
            assert(all.subrange(0, 0).reverse() + old(self)@.0 =~= old(self)@.0);
        }
        while pending.len() > 0
            invariant
                self.wf(),
                n == all.len(),
                pending@.len() <= n,
                pending@ == all.subrange(n - pending@.len(), n as int).reverse(),
                self@ == (
                    all.subrange(0, n - pending@.len()).reverse() + old(self)@.0,
                    old(self)@.1,
                ),
                self.spec_capacity() == reserved,
                reserved.back - self@.0.len() >= pending@.len(),
                reserved.spec_total() <= isize::MAX,
            decreases pending@.len(),
        {
            let ghost done = n - pending@.len();
            let x = pending.pop().unwrap();
            proof {
                assert(x == all[done]);
                assert(pending@ =~= all.subrange(n - pending@.len(), n as int).reverse());
            }
            self.push_back(x);
            proof {
                assert(all.subrange(0, done + 1).reverse() =~= seq![x] + all.subrange(0, done).reverse());
                assert(seq![x] + (all.subrange(0, done).reverse() + old(self)@.0) =~= (seq![x]
                    + all.subrange(0, done).reverse()) + old(self)@.0);
            }
        }
        proof {
            assert(all.subrange(0, n as int) =~= all);
        }
    }

    /// Pushes each of `items`, in order, to the front, after making room for all of them.
    #[verifier::rlimit(30)]
    pub(crate) fn default_extend_front(&mut self, items: Vec<T>)
        requires
            old(self).wf(),
            old(self).spec_capacity().front - old(self)@.1.len() >= items@.len()
                || old(self)@.0.len() + old(self)@.1.len() + items@.len() <= isize::MAX,
        ensures
            final(self).wf(),
            final(self)@ == (old(self)@.0, old(self)@.1 + items@),
            final(self).spec_capacity() == reserved_capacity(
                old(self).spec_capacity(),
                CapacityRequest {
                    used: used_capacity(old(self)@),
                    needed: Capacity { back: 0, front: items@.len() as usize },
                },
            ),
    {
        let ghost all = items@;
        self.reserve_front(items.len());
        let ghost reserved = self.spec_capacity();
        let mut pending = reversed(items);
        let n = pending.len();
        proof {
            assert(old(self)@.1 + all.subrange(0, 0) =~= old(self)@.1);
        }
        while pending.len() > 0
            invariant
                self.wf(),
                n == all.len(),
                pending@.len() <= n,
                pending@ == all.subrange(n - pending@.len(), n as int).reverse(),
                self@ == (old(self)@.0, old(self)@.1 + all.subrange(0, n - pending@.len())),
                self.spec_capacity() == reserved,
                reserved.front - self@.1.len() >= pending@.len(),
                reserved.spec_total() <= isize::MAX,
            decreases pending@.len(),
        {
            let ghost done = n - pending@.len();
            let x = pending.pop().unwrap();
            proof {
                assert(x == all[done]);
                assert(pending@ =~= all.subrange(n - pending@.len(), n as int).reverse());
            }
            self.push_front(x);
            proof {
                assert(old(self)@.1 + all.subrange(0, done + 1) =~= (old(self)@.1 + all.subrange(
                    0,
                    done,
                )).push(x));
            }
        }
        proof {
            assert(all.subrange(0, n as int) =~= all);
        }
    }

    /// Asks the buffer for `front` more slots in front and `back` more behind.
    fn grow(&mut self, front: usize, back: usize)
        requires
            old(self).wf(),
            old(self)@.0.len() + back <= usize::MAX,
            old(self)@.1.len() + front <= usize::MAX,
            !old(self).spec_capacity().spec_can_fit(
                used_capacity(old(self)@).spec_add(Capacity { front, back }),
            ) ==> old(self)@.0.len() + back + old(self)@.1.len() + front <= isize::MAX,
        ensures
            final(self).wf(),
            final(self)@ == old(self)@,
            final(self).spec_capacity() == reserved_capacity(
                old(self).spec_capacity(),
                CapacityRequest { used: used_capacity(old(self)@), needed: Capacity { front, back } },
            ),
    {
        let request = CapacityRequest {
            used: Capacity { back: self.len_back(), front: self.len_front() },
            needed: Capacity { front, back },
        };
        self.memory.reserve(request);
    }

    /// Makes room for at least `amount` more elements in front; where they do not fit, the
    /// front is given exactly its length plus `amount` slots and the back its length.
    pub fn reserve_front(&mut self, amount: usize)
        requires
            old(self).wf(),
            old(self).spec_capacity().front - old(self)@.1.len() >= amount
                || old(self)@.0.len() + old(self)@.1.len() + amount <= isize::MAX,
        ensures
            final(self).wf(),
            final(self)@ == old(self)@,
            final(self).spec_capacity() == reserved_capacity(
                old(self).spec_capacity(),
                CapacityRequest {
                    used: used_capacity(old(self)@),
                    needed: Capacity { back: 0, front: amount },
                },
            ),
            final(self).spec_capacity().front - final(self)@.1.len() >= amount,
    {
        let sane: bool = self.check_sanity();
        assert(sane);
        if !self.can_fit_front(amount) {
            self.grow(amount, 0);
        }
    }

    /// Makes room for at least `amount` more elements behind; where they do not fit, the
    /// back is given exactly its length plus `amount` slots and the front its length.
    pub fn reserve_back(&mut self, amount: usize)
        requires
            old(self).wf(),
            old(self).spec_capacity().back - old(self)@.0.len() >= amount
                || old(self)@.0.len() + old(self)@.1.len() + amount <= isize::MAX,
        ensures
            final(self).wf(),
            final(self)@ == old(self)@,
            final(self).spec_capacity() == reserved_capacity(
                old(self).spec_capacity(),
                CapacityRequest {
                    used: used_capacity(old(self)@),
                    needed: Capacity { back: amount, front: 0 },
                },
            ),
            final(self).spec_capacity().back - final(self)@.0.len() >= amount,
    {
        let sane: bool = self.check_sanity();
        assert(sane);
        if !self.can_fit_back(amount) {
            self.grow(0, amount);
        }
    }
}

impl<T> Default for RawTwoSidedVec<T> {
    /// An empty buffer with no slots. A zero-sized element type gives a buffer that is not
    /// well formed, on which no operation can be called.
    fn default() -> (r: Self)
        ensures
            vstd::layout::size_of::<T>() != 0 ==> r.wf(),
            r@ == Seq::<T>::empty(),
            r.spec_capacity() == Capacity::empty_spec(),
    {
        RawTwoSidedVec { storage: Vec::new(), capacity: Capacity::empty() }
    }
}

impl<T> Default for TwoSidedVec<T> {
    /// An empty vector with no room on either side. A zero-sized element type gives a vector
    /// that is not well formed, on which no operation can be called.
    fn default() -> (r: Self)
        ensures
            vstd::layout::size_of::<T>() != 0 ==> r.wf(),
            r@ == (Seq::<T>::empty(), Seq::<T>::empty()),
            r.spec_capacity() == Capacity::empty_spec(),
    {
        let r = TwoSidedVec {
            memory: RawTwoSidedVec { storage: Vec::new(), capacity: Capacity::empty() },
            start_index: 0,
            end_index: 0,
        };
        assert(r@.0 =~= Seq::<T>::empty());
        assert(r@.1 =~= Seq::<T>::empty());
        r
    }
}

impl<T: Clone> Clone for TwoSidedVec<T> {
    /// A copy whose elements are clones of these, at the same indexes, with exactly as many
    /// slots on each side as there are elements.
    fn clone(&self) -> (r: Self)
        ensures
            self.wf() ==> {
                &&& r.wf()
                &&& r@.0.len() == self@.0.len()
                &&& r@.1.len() == self@.1.len()
                &&& forall|i: int| 0 <= i < r@.0.len() ==> cloned::<T>(self@.0[i], #[trigger] r@.0[i])
                &&& forall|i: int| 0 <= i < r@.1.len() ==> cloned::<T>(self@.1[i], #[trigger] r@.1[i])
                &&& r.spec_capacity() == used_capacity(self@)
            },
    {
        let storage = self.memory.storage.clone();
        let start = self.start_index;
        let end = self.end_index;
        let back: usize = if start <= 0 && start > isize::MIN {
            (-start) as usize
        } else {
            0
        };
        let front: usize = if end >= 0 {
            end as usize
        } else {
            0
        };
        let r = TwoSidedVec {
            memory: RawTwoSidedVec { storage, capacity: Capacity { back, front } },
            start_index: start,
            end_index: end,
        };
        proof {
            if self.wf() {
                let mid = -start;
                assert forall|i: int| 0 <= i < r@.0.len() implies cloned::<T>(
                    self@.0[i],
                    #[trigger] r@.0[i],
                ) by {
                    assert(self@.0[i] == self.memory.storage@[i]);
                    assert(r@.0[i] == r.memory.storage@[i]);
                    assert(cloned::<T>(self.memory.storage[i], r.memory.storage[i]));
                }
                assert forall|i: int| 0 <= i < r@.1.len() implies cloned::<T>(
                    self@.1[i],
                    #[trigger] r@.1[i],
                ) by {
                    assert(self@.1[i] == self.memory.storage@[mid + i]);
                    assert(r@.1[i] == r.memory.storage@[mid + i]);
                    assert(cloned::<T>(self.memory.storage[mid + i], r.memory.storage[mid + i]));
                }
            }
        }
        r
    }
}

impl<T> TwoSidedVec<T> {
    /// `self` and `other` have the same first and last indexes, and their elements at each
    /// index are equal by `T`'s equality with `U`.
    pub closed spec fn same_elements<U>(&self, other: &TwoSidedVec<U>) -> bool where
        T: PartialEq<U>,
     {
        &&& self.start_index == other.start_index
        &&& self.end_index == other.end_index
        &&& self.memory.storage@.len() == other.memory.storage@.len()
        &&& forall|i: int|
            #![trigger self.memory.storage@[i]]
            0 <= i < self.memory.storage@.len() ==> self.memory.storage@[i].eq_spec(
                &other.memory.storage@[i],
            )
    }

    /// For well-formed vectors, equality means equal sides, element by element.
    pub proof fn lemma_same_elements<U>(&self, other: &TwoSidedVec<U>) where T: PartialEq<U>
        requires
            self.wf(),
            other.wf(),
        ensures
            self.same_elements(other) <==> {
                &&& self@.0.len() == other@.0.len()
                &&& self@.1.len() == other@.1.len()
                &&& forall|i: int|
                    0 <= i < self@.0.len() ==> #[trigger] self@.0[i].eq_spec(&other@.0[i])
                &&& forall|i: int|
                    0 <= i < self@.1.len() ==> #[trigger] self@.1[i].eq_spec(&other@.1[i])
            },
    {
        let mid = -self.start_index;
        if self@.0.len() == other@.0.len() && self@.1.len() == other@.1.len() && (forall|i: int|
            0 <= i < self@.0.len() ==> #[trigger] self@.0[i].eq_spec(&other@.0[i])) && (forall|
            i: int,
        |
            0 <= i < self@.1.len() ==> #[trigger] self@.1[i].eq_spec(&other@.1[i])) {
            assert forall|i: int|
                0 <= i < self.memory.storage@.len() implies #[trigger] self.memory.storage@[i].eq_spec(
                &other.memory.storage@[i],
            ) by {
                if i < mid {
                    assert(self@.0[i] == self.memory.storage@[i]);
                    assert(other@.0[i] == other.memory.storage@[i]);
                } else {
                    assert(self@.1[i - mid] == self.memory.storage@[i]);
                    assert(other@.1[i - mid] == other.memory.storage@[i]);
                }
            }
        }
        if self.same_elements(other) {
            assert forall|i: int| 0 <= i < self@.0.len() implies #[trigger] self@.0[i].eq_spec(
                &other@.0[i],
            ) by {
                assert(self@.0[i] == self.memory.storage@[i]);
                assert(other@.0[i] == other.memory.storage@[i]);
            }
            assert forall|i: int| 0 <= i < self@.1.len() implies #[trigger] self@.1[i].eq_spec(
                &other@.1[i],
            ) by {
                assert(self@.1[i] == self.memory.storage@[mid + i]);
                assert(other@.1[i] == other.memory.storage@[mid + i]);
            }
        }
    }
}

impl<T: PartialEq<U>, U> PartialEq<TwoSidedVec<U>> for TwoSidedVec<T> {
    /// Equal when both start and end at the same indexes and the elements at each index are
    /// equal; the back is compared first.
    fn eq(&self, other: &TwoSidedVec<U>) -> (r: bool) {
        if self.start_index == other.start_index && self.end_index == other.end_index {
            let n = self.memory.storage.len();
            if n != other.memory.storage.len() {
                return false;
            }
            let mut i: usize = 0;
            while i < n
                invariant
                    n == self.memory.storage@.len(),
                    n == other.memory.storage@.len(),
                    i <= n,
                    <T as PartialEqSpec<U>>::obeys_eq_spec() ==> forall|k: int|
                        #![trigger self.memory.storage@[k]]
                        0 <= k < i ==> self.memory.storage@[k].eq_spec(&other.memory.storage@[k]),
                decreases n - i,
            {
                if !(self.memory.storage[i] == other.memory.storage[i]) {
                    return false;
                }
                i = i + 1;
            }
            true
        } else {
            false
        }
    }
}

impl<T: PartialEq<U>, U> vstd::std_specs::cmp::PartialEqSpecImpl<TwoSidedVec<U>> for TwoSidedVec<T> {
    open spec fn obeys_eq_spec() -> bool {
        <T as PartialEqSpec<U>>::obeys_eq_spec()
    }

    open spec fn eq_spec(&self, other: &TwoSidedVec<U>) -> bool {
        self.same_elements(other)
    }
}

impl<T: Eq> Eq for TwoSidedVec<T> {

}

/// The number of elements `v` has room for without reallocating (`Vec::capacity`). It is
/// never less than the length and, as a `Vec` never allocates more than `isize::MAX` bytes,
/// at most `isize::MAX` for an element type that takes up space. The exact number is left to
/// the allocator and is not stated.
#[verifier::external_body]
fn vec_capacity<T>(v: &Vec<T>) -> (r: usize)
    ensures
        r >= v@.len(),
        vstd::layout::size_of::<T>() != 0 ==> r <= isize::MAX,
{
    v.capacity()
}

impl<T> From<Vec<T>> for TwoSidedVec<T> {
    /// Takes over `original` with its allocation: its elements become the front, the back is
    /// empty, and the front gets all the slots that `original` had. A zero-sized element type
    /// gives a vector that is not well formed, on which no operation can be called.
    fn from(original: Vec<T>) -> (r: Self)
        ensures
            vstd::layout::size_of::<T>() != 0 ==> {
                &&& r.wf()
                &&& r@ == (Seq::<T>::empty(), original@)
                &&& r.spec_capacity().back == 0
                &&& r.spec_capacity().front >= original@.len()
            },
    {
        let len = original.len();
        let capacity = vec_capacity(&original);
        let r = TwoSidedVec {
            memory: RawTwoSidedVec { storage: original, capacity: Capacity { back: 0, front: capacity } },
            end_index: len as isize,
            start_index: 0,
        };
        proof {
            assert(r@.0 =~= Seq::<T>::empty());
            assert(r@.1 =~= original@);
        }
        r
    }
}

impl<T> vstd::std_specs::convert::FromSpecImpl<Vec<T>> for TwoSidedVec<T> {
    /// The front capacity comes from the allocator, so no spec function gives the result;
    /// `from` states it in its own `ensures`.
    open spec fn obeys_from_spec() -> bool {
        false
    }

    open spec fn from_spec(v: Vec<T>) -> Self {
        vstd::pervasive::arbitrary()
    }
}

} // verus!
