//! Filtering passes over one side of a `TwoSidedVec`. A pass holds the vector while it
//! runs: the side it filters reads as empty when the pass starts, and each element it visits
//! either goes back to that side (when the predicate does not hold) or is handed out.
use vstd::prelude::*;

use crate::select::{lemma_select_push, negate, reversed, select};
use crate::TwoSidedVec;

verus! {

/// A filtering pass over the back, visiting it from index `-1` outwards.
pub struct DrainFilterBack<'a, T, F: Fn(isize, &T) -> bool> {
    vec: &'a mut TwoSidedVec<T>,
    pred: F,
    pending: Vec<T>,
    index: usize,
}

/// A filtering pass over the front, visiting it from index `0` upwards.
pub struct DrainFilterFront<'a, T, F: Fn(isize, &T) -> bool> {
    vec: &'a mut TwoSidedVec<T>,
    pred: F,
    pending: Vec<T>,
    index: usize,
}

impl<'a, T, F: Fn(isize, &T) -> bool> DrainFilterFront<'a, T, F> {
    /// The vector as it stands: the front holds the kept elements visited so far.
    pub closed spec fn vector(&self) -> TwoSidedVec<T> {
        *self.vec
    }

    /// The borrow of the vector that the pass holds.
    pub closed spec fn target(&self) -> &'a mut TwoSidedVec<T> {
        self.vec
    }

    /// The front elements not visited yet, next first.
    pub closed spec fn unvisited(&self) -> Seq<T> {
        self.pending@.reverse()
    }

    /// The index that the next visited element had in the front.
    pub closed spec fn next_index(&self) -> int {
        self.index as int
    }

    /// The predicate that selects the elements to hand out.
    pub closed spec fn predicate(&self) -> F {
        self.pred
    }

    /// The vector is well formed, every unvisited element can return to the front without
    /// growing it, and the predicate can be called on anything.
    pub closed spec fn wf(&self) -> bool {
        &&& self.vec.wf()
        &&& self.vec@.1.len() + self.pending@.len() <= self.vec.spec_capacity().front
        &&& self.index + self.pending@.len() <= isize::MAX
        &&& forall|i: isize, x: T| #[trigger] self.pred.requires((i, &x))
    }

    /// A pass over `pending` (in reverse order: the last is visited first), with the front of
    /// `vec` emptied.
    pub(crate) fn new(vec: &'a mut TwoSidedVec<T>, pred: F, pending: Vec<T>) -> (r: Self)
        requires
            old(vec).wf(),
            old(vec)@.1.len() == 0,
            pending@.len() <= old(vec).spec_capacity().front,
            forall|i: isize, x: T| #[trigger] pred.requires((i, &x)),
        ensures
            r.wf(),
            r.vector() == *old(vec),
            mut_ref_future(r.target()) == *final(vec),
            r.unvisited() == pending@.reverse(),
            r.next_index() == 0,
            r.predicate() == pred,
    {
        proof {
            vec.lemma_wf();
        }
        DrainFilterFront { vec, pred, pending, index: 0 }
    }

    /// Visits front elements in order, putting back those for which the predicate does not
    /// hold, until it meets one for which it holds; that one is handed out.
    pub fn next(&mut self) -> (r: Option<T>)
        requires
            old(self).wf(),
        ensures
            final(self).wf(),
            final(self).predicate() == old(self).predicate(),
            mut_ref_future(final(self).target()) == mut_ref_future(old(self).target()),
            final(self).vector()@.0 == old(self).vector()@.0,
            final(self).vector().spec_capacity() == old(self).vector().spec_capacity(),
            r is None ==> {
                &&& forall|j: int|
                    0 <= j < old(self).unvisited().len() ==> #[trigger] old(
                        self,
                    ).predicate().ensures(
                        ((old(self).next_index() + j) as isize, &old(self).unvisited()[j]),
                        false,
                    )
                &&& final(self).unvisited() == Seq::<T>::empty()
                &&& final(self).next_index() == old(self).next_index() + old(
                    self,
                ).unvisited().len()
                &&& final(self).vector()@.1 == old(self).vector()@.1 + old(self).unvisited()
            },
            r is Some ==> exists|m: int|
                {
                    &&& 0 <= m < old(self).unvisited().len()
                    &&& forall|j: int|
                        0 <= j < m ==> #[trigger] old(self).predicate().ensures(
                            ((old(self).next_index() + j) as isize, &old(self).unvisited()[j]),
                            false,
                        )
                    &&& old(self).predicate().ensures(
                        ((old(self).next_index() + m) as isize, &old(self).unvisited()[m]),
                        true,
                    )
                    &&& r == Some(old(self).unvisited()[m])
                    &&& final(self).unvisited() == old(self).unvisited().subrange(
                        m + 1,
                        old(self).unvisited().len() as int,
                    )
                    &&& final(self).next_index() == old(self).next_index() + m + 1
                    &&& final(self).vector()@.1 == old(self).vector()@.1 + old(
                        self,
                    ).unvisited().subrange(0, m)
                },
    {
        let mut pending: Vec<T> = Vec::new();
        core::mem::swap(&mut pending, &mut self.pending);
        let ghost u = pending@.reverse();
        let ghost i0 = self.index as int;
        let ghost p = self.pred;
        let mut kept: Vec<T> = Vec::new();
        let mut index = self.index;
        let mut found: Option<T> = None;
        proof {
            assert(u.subrange(0, u.len() as int) =~= u);
            assert(pending@.reverse().subrange(0, 0) =~= kept@);
        }
        while found.is_none() && pending.len() > 0
            invariant
                p == self.pred,
                forall|i: isize, x: T| #[trigger] p.requires((i, &x)),
                i0 + u.len() <= isize::MAX,
                index == i0 + kept@.len() + (if found is Some {
                    1int
                } else {
                    0int
                }),
                0 <= index - i0 <= u.len(),
                pending@.reverse() == u.subrange(index - i0, u.len() as int),
                kept@ == u.subrange(0, kept@.len() as int),
                found is Some ==> found == Some(u[kept@.len() as int]) && p.ensures(
                    ((i0 + kept@.len()) as isize, &u[kept@.len() as int]),
                    true,
                ),
                forall|j: int|
                    0 <= j < kept@.len() ==> #[trigger] p.ensures(((i0 + j) as isize, &u[j]), false),
            decreases pending@.len(),
        {
            let ghost before = pending@;
            let x = pending.pop().unwrap();
            proof {
                assert(before.len() > 0);
                assert(before.reverse()[0] == before[before.len() - 1]);
                assert(x == before[before.len() - 1]);
                assert(before.reverse() == u.subrange(index - i0, u.len() as int));
                assert(before.reverse().len() == before.len());
                assert(index - i0 < u.len());
                assert(u.subrange(index - i0, u.len() as int)[0] == u[index - i0]);
                assert(pending@ =~= before.subrange(0, before.len() - 1));
                assert(pending@.reverse() =~= before.reverse().subrange(1, before.len() as int));
                assert(x == u[index - i0]);
                assert(pending@.reverse() =~= u.subrange(index - i0 + 1, u.len() as int));
            }
            let b = (self.pred)(index as isize, &x);
            index = index + 1;
            if b {
                found = Some(x);
            } else {
                let ghost k0 = kept@;
                kept.push(x);
                proof {
                    assert(kept@ =~= u.subrange(0, kept@.len() as int));
                    assert forall|j: int|
                        0 <= j < kept@.len() implies #[trigger] p.ensures(
                        ((i0 + j) as isize, &u[j]),
                        false,
                    ) by {
                        if j < k0.len() {
                        }
                    }
                }
            }
        }
        let ghost kept_seq = kept@;
        self.pending = pending;
        self.index = index;
        self.vec.append_front(&mut kept);
        proof {
            if found is None {
                assert(kept_seq.len() == u.len());
                assert(kept_seq =~= u);
            }
        }
        found
    }

    /// Visits all the front elements not visited yet, putting back those for which the
    /// predicate does not hold and dropping the others; the vector is then complete.
    pub fn finish(self)
        requires
            self.wf(),
        ensures
            exists|taken: Seq<bool>|
                {
                    &&& taken.len() == self.unvisited().len()
                    &&& forall|j: int|
                        0 <= j < taken.len() ==> #[trigger] self.predicate().ensures(
                            ((self.next_index() + j) as isize, &self.unvisited()[j]),
                            taken[j],
                        )
                    &&& mut_ref_future(self.target())@ == (
                        self.vector()@.0,
                        self.vector()@.1 + select(self.unvisited(), negate(taken)),
                    )
                },
            mut_ref_future(self.target()).wf(),
            mut_ref_future(self.target()).spec_capacity() == self.vector().spec_capacity(),
    {
        let mut this = self;
        let mut pending: Vec<T> = Vec::new();
        core::mem::swap(&mut pending, &mut this.pending);
        let ghost u = pending@.reverse();
        let ghost i0 = this.index as int;
        let ghost p = this.pred;
        let mut kept: Vec<T> = Vec::new();
        let mut index = this.index;
        let ghost mut taken: Seq<bool> = Seq::empty();
        proof {
            assert(u.subrange(0, 0) =~= Seq::<T>::empty());
            assert(negate(taken) =~= Seq::<bool>::empty());
        }
        while pending.len() > 0
            invariant
                p == this.pred,
                forall|i: isize, x: T| #[trigger] p.requires((i, &x)),
                i0 + u.len() <= isize::MAX,
                index == i0 + taken.len(),
                taken.len() <= u.len(),
                pending@.reverse() == u.subrange(taken.len() as int, u.len() as int),
                kept@ == select(u.subrange(0, taken.len() as int), negate(taken)),
                forall|j: int|
                    0 <= j < taken.len() ==> #[trigger] p.ensures(
                        ((i0 + j) as isize, &u[j]),
                        taken[j],
                    ),
            decreases pending@.len(),
        {
            let ghost before = pending@;
            let x = pending.pop().unwrap();
            let ghost done = u.subrange(0, taken.len() as int);
            proof {
                assert(before.len() > 0);
                assert(before.reverse()[0] == before[before.len() - 1]);
                assert(x == before[before.len() - 1]);
                assert(before.reverse() == u.subrange(taken.len() as int, u.len() as int));
                assert(before.reverse().len() == before.len());
                assert(taken.len() < u.len());
                assert(u.subrange(taken.len() as int, u.len() as int)[0] == u[taken.len() as int]);
                assert(pending@ =~= before.subrange(0, before.len() - 1));
                assert(pending@.reverse() =~= before.reverse().subrange(1, before.len() as int));
                assert(x == u[taken.len() as int]);
                assert(pending@.reverse() =~= u.subrange(taken.len() + 1int, u.len() as int));
                assert(u.subrange(0, taken.len() + 1int) =~= done.push(x));
            }
            let b = (this.pred)(index as isize, &x);
            index = index + 1;
            proof {
                lemma_select_push(done, negate(taken), x, !b);
                assert(negate(taken.push(b)) =~= negate(taken).push(!b));
                taken = taken.push(b);
            }
            if !b {
                kept.push(x);
            }
        }
        proof {
            assert(u.subrange(0, u.len() as int) =~= u);
            crate::select::lemma_select_len(u, negate(taken));
        }
        this.vec.append_front(&mut kept);
    }

    /// How many more elements this pass can hand out, as a lower and an upper bound.
    pub fn size_hint(&self) -> (r: (usize, Option<usize>))
        requires
            self.wf(),
        ensures
            r == (0usize, Some(self.unvisited().len() as usize)),
    {
        (0, Some(self.pending.len()))
    }
}

impl<'a, T, F: Fn(isize, &T) -> bool> DrainFilterBack<'a, T, F> {
    /// The vector as it stands: the back holds the kept elements visited so far.
    pub closed spec fn vector(&self) -> TwoSidedVec<T> {
        *self.vec
    }

    /// The borrow of the vector that the pass holds.
    pub closed spec fn target(&self) -> &'a mut TwoSidedVec<T> {
        self.vec
    }

    /// The back elements not visited yet, next (nearest the middle) first.
    pub closed spec fn unvisited(&self) -> Seq<T> {
        self.pending@.reverse()
    }

    /// How many back elements were visited; the next one had index `-(next_index() + 1)`.
    pub closed spec fn next_index(&self) -> int {
        self.index as int
    }

    /// The predicate that selects the elements to hand out.
    pub closed spec fn predicate(&self) -> F {
        self.pred
    }

    /// The vector is well formed, every unvisited element can return to the back without
    /// growing it, and the predicate can be called on anything.
    pub closed spec fn wf(&self) -> bool {
        &&& self.vec.wf()
        &&& self.vec@.0.len() + self.pending@.len() <= self.vec.spec_capacity().back
        &&& self.index + self.pending@.len() <= isize::MAX
        &&& forall|i: isize, x: T| #[trigger] self.pred.requires((i, &x))
    }

    /// A pass over `pending` (in reverse order: the last, nearest the middle, is visited
    /// first), with the back of `vec` emptied.
    pub(crate) fn new(vec: &'a mut TwoSidedVec<T>, pred: F, pending: Vec<T>) -> (r: Self)
        requires
            old(vec).wf(),
            old(vec)@.0.len() == 0,
            pending@.len() <= old(vec).spec_capacity().back,
            forall|i: isize, x: T| #[trigger] pred.requires((i, &x)),
        ensures
            r.wf(),
            r.vector() == *old(vec),
            mut_ref_future(r.target()) == *final(vec),
            r.unvisited() == pending@.reverse(),
            r.next_index() == 0,
            r.predicate() == pred,
    {
        proof {
            vec.lemma_wf();
        }
        DrainFilterBack { vec, pred, pending, index: 0 }
    }

    /// Visits back elements outwards from the middle, putting back those for which the
    /// predicate does not hold, until it meets one for which it holds; that one is handed out.
    pub fn next(&mut self) -> (r: Option<T>)
        requires
            old(self).wf(),
        ensures
            final(self).wf(),
            final(self).predicate() == old(self).predicate(),
            mut_ref_future(final(self).target()) == mut_ref_future(old(self).target()),
            final(self).vector()@.1 == old(self).vector()@.1,
            final(self).vector().spec_capacity() == old(self).vector().spec_capacity(),
            r is None ==> {
                &&& forall|j: int|
                    0 <= j < old(self).unvisited().len() ==> #[trigger] old(
                        self,
                    ).predicate().ensures(
                        ((-(old(self).next_index() + j + 1)) as isize, &old(self).unvisited()[j]),
                        false,
                    )
                &&& final(self).unvisited() == Seq::<T>::empty()
                &&& final(self).next_index() == old(self).next_index() + old(
                    self,
                ).unvisited().len()
                &&& final(self).vector()@.0 == old(self).unvisited().reverse() + old(
                    self,
                ).vector()@.0
            },
            r is Some ==> exists|m: int|
                {
                    &&& 0 <= m < old(self).unvisited().len()
                    &&& forall|j: int|
                        0 <= j < m ==> #[trigger] old(self).predicate().ensures(
                            ((-(old(self).next_index() + j + 1)) as isize, &old(self).unvisited()[j]),
                            false,
                        )
                    &&& old(self).predicate().ensures(
                        ((-(old(self).next_index() + m + 1)) as isize, &old(self).unvisited()[m]),
                        true,
                    )
                    &&& r == Some(old(self).unvisited()[m])
                    &&& final(self).unvisited() == old(self).unvisited().subrange(
                        m + 1,
                        old(self).unvisited().len() as int,
                    )
                    &&& final(self).next_index() == old(self).next_index() + m + 1
                    &&& final(self).vector()@.0 == old(self).unvisited().subrange(
                        0,
                        m,
                    ).reverse() + old(self).vector()@.0
                },
    {
        let mut pending: Vec<T> = Vec::new();
        core::mem::swap(&mut pending, &mut self.pending);
        let ghost u = pending@.reverse();
        let ghost i0 = self.index as int;
        let ghost p = self.pred;
        let mut kept: Vec<T> = Vec::new();
        let mut index = self.index;
        let mut found: Option<T> = None;
        proof {
            assert(u.subrange(0, u.len() as int) =~= u);
            assert(pending@.reverse().subrange(0, 0) =~= kept@);
        }
        while found.is_none() && pending.len() > 0
            invariant
                p == self.pred,
                forall|i: isize, x: T| #[trigger] p.requires((i, &x)),
                i0 + u.len() <= isize::MAX,
                index == i0 + kept@.len() + (if found is Some {
                    1int
                } else {
                    0int
                }),
                0 <= index - i0 <= u.len(),
                pending@.reverse() == u.subrange(index - i0, u.len() as int),
                kept@ == u.subrange(0, kept@.len() as int),
                found is Some ==> found == Some(u[kept@.len() as int]) && p.ensures(
                    ((-(i0 + kept@.len() + 1)) as isize, &u[kept@.len() as int]),
                    true,
                ),
                forall|j: int|
                    0 <= j < kept@.len() ==> #[trigger] p.ensures(
                        ((-(i0 + j + 1)) as isize, &u[j]),
                        false,
                    ),
            decreases pending@.len(),
        {
            let ghost before = pending@;
            let x = pending.pop().unwrap();
            proof {
                assert(before.len() > 0);
                assert(before.reverse()[0] == before[before.len() - 1]);
                assert(x == before[before.len() - 1]);
                assert(before.reverse() == u.subrange(index - i0, u.len() as int));
                assert(before.reverse().len() == before.len());
                assert(index - i0 < u.len());
                assert(u.subrange(index - i0, u.len() as int)[0] == u[index - i0]);
                assert(pending@ =~= before.subrange(0, before.len() - 1));
                assert(pending@.reverse() =~= before.reverse().subrange(1, before.len() as int));
                assert(x == u[index - i0]);
                assert(pending@.reverse() =~= u.subrange(index - i0 + 1, u.len() as int));
            }
            let at: isize = -((index + 1) as isize);
            let b = (self.pred)(at, &x);
            index = index + 1;
            if b {
                found = Some(x);
            } else {
                let ghost k0 = kept@;
                kept.push(x);
                proof {
                    assert(kept@ =~= u.subrange(0, kept@.len() as int));
                    assert forall|j: int|
                        0 <= j < kept@.len() implies #[trigger] p.ensures(
                        ((-(i0 + j + 1)) as isize, &u[j]),
                        false,
                    ) by {
                        if j < k0.len() {
                        }
                    }
                }
            }
        }
        let ghost kept_seq = kept@;
        self.pending = pending;
        self.index = index;
        let restored = reversed(kept);
        self.vec.prepend_back(restored);
        proof {
            if found is None {
                assert(kept_seq.len() == u.len());
                assert(kept_seq =~= u);
            }
        }
        found
    }

    /// Visits all the back elements not visited yet, putting back those for which the
    /// predicate does not hold and dropping the others; the vector is then complete.
    pub fn finish(self)
        requires
            self.wf(),
        ensures
            exists|taken: Seq<bool>|
                {
                    &&& taken.len() == self.unvisited().len()
                    &&& forall|j: int|
                        0 <= j < taken.len() ==> #[trigger] self.predicate().ensures(
                            ((-(self.next_index() + j + 1)) as isize, &self.unvisited()[j]),
                            taken[j],
                        )
                    &&& mut_ref_future(self.target())@ == (
                        select(self.unvisited(), negate(taken)).reverse() + self.vector()@.0,
                        self.vector()@.1,
                    )
                },
            mut_ref_future(self.target()).wf(),
            mut_ref_future(self.target()).spec_capacity() == self.vector().spec_capacity(),
    {
        let mut this = self;
        let mut pending: Vec<T> = Vec::new();
        core::mem::swap(&mut pending, &mut this.pending);
        let ghost u = pending@.reverse();
        let ghost i0 = this.index as int;
        let ghost p = this.pred;
        let mut kept: Vec<T> = Vec::new();
        let mut index = this.index;
        let ghost mut taken: Seq<bool> = Seq::empty();
        proof {
            assert(u.subrange(0, 0) =~= Seq::<T>::empty());
            assert(negate(taken) =~= Seq::<bool>::empty());
        }
        while pending.len() > 0
            invariant
                p == this.pred,
                forall|i: isize, x: T| #[trigger] p.requires((i, &x)),
                i0 + u.len() <= isize::MAX,
                index == i0 + taken.len(),
                taken.len() <= u.len(),
                pending@.reverse() == u.subrange(taken.len() as int, u.len() as int),
                kept@ == select(u.subrange(0, taken.len() as int), negate(taken)),
                forall|j: int|
                    0 <= j < taken.len() ==> #[trigger] p.ensures(
                        ((-(i0 + j + 1)) as isize, &u[j]),
                        taken[j],
                    ),
            decreases pending@.len(),
        {
            let ghost before = pending@;
            let x = pending.pop().unwrap();
            let ghost done = u.subrange(0, taken.len() as int);
            proof {
                assert(before.len() > 0);
                assert(before.reverse()[0] == before[before.len() - 1]);
                assert(x == before[before.len() - 1]);
                assert(before.reverse() == u.subrange(taken.len() as int, u.len() as int));
                assert(before.reverse().len() == before.len());
                assert(taken.len() < u.len());
                assert(u.subrange(taken.len() as int, u.len() as int)[0] == u[taken.len() as int]);
                assert(pending@ =~= before.subrange(0, before.len() - 1));
                assert(pending@.reverse() =~= before.reverse().subrange(1, before.len() as int));
                assert(x == u[taken.len() as int]);
                assert(pending@.reverse() =~= u.subrange(taken.len() + 1int, u.len() as int));
                assert(u.subrange(0, taken.len() + 1int) =~= done.push(x));
            }
            let at: isize = -((index + 1) as isize);
            let b = (this.pred)(at, &x);
            index = index + 1;
            proof {
                lemma_select_push(done, negate(taken), x, !b);
                assert(negate(taken.push(b)) =~= negate(taken).push(!b));
                taken = taken.push(b);
            }
            if !b {
                kept.push(x);
            }
        }
        proof {
            assert(u.subrange(0, u.len() as int) =~= u);
            crate::select::lemma_select_len(u, negate(taken));
        }
        let restored = reversed(kept);
        this.vec.prepend_back(restored);
    }

    /// How many more elements this pass can hand out, as a lower and an upper bound.
    pub fn size_hint(&self) -> (r: (usize, Option<usize>))
        requires
            self.wf(),
        ensures
            r == (0usize, Some(self.unvisited().len() as usize)),
    {
        (0, Some(self.pending.len()))
    }
}

} // verus!
