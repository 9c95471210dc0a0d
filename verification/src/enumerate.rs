//! Enumeration that pairs elements with signed indexes.
use vstd::prelude::*;

verus! {

/// Walks a slice, pairing each element with a signed index that counts up from a start
/// which may be negative; it can be walked from both ends.
pub struct SignedEnumerate<'a, T> {
    index: isize,
    handle: &'a [T],
    pos: usize,
    end: usize,
}

impl<'a, T> SignedEnumerate<'a, T> {
    /// The pairs still to be handed out, in order from the front.
    pub closed spec fn remaining(&self) -> Seq<(int, T)> {
        Seq::new(
            (self.end - self.pos) as nat,
            |k: int| (self.index + k, self.handle@[self.pos + k]),
        )
    }

    /// The positions and indexes stay within the slice and within `isize`.
    pub closed spec fn wf(&self) -> bool {
        &&& self.pos <= self.end <= self.handle@.len()
        &&& self.handle@.len() <= isize::MAX
        &&& self.index + (self.end - self.pos) <= isize::MAX
    }

    /// Pairs each element of `handle` with `start`, `start + 1`, and so on; the length and
    /// the last index must fit in an `isize`.
    pub fn new(start: isize, handle: &'a [T]) -> (r: Self)
        requires
            start + handle@.len() <= isize::MAX,
            handle@.len() <= isize::MAX,
        ensures
            r.wf(),
            r.remaining() == Seq::new(handle@.len(), |k: int| (start + k, handle@[k])),
    {
        let r = SignedEnumerate { index: start, handle, pos: 0, end: handle.len() };
        assert(r.remaining() =~= Seq::new(handle@.len(), |k: int| (start + k, handle@[k])));
        r
    }

    /// The next pair from the front, if any is left.
    pub fn next(&mut self) -> (r: Option<(isize, &'a T)>)
        requires
            old(self).wf(),
        ensures
            final(self).wf(),
            old(self).remaining().len() > 0 ==> r == Some(
                (old(self).remaining()[0].0 as isize, &old(self).remaining()[0].1),
            ) && final(self).remaining() == old(self).remaining().drop_first(),
            old(self).remaining().len() == 0 ==> r is None && final(self).remaining() == old(
                self,
            ).remaining(),
    {
        if self.pos < self.end {
            let ghost before = self.remaining();
            let value = &self.handle[self.pos];
            let index = self.index;
            self.index = self.index + 1;
            self.pos = self.pos + 1;
            assert(self.remaining() =~= before.drop_first());
            Some((index, value))
        } else {
            None
        }
    }

    /// The next pair from the back, if any is left.
    pub fn next_back(&mut self) -> (r: Option<(isize, &'a T)>)
        requires
            old(self).wf(),
        ensures
            final(self).wf(),
            old(self).remaining().len() > 0 ==> r == Some(
                (old(self).remaining().last().0 as isize, &old(self).remaining().last().1),
            ) && final(self).remaining() == old(self).remaining().drop_last(),
            old(self).remaining().len() == 0 ==> r is None && final(self).remaining() == old(
                self,
            ).remaining(),
    {
        if self.pos < self.end {
            let ghost before = self.remaining();
            self.end = self.end - 1;
            let value = &self.handle[self.end];
            let len = self.end - self.pos;
            assert(self.remaining() =~= before.drop_last());
            Some((self.index + len as isize, value))
        } else {
            None
        }
    }

    /// The number of pairs left, as a lower and an upper bound.
    pub fn size_hint(&self) -> (r: (usize, Option<usize>))
        requires
            self.wf(),
        ensures
            r.0 == self.remaining().len(),
            r.1 == Some(self.remaining().len() as usize),
    {
        let n = self.end - self.pos;
        (n, Some(n))
    }
}

} // verus!
