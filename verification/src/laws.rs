//! Properties that relate the operations of `TwoSidedVec` to one another.
use vstd::prelude::*;

use crate::raw::{reserved_capacity, Capacity, CapacityRequest};
use crate::select::{lemma_select_push, negate, select};
use crate::extend::TwoSidedExtend;
use crate::index::TwoSidedIndex;
use crate::{element_at, index_in_bounds, used_capacity, TwoSidedVec};

verus! {

/// Pushing to the back keeps the element at every index that was in use, and the new
/// element is at the new first index.
pub proof fn lemma_push_back_keeps_indexes<T>(v: (Seq<T>, Seq<T>), x: T)
    ensures
        forall|i: int|
            index_in_bounds(v, i) ==> index_in_bounds((seq![x] + v.0, v.1), i) && #[trigger] element_at(
                (seq![x] + v.0, v.1),
                i,
            ) == element_at(v, i),
        element_at((seq![x] + v.0, v.1), -(v.0.len() + 1)) == x,
{
    assert forall|i: int| index_in_bounds(v, i) implies index_in_bounds((seq![x] + v.0, v.1), i)
        && #[trigger] element_at((seq![x] + v.0, v.1), i) == element_at(v, i) by {
        if i < 0 {
            assert((seq![x] + v.0)[v.0.len() + 1 + i] == v.0[v.0.len() + i]);
        }
    }
}

/// Pushing to the front keeps the element at every index that was in use, and the new
/// element is at the old end index.
pub proof fn lemma_push_front_keeps_indexes<T>(v: (Seq<T>, Seq<T>), x: T)
    ensures
        forall|i: int|
            index_in_bounds(v, i) ==> index_in_bounds((v.0, v.1.push(x)), i) && #[trigger] element_at(
                (v.0, v.1.push(x)),
                i,
            ) == element_at(v, i),
        element_at((v.0, v.1.push(x)), v.1.len() as int) == x,
{
}

/// Popping the back right after pushing `x` to it gives `x` back and the vector as it was.
pub proof fn lemma_pop_back_undoes_push_back<T>(v: (Seq<T>, Seq<T>), x: T)
    ensures
        (seq![x] + v.0).len() > 0,
        (seq![x] + v.0)[0] == x,
        ((seq![x] + v.0).drop_first(), v.1) == v,
{
    assert((seq![x] + v.0).drop_first() =~= v.0);
}

/// Popping the front right after pushing `x` to it gives `x` back and the vector as it was.
pub proof fn lemma_pop_front_undoes_push_front<T>(v: (Seq<T>, Seq<T>), x: T)
    ensures
        v.1.push(x).len() > 0,
        v.1.push(x).last() == x,
        (v.0, v.1.push(x).drop_last()) == v,
{
    assert(v.1.push(x).drop_last() =~= v.1);
}

/// The vector that pushing each of `items`, in order, to the back gives.
pub open spec fn push_back_each<T>(v: (Seq<T>, Seq<T>), items: Seq<T>) -> (Seq<T>, Seq<T>)
    decreases items.len(),
{
    if items.len() == 0 {
        v
    } else {
        push_back_each((seq![items[0]] + v.0, v.1), items.drop_first())
    }
}

/// The vector that pushing each of `items`, in order, to the front gives.
pub open spec fn push_front_each<T>(v: (Seq<T>, Seq<T>), items: Seq<T>) -> (Seq<T>, Seq<T>)
    decreases items.len(),
{
    if items.len() == 0 {
        v
    } else {
        push_front_each((v.0, v.1.push(items[0])), items.drop_first())
    }
}

/// Extending the back with `items` (as `extend_back` states it) is pushing each item to the
/// back in turn.
pub proof fn lemma_extend_back_is_push_back_each<T>(v: (Seq<T>, Seq<T>), items: Seq<T>)
    ensures
        push_back_each(v, items) == (items.reverse() + v.0, v.1),
    decreases items.len(),
{
    if items.len() == 0 {
        assert(items.reverse() + v.0 =~= v.0);
    } else {
        let w = (seq![items[0]] + v.0, v.1);
        lemma_extend_back_is_push_back_each(w, items.drop_first());
        assert(items.drop_first().reverse() + (seq![items[0]] + v.0) =~= items.reverse() + v.0);
    }
}

/// Extending the front with `items` (as `extend_front` states it) is pushing each item to
/// the front in turn.
pub proof fn lemma_extend_front_is_push_front_each<T>(v: (Seq<T>, Seq<T>), items: Seq<T>)
    ensures
        push_front_each(v, items) == (v.0, v.1 + items),
    decreases items.len(),
{
    if items.len() == 0 {
        assert(v.1 + items =~= v.1);
    } else {
        let w = (v.0, v.1.push(items[0]));
        lemma_extend_front_is_push_front_each(w, items.drop_first());
        assert(v.1.push(items[0]) + items.drop_first() =~= v.1 + items);
    }
}

/// A filtering pass loses nothing: the kept and the removed elements together are as many
/// as there were.
pub proof fn lemma_filter_partitions<T>(s: Seq<T>, taken: Seq<bool>)
    requires
        taken.len() == s.len(),
    ensures
        select(s, taken).len() + select(s, negate(taken)).len() == s.len(),
    decreases s.len(),
{
    if s.len() > 0 {
        let s0 = s.drop_last();
        let t0 = taken.drop_last();
        lemma_filter_partitions(s0, t0);
        assert(s0.push(s.last()) =~= s);
        assert(t0.push(taken.last()) =~= taken);
        assert(negate(t0).push(!taken.last()) =~= negate(taken));
        lemma_select_push(s0, t0, s.last(), taken.last());
        lemma_select_push(s0, negate(t0), s.last(), !taken.last());
    }
}

/// Keeping every element changes nothing.
pub proof fn lemma_filter_keep_all<T>(s: Seq<T>, kept: Seq<bool>)
    requires
        kept.len() == s.len(),
        forall|k: int| 0 <= k < kept.len() ==> #[trigger] kept[k],
    ensures
        select(s, kept) == s,
    decreases s.len(),
{
    if s.len() > 0 {
        let s0 = s.drop_last();
        let k0 = kept.drop_last();
        lemma_filter_keep_all(s0, k0);
        assert(kept[kept.len() - 1]);
        assert(s0.push(s.last()) =~= s);
    }
}

/// Once room for `amount` elements has been reserved on a side, pushing one element there
/// leaves the capacity as it is; pushes up to the reserved amount never grow the buffer.
pub proof fn lemma_push_within_reserved_capacity<T>(
    capacity: Capacity,
    v: (Seq<T>, Seq<T>),
)
    requires
        capacity.back >= v.0.len(),
        capacity.front >= v.1.len(),
    ensures
        capacity.front - v.1.len() >= 1 ==> reserved_capacity(
            capacity,
            CapacityRequest { used: used_capacity(v), needed: Capacity { back: 0, front: 1 } },
        ) == capacity,
        capacity.back - v.0.len() >= 1 ==> reserved_capacity(
            capacity,
            CapacityRequest { used: used_capacity(v), needed: Capacity { back: 1, front: 0 } },
        ) == capacity,
{
}

/// Splitting at a signed index and joining the two parts gives all elements back.
pub proof fn lemma_split_at_rejoins<T>(v: (Seq<T>, Seq<T>), index: int)
    requires
        -v.0.len() <= index <= v.1.len(),
    ensures
        (v.0 + v.1).subrange(0, index + v.0.len()) + (v.0 + v.1).subrange(
            index + v.0.len(),
            (v.0 + v.1).len() as int,
        ) == v.0 + v.1,
{
    let all = v.0 + v.1;
    assert(all.subrange(0, index + v.0.len()) + all.subrange(index + v.0.len(), all.len() as int)
        =~= all);
}

/// Extending the back with owned items is pushing each to the back in turn: item `k` lands at
/// index `old start() - 1 - k`, and every index in use before keeps its element.
pub proof fn lemma_extend_back_places_items<T>(
    before: TwoSidedVec<T>,
    items: Seq<T>,
    after: TwoSidedVec<T>,
)
    requires
        <TwoSidedVec<T> as TwoSidedExtend<T>>::extended_back(before, items, after),
    ensures
        after@ == push_back_each(before@, items),
        after@.1 == before@.1,
        after@.0.len() == before@.0.len() + items.len(),
        forall|k: int|
            0 <= k < items.len() ==> element_at(after@, -(before@.0.len() + k + 1)) == #[trigger] items[k],
        forall|i: int|
            index_in_bounds(before@, i) ==> #[trigger] element_at(after@, i) == element_at(before@, i),
{
    lemma_extend_back_is_push_back_each(before@, items);
    let n = items.len();
    let b = before@.0;
    assert forall|k: int| 0 <= k < items.len() implies element_at(
        after@,
        -(before@.0.len() + k + 1),
    ) == #[trigger] items[k] by {
        assert(after@.0[after@.0.len() - (b.len() + k + 1)] == (items.reverse() + b)[n - 1 - k]);
    }
    assert forall|i: int| index_in_bounds(before@, i) implies #[trigger] element_at(after@, i)
        == element_at(before@, i) by {
        if i < 0 {
            assert(after@.0[after@.0.len() + i] == (items.reverse() + b)[n + b.len() + i]);
        }
    }
}

/// Extending the front with owned items is pushing each to the front in turn: item `k` lands
/// at index `old end() + k`, and every index in use before keeps its element.
pub proof fn lemma_extend_front_places_items<T>(
    before: TwoSidedVec<T>,
    items: Seq<T>,
    after: TwoSidedVec<T>,
)
    requires
        <TwoSidedVec<T> as TwoSidedExtend<T>>::extended_front(before, items, after),
    ensures
        after@ == push_front_each(before@, items),
        after@.0 == before@.0,
        after@.1.len() == before@.1.len() + items.len(),
        forall|k: int|
            0 <= k < items.len() ==> element_at(after@, before@.1.len() + k) == #[trigger] items[k],
        forall|i: int|
            index_in_bounds(before@, i) ==> #[trigger] element_at(after@, i) == element_at(before@, i),
{
    lemma_extend_front_is_push_front_each(before@, items);
}

/// Extending the back with references pushes a copy of each referenced value to the back in
/// turn, exactly as extending with the values themselves: the value behind item `k` lands at
/// index `old start() - 1 - k`, and every index in use before keeps its element.
pub proof fn lemma_extend_back_with_references<'a, T: Copy>(
    before: TwoSidedVec<T>,
    items: Seq<&'a T>,
    after: TwoSidedVec<T>,
)
    requires
        <TwoSidedVec<T> as TwoSidedExtend<&'a T>>::extended_back(before, items, after),
    ensures
        after@ == push_back_each(before@, items.unref()),
        after@.1 == before@.1,
        after@.0.len() == before@.0.len() + items.len(),
        forall|k: int|
            0 <= k < items.len() ==> element_at(after@, -(before@.0.len() + k + 1)) == *(
            #[trigger] items[k]),
        forall|i: int|
            index_in_bounds(before@, i) ==> #[trigger] element_at(after@, i) == element_at(before@, i),
{
    lemma_extend_back_places_items(before, items.unref(), after);
    assert forall|k: int| 0 <= k < items.len() implies element_at(
        after@,
        -(before@.0.len() + k + 1),
    ) == *(#[trigger] items[k]) by {
        assert(items.unref()[k] == *items[k]);
    }
}

/// Extending the front with references pushes a copy of each referenced value to the front
/// in turn, exactly as extending with the values themselves: the value behind item `k` lands
/// at index `old end() + k`, and every index in use before keeps its element.
pub proof fn lemma_extend_front_with_references<'a, T: Copy>(
    before: TwoSidedVec<T>,
    items: Seq<&'a T>,
    after: TwoSidedVec<T>,
)
    requires
        <TwoSidedVec<T> as TwoSidedExtend<&'a T>>::extended_front(before, items, after),
    ensures
        after@ == push_front_each(before@, items.unref()),
        after@.0 == before@.0,
        after@.1.len() == before@.1.len() + items.len(),
        forall|k: int|
            0 <= k < items.len() ==> element_at(after@, before@.1.len() + k) == *(
            #[trigger] items[k]),
        forall|i: int|
            index_in_bounds(before@, i) ==> #[trigger] element_at(after@, i) == element_at(before@, i),
{
    lemma_extend_front_places_items(before, items.unref(), after);
    assert forall|k: int| 0 <= k < items.len() implies element_at(
        after@,
        before@.1.len() + k,
    ) == *(#[trigger] items[k]) by {
        assert(items.unref()[k] == *items[k]);
    }
}

/// A single signed index is accepted exactly when it addresses an element (`start() <= i <
/// end()`, so `get` finds one there), and it then selects exactly that one element: what
/// `get_range(i)` gives is the one-element run holding what `get(i)` gives.
pub proof fn lemma_single_index_selects_its_element<T>(v: TwoSidedVec<T>, i: isize)
    requires
        v.wf(),
    ensures
        <isize as TwoSidedIndex<T>>::spec_check(&i, -(v@.0.len() as int), v@.1.len() as int)
            <==> index_in_bounds(v@, i as int),
        index_in_bounds(v@, i as int) ==> v.spec_entire().subrange(
            <isize as TwoSidedIndex<T>>::spec_span(&i, -(v@.0.len() as int), v@.1.len() as int).0
                + v@.0.len(),
            <isize as TwoSidedIndex<T>>::spec_span(&i, -(v@.0.len() as int), v@.1.len() as int).1
                + v@.0.len(),
        ) == seq![element_at(v@, i as int)],
{
    if index_in_bounds(v@, i as int) {
        let all = v.spec_entire();
        let at = i + v@.0.len();
        assert(all.subrange(at, at + 1) =~= seq![all[at]]);
        if i < 0 {
            assert(all[at] == v@.0[v@.0.len() + i]);
        } else {
            assert(all[at] == v@.1[i as int]);
        }
    }
}

/// A range of signed indexes is accepted exactly when it runs forwards within `[start(),
/// end()]`, and it then selects, in order, the elements at each of its indexes: element `k`
/// of what `get_range(a..b)` gives is what `get(a + k)` gives.
pub proof fn lemma_range_selects_its_elements<T>(v: TwoSidedVec<T>, r: core::ops::Range<isize>)
    requires
        v.wf(),
    ensures
        <core::ops::Range<isize> as TwoSidedIndex<T>>::spec_check(
            &r,
            -(v@.0.len() as int),
            v@.1.len() as int,
        ) <==> -v@.0.len() <= r.start <= r.end <= v@.1.len(),
        -v@.0.len() <= r.start <= r.end <= v@.1.len() ==> {
            let span = <core::ops::Range<isize> as TwoSidedIndex<T>>::spec_span(
                &r,
                -(v@.0.len() as int),
                v@.1.len() as int,
            );
            let run = v.spec_entire().subrange(span.0 + v@.0.len(), span.1 + v@.0.len());
            &&& run.len() == r.end - r.start
            &&& forall|k: int|
                0 <= k < run.len() ==> #[trigger] run[k] == element_at(v@, r.start + k)
        },
{
    if -v@.0.len() <= r.start <= r.end <= v@.1.len() {
        let all = v.spec_entire();
        let run = all.subrange(r.start + v@.0.len(), r.end + v@.0.len());
        assert forall|k: int| 0 <= k < run.len() implies #[trigger] run[k] == element_at(
            v@,
            r.start + k,
        ) by {
            let at = r.start + k + v@.0.len();
            assert(run[k] == all[at]);
            if r.start + k < 0 {
                assert(all[at] == v@.0[v@.0.len() + r.start + k]);
            } else {
                assert(all[at] == v@.1[r.start + k]);
            }
        }
    }
}

/// The full range is always accepted and selects every element, back then front, in index
/// order: what `get_range(..)` gives is what `entire()` gives.
pub proof fn lemma_full_range_selects_everything<T>(v: TwoSidedVec<T>, r: core::ops::RangeFull)
    requires
        v.wf(),
    ensures
        <core::ops::RangeFull as TwoSidedIndex<T>>::spec_check(
            &r,
            -(v@.0.len() as int),
            v@.1.len() as int,
        ),
        v.spec_entire().subrange(
            <core::ops::RangeFull as TwoSidedIndex<T>>::spec_span(
                &r,
                -(v@.0.len() as int),
                v@.1.len() as int,
            ).0 + v@.0.len(),
            <core::ops::RangeFull as TwoSidedIndex<T>>::spec_span(
                &r,
                -(v@.0.len() as int),
                v@.1.len() as int,
            ).1 + v@.0.len(),
        ) == v@.0 + v@.1,
{
    assert(v.spec_entire().subrange(0, v.spec_entire().len() as int) =~= v@.0 + v@.1);
}

} // verus!
