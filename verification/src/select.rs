//! Selecting the elements of a sequence by a sequence of flags, and reversing vectors.
use vstd::prelude::*;

verus! {

/// The elements of `s` whose flag in `flags` is set, in their order in `s`.
pub open spec fn select<T>(s: Seq<T>, flags: Seq<bool>) -> Seq<T>
    decreases s.len(),
{
    if s.len() == 0 {
        Seq::empty()
    } else {
        let rest = select(s.drop_last(), flags.drop_last());
        if flags.last() {
            rest.push(s.last())
        } else {
            rest
        }
    }
}

/// Each flag of `flags` flipped.
pub open spec fn negate(flags: Seq<bool>) -> Seq<bool> {
    Seq::new(flags.len(), |i: int| !flags[i])
}

/// Selecting from a sequence with one more element and flag.
pub proof fn lemma_select_push<T>(s: Seq<T>, flags: Seq<bool>, x: T, b: bool)
    ensures
        select(s.push(x), flags.push(b)) == if b {
            select(s, flags).push(x)
        } else {
            select(s, flags)
        },
{
    assert(s.push(x).drop_last() =~= s);
    assert(flags.push(b).drop_last() =~= flags);
}

/// Selecting with one more element and flag in front.
pub proof fn lemma_select_prepend<T>(s: Seq<T>, flags: Seq<bool>, x: T, b: bool)
    requires
        s.len() == flags.len(),
    ensures
        select(seq![x] + s, seq![b] + flags) == if b {
            seq![x] + select(s, flags)
        } else {
            select(s, flags)
        },
    decreases s.len(),
{
    if s.len() == 0 {
        assert((seq![x] + s).drop_last() =~= s);
        assert(seq![x] + s =~= seq![x]);
        assert(seq![b] + flags =~= seq![b]);
        assert(select(Seq::<T>::empty(), Seq::<bool>::empty()) == Seq::<T>::empty());
        assert(seq![x].drop_last() =~= Seq::<T>::empty());
        assert(seq![b].drop_last() =~= Seq::<bool>::empty());
        if b {
            assert(seq![x] + Seq::<T>::empty() =~= seq![x]);
            assert(Seq::<T>::empty().push(x) =~= seq![x]);
        }
    } else {
        lemma_select_prepend(s.drop_last(), flags.drop_last(), x, b);
        assert((seq![x] + s).drop_last() =~= seq![x] + s.drop_last());
        assert((seq![b] + flags).drop_last() =~= seq![b] + flags.drop_last());
        assert((seq![x] + s).last() == s.last());
        assert((seq![b] + flags).last() == flags.last());
        if b {
            let r = select(s.drop_last(), flags.drop_last());
            assert((seq![x] + r).push(s.last()) =~= seq![x] + r.push(s.last()));
        }
    }
}

/// Selecting from reversed sequences gives the reversed selection.
pub proof fn lemma_select_reverse<T>(s: Seq<T>, flags: Seq<bool>)
    requires
        s.len() == flags.len(),
    ensures
        select(s.reverse(), flags.reverse()) == select(s, flags).reverse(),
    decreases s.len(),
{
    if s.len() == 0 {
        assert(s.reverse() =~= s);
        assert(select(s, flags).reverse() =~= Seq::<T>::empty());
    } else {
        let s0 = s.drop_last();
        let f0 = flags.drop_last();
        lemma_select_reverse(s0, f0);
        assert(s.reverse() =~= seq![s.last()] + s0.reverse());
        assert(flags.reverse() =~= seq![flags.last()] + f0.reverse());
        lemma_select_prepend(s0.reverse(), f0.reverse(), s.last(), flags.last());
        if flags.last() {
            assert(select(s0, f0).push(s.last()).reverse() =~= seq![s.last()] + select(
                s0,
                f0,
            ).reverse());
        }
    }
}

/// Selected elements never outnumber the sequence.
pub proof fn lemma_select_len<T>(s: Seq<T>, flags: Seq<bool>)
    ensures
        select(s, flags).len() <= s.len(),
    decreases s.len(),
{
    if s.len() > 0 {
        lemma_select_len(s.drop_last(), flags.drop_last());
    }
}

/// The elements of `v` in the opposite order.
pub(crate) fn reversed<T>(v: Vec<T>) -> (r: Vec<T>)
    ensures
        r@ == v@.reverse(),
{
    let mut v = v;
    let ghost original = v@;
    let mut r: Vec<T> = Vec::new();
    while v.len() > 0
        invariant
            v@.len() <= original.len(),
            v@ == original.subrange(0, v@.len() as int),
            r@ == original.subrange(v@.len() as int, original.len() as int).reverse(),
        decreases v@.len(),
    {
        let ghost before = v@;
        let x = v.pop().unwrap();
        r.push(x);
        proof {
            assert(v@ =~= original.subrange(0, v@.len() as int));
            assert(r@ =~= original.subrange(v@.len() as int, original.len() as int).reverse());
        }
    }
    proof {
        assert(original.subrange(0, original.len() as int) =~= original);
    }
    r
}

} // verus!
