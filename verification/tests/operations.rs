use two_sided_vec::drain::{DrainFilterBack, DrainFilterFront};
use two_sided_vec::extend::TwoSidedExtend;
use two_sided_vec::index::TwoSidedIndex;
use two_sided_vec::prelude::TwoSidedVec;
use two_sided_vec::raw::{Capacity, CapacityRequest, RawTwoSidedVec};
use two_sided_vec::serialize::{Field, FieldError, FieldsSeen};

fn sample() -> TwoSidedVec<i32> {
    // back [1, 2, 3] at indexes -3..0, front [4, 5, 6, 7] at 0..4
    let mut v = TwoSidedVec::with_capacity(3, 4);
    v.push_back(3);
    v.push_back(2);
    v.push_back(1);
    for x in [4, 5, 6, 7] {
        v.push_front(x);
    }
    v
}

fn drained_front<F: Fn(isize, &i32) -> bool>(mut d: DrainFilterFront<'_, i32, F>) -> Vec<i32> {
    let mut out = Vec::new();
    while let Some(x) = d.next() {
        out.push(x);
    }
    out
}

fn drained_back<F: Fn(isize, &i32) -> bool>(mut d: DrainFilterBack<'_, i32, F>) -> Vec<i32> {
    let mut out = Vec::new();
    while let Some(x) = d.next() {
        out.push(x);
    }
    out
}

#[test]
fn push_back_keeps_front_indexes() {
    let mut v = sample();
    let before: Vec<i32> = (0..4).map(|i| *v.get(i).unwrap()).collect();
    v.push_back(0);
    let after: Vec<i32> = (0..4).map(|i| *v.get(i).unwrap()).collect();
    assert_eq!(before, after);
    assert_eq!(v.get(-1), Some(&3));
    assert_eq!(v.get(-4), Some(&0));
    assert_eq!(v.start(), -4);
}

#[test]
fn pop_undoes_push() {
    let mut v = sample();
    v.push_front(9);
    assert_eq!(v.pop_front(), Some(9));
    v.push_back(8);
    assert_eq!(v.pop_back(), Some(8));
    assert_eq!(v, sample());
    let mut e: TwoSidedVec<i32> = TwoSidedVec::new();
    assert_eq!(e.pop_front(), None);
    assert_eq!(e.pop_back(), None);
}

#[test]
fn lengths_and_indexes() {
    let v = sample();
    assert_eq!(v.len(), 7);
    assert_eq!(v.len_back(), 3);
    assert_eq!(v.len_front(), 4);
    assert_eq!(v.start(), -3);
    assert_eq!(v.end(), 4);
    assert_eq!(v.range(), -3..4);
    assert!(!v.is_empty());
    assert_eq!(v.back(), &[1, 2, 3]);
    assert_eq!(v.front(), &[4, 5, 6, 7]);
    assert_eq!(v.split(), (&[1, 2, 3][..], &[4, 5, 6, 7][..]));
    assert_eq!(v.get(-3), Some(&1));
    assert_eq!(v.get(-4), None);
    assert_eq!(v.get(4), None);
}

#[test]
fn capacity_grows_to_exactly_what_is_asked() {
    let mut v: TwoSidedVec<i32> = TwoSidedVec::new();
    assert_eq!((v.capacity_back(), v.capacity_front()), (0, 0));
    v.push_front(1);
    v.push_front(2);
    v.push_front(3);
    assert_eq!((v.capacity_back(), v.capacity_front()), (0, 3));
    let mut w: TwoSidedVec<i32> = TwoSidedVec::with_capacity(0, 10);
    w.push_front(1);
    assert_eq!((w.capacity_back(), w.capacity_front()), (0, 10));
    // the back does not fit: the buffer is given exactly the used plus the needed slots
    w.reserve_back(1);
    assert_eq!((w.capacity_back(), w.capacity_front()), (1, 1));
    // it fits now: nothing changes
    w.reserve_back(1);
    assert_eq!((w.capacity_back(), w.capacity_front()), (1, 1));
    w.reserve_front(4);
    assert_eq!((w.capacity_back(), w.capacity_front()), (0, 5));
    assert_eq!(w.front(), &[1]);
}

#[test]
fn pushes_within_reserved_room_keep_capacity() {
    let mut v: TwoSidedVec<i32> = TwoSidedVec::new();
    v.reserve_front(5);
    assert_eq!((v.capacity_back(), v.capacity_front()), (0, 5));
    for i in 0..5 {
        v.push_front(i);
    }
    assert_eq!((v.capacity_back(), v.capacity_front()), (0, 5));
    let mut w: TwoSidedVec<i32> = TwoSidedVec::new();
    w.reserve_back(2);
    w.push_back(-1);
    w.push_back(-2);
    assert_eq!((w.capacity_back(), w.capacity_front()), (2, 0));
    // growing one side gives the other side exactly its length
    w.reserve_front(1);
    assert_eq!((w.capacity_back(), w.capacity_front()), (2, 1));
}

#[test]
fn clear_empties_and_keeps_capacity() {
    let mut v = sample();
    v.clear();
    assert!(v.is_empty());
    assert_eq!(v.len(), 0);
    assert_eq!((v.start(), v.end()), (0, 0));
    assert_eq!((v.capacity_back(), v.capacity_front()), (3, 4));
}

#[test]
fn extend_pushes_each_in_order() {
    let mut v: TwoSidedVec<i32> = TwoSidedVec::new();
    TwoSidedExtend::<i32>::extend_back(&mut v, vec![1, 2, 3]);
    TwoSidedExtend::<i32>::extend_front(&mut v, vec![4, 5]);
    assert_eq!(v.back(), &[3, 2, 1]);
    assert_eq!(v.front(), &[4, 5]);
    assert_eq!((v.capacity_back(), v.capacity_front()), (3, 2));
    let a = 10;
    let b = 11;
    TwoSidedExtend::<&i32>::extend_front(&mut v, vec![&a, &b]);
    TwoSidedExtend::<&i32>::extend_back(&mut v, vec![&b]);
    assert_eq!(v.back(), &[11, 3, 2, 1]);
    assert_eq!(v.front(), &[4, 5, 10, 11]);
}

#[test]
fn drain_filter_front_splits_in_index_order() {
    let mut v = sample();
    let mut seen = Vec::new();
    let removed = v.drain_filter_front(|i, x| {
        assert_eq!(i as i32, *x - 4);
        *x % 2 == 1
    });
    seen.extend(drained_front(removed));
    assert_eq!(seen, vec![5, 7]);
    assert_eq!(v.front(), &[4, 6]);
    assert_eq!(v.back(), &[1, 2, 3]);
}

#[test]
fn drain_filter_back_meets_nearest_first() {
    let mut v = sample();
    let removed = v.drain_filter_back(|i, x| {
        assert_eq!(i as i32, *x - 4);
        *x != 2
    });
    assert_eq!(drained_back(removed), vec![3, 1]);
    assert_eq!(v.back(), &[2]);
    assert_eq!(v.start(), -1);
    assert_eq!(v.front(), &[4, 5, 6, 7]);
}

#[test]
fn drain_filter_hands_out_lazily() {
    let mut v = sample();
    let mut calls = Vec::new();
    {
        let mut d = v.drain_filter_front(|i, _| i % 2 == 1);
        assert_eq!(d.size_hint(), (0, Some(4)));
        // the first removed element is index 1; index 0 was visited and kept
        assert_eq!(d.next(), Some(5));
        assert_eq!(d.size_hint(), (0, Some(2)));
        calls.push(d.next());
        calls.push(d.next());
    }
    assert_eq!(calls, vec![Some(7), None]);
    assert_eq!(v.front(), &[4, 6]);
    let mut w = sample();
    {
        let d = w.drain_filter_back(|_, x| *x == 2);
        d.finish();
    }
    assert_eq!(w.back(), &[1, 3]);
    assert_eq!(w.start(), -2);
}

#[test]
fn retain_sides_separately() {
    let mut v = sample();
    v.retain_back(|_, x| *x > 1);
    assert_eq!(v.back(), &[2, 3]);
    v.retain_front(|i, _| i % 2 == 0);
    assert_eq!(v.front(), &[4, 6]);
    let mut all = sample();
    all.retain(|_, _| true);
    assert_eq!(all, sample());
}

#[test]
fn enumerations_give_signed_indexes() {
    let v = sample();
    let mut e = v.enumerate();
    let mut pairs = Vec::new();
    while let Some((i, x)) = e.next() {
        pairs.push((i, *x));
    }
    assert_eq!(pairs, vec![(-3, 1), (-2, 2), (-1, 3), (0, 4), (1, 5), (2, 6), (3, 7)]);
    let mut b = v.enumerate_back();
    assert_eq!(b.size_hint(), (3, Some(3)));
    assert_eq!(b.next(), Some((-3, &1)));
    assert_eq!(b.next_back(), Some((-1, &3)));
    assert_eq!(b.next(), Some((-2, &2)));
    assert_eq!(b.next(), None);
    let mut f = v.enumerate_front();
    assert_eq!(f.next_back(), Some((3, &7)));
    assert_eq!(f.next(), Some((0, &4)));
}

#[test]
fn get_mut_changes_one_element() {
    let mut v = sample();
    *v.get_mut(-2).unwrap() = 20;
    *v.get_mut(1).unwrap() = 50;
    assert!(v.get_mut(9).is_none());
    assert_eq!(v.back(), &[1, 20, 3]);
    assert_eq!(v.front(), &[4, 50, 6, 7]);
    v.front_mut()[0] = 40;
    v.back_mut()[2] = 30;
    let (back, front) = v.split_mut();
    back[0] = 10;
    front[3] = 70;
    assert_eq!(v.entire(), &[10, 20, 30, 40, 50, 6, 70]);
}

#[test]
fn split_at_and_ranges() {
    let v = sample();
    assert_eq!(v.split_at(0), (&[1, 2, 3][..], &[4, 5, 6, 7][..]));
    assert_eq!(v.split_at(-1), (&[1, 2][..], &[3, 4, 5, 6, 7][..]));
    assert_eq!(v.split_at(4), (&[1, 2, 3, 4, 5, 6, 7][..], &[][..]));
    assert_eq!(v.get_range(-2..2), Some(&[2, 3, 4, 5][..]));
    assert_eq!(v.get_range(-4..2), None);
    assert_eq!(v.get_range(2..1), None);
    assert_eq!(v.get_range(4..4), Some(&[][..]));
    assert_eq!(v.get_range(1isize), Some(&[5][..]));
    assert_eq!(v.get_range(..), Some(&[1, 2, 3, 4, 5, 6, 7][..]));
    assert_eq!(TwoSidedIndex::<i32>::span(&(..), &v), (-3, 4));
    assert!(TwoSidedIndex::<i32>::check(&-3isize, &v));
    assert!(!TwoSidedIndex::<i32>::check(&4isize, &v));
    assert_eq!(TwoSidedIndex::<i32>::span(&(-1isize..3), &v), (-1, 3));
    let mut n = 0;
    for x in v.iter_entire() {
        n += x;
    }
    assert_eq!(n, 28);
}

#[test]
fn truncate_keeps_elements_nearest_the_middle() {
    let mut v = sample();
    v.truncate_back(1);
    v.truncate_front(2);
    assert_eq!(v.entire(), &[3, 4, 5]);
    assert_eq!((v.start(), v.end()), (-1, 2));
}

#[test]
fn clone_copies_elements_and_fits_capacity() {
    let mut v: TwoSidedVec<i32> = TwoSidedVec::with_capacity(10, 10);
    v.push_back(1);
    v.push_front(2);
    let c = v.clone();
    assert_eq!(c, v);
    assert_eq!((c.capacity_back(), c.capacity_front()), (1, 1));
    let d: TwoSidedVec<i32> = Default::default();
    assert!(d.is_empty());
}

#[test]
fn equality_needs_the_same_start() {
    let mut a: TwoSidedVec<i32> = TwoSidedVec::new();
    a.push_back(1);
    a.push_front(2);
    let mut b: TwoSidedVec<i32> = TwoSidedVec::new();
    b.push_front(1);
    b.push_front(2);
    assert_eq!(a.entire(), b.entire());
    assert_ne!(a, b);
    let mut c = b.clone();
    *c.get_mut(1).unwrap() = 3;
    assert_ne!(b, c);
}

#[test]
fn from_vec_puts_everything_in_front() {
    let v = TwoSidedVec::from(vec![1, 2, 3]);
    assert_eq!(v.front(), &[1, 2, 3]);
    assert!(v.back().is_empty());
    assert_eq!((v.start(), v.end()), (0, 3));
    assert!(v.capacity_front() >= 3);
    assert_eq!(v.capacity_back(), 0);
}

#[test]
fn capacity_arithmetic() {
    let a = Capacity { back: 2, front: 3 };
    let b = Capacity { back: 4, front: 1 };
    let s = a.add(b);
    assert_eq!((s.back, s.front), (6, 4));
    assert_eq!(a.total(), 5);
    assert_eq!(a.checked_total(), 5);
    assert!(s.can_fit(a));
    assert!(!a.can_fit(b));
    assert!(Capacity::empty().is_empty());
    assert!(!a.is_empty());
}

#[test]
fn raw_buffer_reserve() {
    let mut raw: RawTwoSidedVec<i32> = RawTwoSidedVec::with_capacity(Capacity { back: 4, front: 4 });
    assert_eq!((raw.capacity().back, raw.capacity().front), (4, 4));
    let used = Capacity { back: 0, front: 0 };
    raw.reserve(CapacityRequest { used, needed: Capacity { back: 2, front: 3 } });
    assert_eq!((raw.capacity().back, raw.capacity().front), (4, 4));
    raw.reserve(CapacityRequest { used, needed: Capacity { back: 5, front: 1 } });
    assert_eq!((raw.capacity().back, raw.capacity().front), (5, 1));
    let empty: RawTwoSidedVec<i32> = RawTwoSidedVec::new();
    assert!(empty.capacity().is_empty());
    let d: RawTwoSidedVec<i32> = Default::default();
    assert!(d.capacity().is_empty());
}

#[test]
fn field_names() {
    assert_eq!(Field::from_name("back"), Ok(Field::Back));
    assert_eq!(Field::from_name("front"), Ok(Field::Front));
    assert_eq!(Field::from_name("middle"), Err(FieldError::UnknownField));
    assert_eq!(Field::from_name("backs"), Err(FieldError::UnknownField));
    assert_eq!(Field::Back.name(), "back");
    assert_eq!(Field::Front.name(), "front");
}

#[test]
fn fields_seen_decisions() {
    let mut seen = FieldsSeen::new();
    assert_eq!(seen.finish(), Err(FieldError::MissingField(Field::Back)));
    assert_eq!(seen.visit_key(Field::Front), Ok(Field::Front));
    assert_eq!(seen.finish(), Err(FieldError::MissingField(Field::Back)));
    // a repeated front is reported under the name of the back
    assert_eq!(seen.visit_key(Field::Front), Err(FieldError::DuplicateField(Field::Back)));
    assert_eq!(seen.visit_key(Field::Back), Ok(Field::Back));
    assert_eq!(seen.visit_key(Field::Back), Err(FieldError::DuplicateField(Field::Back)));
    assert_eq!(seen.finish(), Ok(()));
    let mut only_back = FieldsSeen::new();
    assert_eq!(only_back.visit_key(Field::Back), Ok(Field::Back));
    assert_eq!(only_back.finish(), Err(FieldError::MissingField(Field::Front)));
}

#[test]
fn get_range_mut_changes_the_selected_run() {
    let mut v = sample();
    {
        let run = v.get_range_mut(-1..2).unwrap();
        assert_eq!(run, &mut [3, 4, 5][..]);
        run[0] = 30;
        run[2] = 50;
    }
    assert!(v.get_range_mut(-4..0).is_none());
    assert!(v.get_range_mut(5isize).is_none());
    v.get_range_mut(..).unwrap()[0] = 10;
    assert_eq!(v.entire(), &[10, 2, 30, 4, 50, 6, 7]);
    assert_eq!((v.start(), v.end()), (-3, 4));
}

#[test]
fn from_vec_keeps_the_allocation() {
    let mut original: Vec<i32> = Vec::with_capacity(10);
    original.push(1);
    original.push(2);
    let v = TwoSidedVec::from(original);
    assert_eq!(v.front(), &[1, 2]);
    assert!(v.capacity_front() >= 10);
    assert_eq!(v.capacity_back(), 0);
}

#[test]
fn a_forgotten_drain_leaves_its_side_empty() {
    let mut v = sample();
    std::mem::forget(v.drain_filter_front(|_, x| *x > 5));
    assert!(v.front().is_empty());
    assert_eq!(v.end(), 0);
    assert_eq!(v.back(), &[1, 2, 3]);
    let mut w = sample();
    std::mem::forget(w.drain_filter_back(|_, x| *x < 3));
    assert!(w.back().is_empty());
    assert_eq!(w.start(), 0);
    assert_eq!(w.front(), &[4, 5, 6, 7]);
}

#[test]
fn a_drain_dropped_early_keeps_what_it_visited() {
    let mut v = sample();
    {
        let mut d = v.drain_filter_front(|_, x| *x == 5);
        assert_eq!(d.next(), Some(5));
    }
    assert_eq!(v.front(), &[4]);
}

#[test]
fn equality_across_element_types() {
    let mut owned: TwoSidedVec<String> = TwoSidedVec::new();
    owned.push_back("a".to_string());
    owned.push_front("b".to_string());
    let mut borrowed: TwoSidedVec<&str> = TwoSidedVec::new();
    borrowed.push_back("a");
    borrowed.push_front("b");
    assert!(owned == borrowed);
    borrowed.push_front("c");
    assert!(owned != borrowed);
}
