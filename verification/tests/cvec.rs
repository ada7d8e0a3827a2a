use memutils::ctools::cvec::{resolve_bounds, Bound, CVec};
use memutils::ctools::ICVec;
use std::cmp::Ordering;
use memutils::errors::CapacityError;
use std::rc::Rc;

fn contents<const N: usize>(v: &CVec<i32, N>) -> Vec<i32> {
    v.as_slice().into_iter().copied().collect()
}

#[test]
fn new_vector_is_empty() {
    let v: CVec<i32, 4> = CVec::new();
    assert_eq!(v.len(), 0);
    assert!(v.is_empty());
    assert!(!v.is_full());
    assert_eq!(v.capacity(), 4);
    assert_eq!(v.remaining_capacity(), 4);
    assert!(v.as_slice().is_empty());
    let w: CVec<i32, 4> = CVec::new_const();
    assert!(w.is_empty());
}

#[test]
fn pushes_keep_count_and_order() {
    let mut v: CVec<i32, 8> = CVec::new();
    for i in 0..8 {
        assert_eq!(v.len(), i as usize);
        v.push(i * 10);
    }
    assert_eq!(v.len(), 8);
    assert!(v.is_full());
    assert_eq!(contents(&v), vec![0, 10, 20, 30, 40, 50, 60, 70]);
}

#[test]
fn push_past_capacity_returns_the_element() {
    let mut v: CVec<i32, 2> = CVec::new();
    assert_eq!(v.try_push(1), Ok(()));
    assert_eq!(v.try_push(2), Ok(()));
    let rejected = v.try_push(3);
    assert_eq!(rejected, Err(CapacityError::new(3)));
    assert_eq!(rejected.unwrap_err().element(), 3);
    assert_eq!(v.len(), 2);
    assert_eq!(contents(&v), vec![1, 2]);
    assert_eq!(v.try_push(4), Err(CapacityError::new(4)));
    assert_eq!(contents(&v), vec![1, 2]);
}

#[test]
fn zero_capacity_rejects_everything() {
    let mut v: CVec<i32, 0> = CVec::new();
    assert!(v.is_full());
    assert_eq!(v.try_push(7), Err(CapacityError::new(7)));
    assert_eq!(v.pop(), None);
}

#[test]
fn scenario_of_four() {
    let mut v: CVec<i32, 4> = CVec::new();
    v.push(1);
    v.push(2);
    v.push(3);
    v.push(4);
    assert_eq!(v.len(), 4);
    assert_eq!(v.try_push(5), Err(CapacityError::new(5)));
    assert_eq!(v.remove(1), 2);
    assert_eq!(contents(&v), vec![1, 3, 4]);
    let mut drain = v.drain(0..2);
    assert_eq!(drain.next(), Some(1));
    assert_eq!(drain.next(), Some(3));
    assert_eq!(drain.next(), None);
    drain.finish();
    assert_eq!(contents(&v), vec![4]);
    assert_eq!(v.len(), 1);
}

#[test]
fn pop_takes_from_the_end() {
    let mut v: CVec<i32, 3> = CVec::from([1, 2, 3]);
    assert_eq!(v.pop(), Some(3));
    assert_eq!(v.pop(), Some(2));
    assert_eq!(contents(&v), vec![1]);
    assert_eq!(v.pop(), Some(1));
    assert_eq!(v.pop(), None);
    assert!(v.is_empty());
}

#[test]
fn insert_shifts_right() {
    let mut v: CVec<i32, 5> = CVec::new();
    v.push(1);
    v.push(3);
    v.insert(1, 2);
    assert_eq!(contents(&v), vec![1, 2, 3]);
    v.insert(0, 0);
    v.insert(4, 4);
    assert_eq!(contents(&v), vec![0, 1, 2, 3, 4]);
    assert_eq!(v.try_insert(2, 9), Err(CapacityError::new(9)));
    assert_eq!(contents(&v), vec![0, 1, 2, 3, 4]);
}

#[test]
fn remove_shifts_left() {
    let mut v: CVec<i32, 4> = CVec::from([5, 6, 7, 8]);
    assert_eq!(v.remove(0), 5);
    assert_eq!(contents(&v), vec![6, 7, 8]);
    assert_eq!(v.remove(2), 8);
    assert_eq!(contents(&v), vec![6, 7]);
    assert_eq!(v.pop_at(5), None);
    assert_eq!(v.pop_at(1), Some(7));
    assert_eq!(contents(&v), vec![6]);
}

#[test]
fn swap_remove_moves_the_last_in() {
    let mut v: CVec<i32, 4> = CVec::from([5, 6, 7, 8]);
    assert_eq!(v.swap_remove(0), 5);
    assert_eq!(contents(&v), vec![8, 6, 7]);
    assert_eq!(v.swap_remove(2), 7);
    assert_eq!(contents(&v), vec![8, 6]);
    assert_eq!(v.swap_pop(2), None);
    assert_eq!(v.swap_pop(1), Some(6));
    assert_eq!(contents(&v), vec![8]);
}

#[test]
fn swap_and_get() {
    let mut v: CVec<i32, 3> = CVec::from([1, 2, 3]);
    v.swap(0, 2);
    assert_eq!(*v.get(0), 3);
    assert_eq!(*v.get(1), 2);
    assert_eq!(*v.get(2), 1);
    v.swap(1, 1);
    assert_eq!(contents(&v), vec![3, 2, 1]);
}

#[test]
fn truncate_and_clear() {
    let mut v: CVec<i32, 5> = CVec::from([1, 2, 3, 4, 5]);
    v.truncate(7);
    assert_eq!(v.len(), 5);
    v.truncate(5);
    assert_eq!(v.len(), 5);
    v.truncate(2);
    assert_eq!(contents(&v), vec![1, 2]);
    v.push(9);
    assert_eq!(contents(&v), vec![1, 2, 9]);
    v.clear();
    assert!(v.is_empty());
    v.push(4);
    assert_eq!(contents(&v), vec![4]);
}

#[test]
fn truncate_drops_each_element_once() {
    let marker = Rc::new(());
    let mut v: CVec<Rc<()>, 4> = CVec::new();
    for _ in 0..4 {
        v.push(marker.clone());
    }
    assert_eq!(Rc::strong_count(&marker), 5);
    v.truncate(1);
    assert_eq!(Rc::strong_count(&marker), 2);
    v.retain(|_| false);
    assert_eq!(Rc::strong_count(&marker), 1);
}

#[test]
fn retain_keeps_order() {
    let mut v: CVec<i32, 8> = CVec::from([1, 2, 3, 4, 5, 6, 7, 8]);
    v.retain(|x| *x % 2 == 0);
    assert_eq!(contents(&v), vec![2, 4, 6, 8]);
    v.retain(|x| *x != 4);
    assert_eq!(contents(&v), vec![2, 6, 8]);
    v.push(10);
    assert_eq!(contents(&v), vec![2, 6, 8, 10]);
}

#[test]
fn retain_all_and_none() {
    let mut v: CVec<i32, 4> = CVec::from([1, 2, 3, 4]);
    v.retain(|_| true);
    assert_eq!(contents(&v), vec![1, 2, 3, 4]);
    v.retain(|_| false);
    assert!(v.is_empty());
    v.retain(|_| true);
    assert!(v.is_empty());
}

#[test]
fn retain_after_first_kept_run() {
    let mut v: CVec<i32, 6> = CVec::from([1, 1, 0, 1, 0, 1]);
    v.retain(|x| *x == 1);
    assert_eq!(contents(&v), vec![1, 1, 1, 1]);
    assert_eq!(v.len(), 4);
}

#[test]
fn drain_whole_range_in_order() {
    let mut v: CVec<i32, 5> = CVec::from([1, 2, 3, 4, 5]);
    let mut drain = v.drain(1..4);
    assert_eq!(drain.size_hint(), (3, Some(3)));
    assert_eq!(drain.next(), Some(2));
    assert_eq!(drain.next(), Some(3));
    assert_eq!(drain.next(), Some(4));
    assert_eq!(drain.next(), None);
    assert_eq!(drain.next(), None);
    drain.finish();
    assert_eq!(contents(&v), vec![1, 5]);
}

#[test]
fn drain_finished_early_restores_the_vector() {
    let mut v: CVec<i32, 6> = CVec::from([1, 2, 3, 4, 5, 6]);
    let mut drain = v.drain(1..5);
    assert_eq!(drain.next(), Some(2));
    drain.finish();
    assert_eq!(contents(&v), vec![1, 6]);
    assert_eq!(v.len(), 2);
    v.push(7);
    assert_eq!(contents(&v), vec![1, 6, 7]);
}

#[test]
fn drain_never_consumed() {
    let mut v: CVec<i32, 4> = CVec::from([1, 2, 3, 4]);
    v.drain(0..4).finish();
    assert!(v.is_empty());
    let mut w: CVec<i32, 4> = CVec::from([1, 2, 3, 4]);
    w.drain(2..2).finish();
    assert_eq!(contents(&w), vec![1, 2, 3, 4]);
}

#[test]
fn drain_from_both_ends() {
    let mut v: CVec<i32, 6> = CVec::from([1, 2, 3, 4, 5, 6]);
    let mut drain = v.drain_range(1, 5);
    assert_eq!(drain.next_back(), Some(5));
    assert_eq!(drain.next(), Some(2));
    assert_eq!(drain.next_back(), Some(4));
    assert_eq!(drain.next(), Some(3));
    assert_eq!(drain.next_back(), None);
    assert_eq!(drain.next(), None);
    drain.finish();
    assert_eq!(contents(&v), vec![1, 6]);
}

#[test]
fn drain_drops_unconsumed_elements_once() {
    let marker = Rc::new(());
    let mut v: CVec<Rc<()>, 4> = CVec::new();
    for _ in 0..4 {
        v.push(marker.clone());
    }
    let mut drain = v.drain(1..3);
    let first = drain.next();
    assert!(first.is_some());
    drain.finish();
    assert_eq!(v.len(), 2);
    assert_eq!(Rc::strong_count(&marker), 4);
    drop(first);
    assert_eq!(Rc::strong_count(&marker), 3);
}

#[test]
fn into_inner_needs_a_full_vector() {
    let mut v: CVec<i32, 3> = CVec::new();
    v.push(1);
    v.push(2);
    let back = match v.into_inner() {
        Ok(_) => panic!("a vector that is not full gave an array"),
        Err(back) => back,
    };
    assert_eq!(contents(&back), vec![1, 2]);
    let mut back = back;
    back.push(3);
    match back.into_inner() {
        Ok(array) => assert_eq!(array, [1, 2, 3]),
        Err(_) => panic!("a full vector gave no array"),
    }
}

#[test]
fn from_array_round_trip() {
    let v: CVec<i32, 4> = CVec::from([9, 8, 7, 6]);
    assert_eq!(v.len(), 4);
    assert!(v.is_full());
    assert_eq!(contents(&v), vec![9, 8, 7, 6]);
    assert_eq!(v.into_inner().ok(), Some([9, 8, 7, 6]));
    let w: CVec<i32, 2> = CVec::from([1, 2]);
    assert_eq!(w.into_inner_unchecked(), [1, 2]);
}

#[test]
fn take_leaves_an_empty_vector() {
    let mut v: CVec<i32, 3> = CVec::from([1, 2, 3]);
    let taken = v.take();
    assert!(v.is_empty());
    assert_eq!(contents(&taken), vec![1, 2, 3]);
    v.push(5);
    assert_eq!(contents(&v), vec![5]);
}

#[test]
fn try_extend_from_slice_is_all_or_nothing() {
    let mut v: CVec<i32, 4> = CVec::new();
    v.push(1);
    assert_eq!(v.try_extend_from_slice(&[2, 3]), Ok(()));
    assert_eq!(contents(&v), vec![1, 2, 3]);
    assert_eq!(v.try_extend_from_slice(&[4, 5]), Err(CapacityError::new(())));
    assert_eq!(contents(&v), vec![1, 2, 3]);
    assert_eq!(v.try_extend_from_slice(&[4]), Ok(()));
    assert_eq!(contents(&v), vec![1, 2, 3, 4]);
    assert_eq!(v.try_extend_from_slice(&[]), Ok(()));
}

#[test]
fn extend_from_slice_stops_at_capacity() {
    let mut v: CVec<i32, 4> = CVec::new();
    v.push(1);
    v.extend_from_slice(&[2, 3]);
    assert_eq!(contents(&v), vec![1, 2, 3]);
    v.extend_from_slice(&[4, 5, 6]);
    assert_eq!(contents(&v), vec![1, 2, 3, 4]);
    v.extend_from_slice(&[7]);
    assert_eq!(contents(&v), vec![1, 2, 3, 4]);
}

#[test]
fn extend_appends_in_order() {
    let mut v: CVec<i32, 5> = CVec::new();
    v.push(1);
    v.extend(vec![2, 3, 4].into_iter());
    assert_eq!(contents(&v), vec![1, 2, 3, 4]);
    v.extend(Vec::new().into_iter());
    assert_eq!(contents(&v), vec![1, 2, 3, 4]);
    v.extend_from_iter::<_, false>(5..6);
    assert_eq!(contents(&v), vec![1, 2, 3, 4, 5]);
    let w: CVec<i32, 3> = CVec::from_iter(vec![7, 8].into_iter());
    assert_eq!(contents(&w), vec![7, 8]);
    let full: CVec<i32, 3> = CVec::from_iter(1..4);
    assert!(full.is_full());
    assert_eq!(contents(&full), vec![1, 2, 3]);
}

#[test]
fn try_from_slice_checks_the_length() {
    let v: Result<CVec<i32, 3>, CapacityError> = CVec::try_from(&[1, 2, 3]);
    assert_eq!(contents(&v.ok().unwrap()), vec![1, 2, 3]);
    let w: Result<CVec<i32, 3>, CapacityError> = CVec::try_from(&[1, 2, 3, 4]);
    assert!(w.is_err());
    let e: Result<CVec<i32, 3>, CapacityError> = CVec::try_from(&[]);
    assert!(e.ok().unwrap().is_empty());
}

#[test]
fn into_iter_from_both_ends() {
    let v: CVec<i32, 5> = CVec::from([1, 2, 3, 4, 5]);
    let mut it = v.into_iter();
    assert_eq!(it.size_hint(), (5, Some(5)));
    assert_eq!(it.next(), Some(1));
    assert_eq!(it.next_back(), Some(5));
    assert_eq!(it.next_back(), Some(4));
    assert_eq!(it.size_hint(), (2, Some(2)));
    assert_eq!(it.next(), Some(2));
    assert_eq!(it.next(), Some(3));
    assert_eq!(it.next(), None);
    assert_eq!(it.next_back(), None);
    assert_eq!(it.size_hint(), (0, Some(0)));
}

#[test]
fn into_iter_dropped_early_drops_the_rest_once() {
    let marker = Rc::new(());
    let mut v: CVec<Rc<()>, 4> = CVec::new();
    for _ in 0..4 {
        v.push(marker.clone());
    }
    let mut it = v.into_iter();
    let first = it.next();
    assert_eq!(Rc::strong_count(&marker), 5);
    drop(it);
    assert_eq!(Rc::strong_count(&marker), 2);
    drop(first);
    assert_eq!(Rc::strong_count(&marker), 1);
}

#[test]
fn write_takes_what_fits() {
    let mut v: CVec<u8, 4> = CVec::new();
    assert_eq!(v.write(&[1, 2, 3]), 3);
    assert_eq!(v.write(&[4, 5, 6]), 1);
    assert_eq!(v.write(&[7]), 0);
    v.flush();
    let bytes: Vec<u8> = v.as_slice().into_iter().copied().collect();
    assert_eq!(bytes, vec![1, 2, 3, 4]);
}

#[test]
fn equal_contents_compare_equal() {
    let a: CVec<i32, 3> = CVec::from([1, 2, 3]);
    let mut b: CVec<i32, 5> = CVec::new();
    b.extend(vec![1, 2, 3].into_iter());
    assert!(a.eq(&b));
    b.push(4);
    assert!(!a.eq(&b));
    b.pop();
    b.pop();
    b.push(9);
    assert!(!a.eq(&b));
}

#[test]
fn get_mut_changes_in_place() {
    let mut v: CVec<i32, 3> = CVec::from([1, 2, 3]);
    *v.get_mut(1) = 20;
    *v.get_mut(2) += 5;
    assert_eq!(contents(&v), vec![1, 20, 8]);
    assert_eq!(v.len(), 3);
}

#[test]
fn drain_by_bounds() {
    let mut v: CVec<i32, 6> = CVec::from([1, 2, 3, 4, 5, 6]);
    let mut drain = v.drain_bounds(Bound::Included(1), Bound::Included(2));
    assert_eq!(drain.next(), Some(2));
    assert_eq!(drain.next(), Some(3));
    assert_eq!(drain.next(), None);
    drain.finish();
    assert_eq!(contents(&v), vec![1, 4, 5, 6]);
    let mut drain = v.drain_bounds(Bound::Excluded(1), Bound::Unbounded);
    assert_eq!(drain.next(), Some(5));
    drain.finish();
    assert_eq!(contents(&v), vec![1, 4]);
    let mut drain = v.drain_bounds(Bound::Unbounded, Bound::Excluded(1));
    assert_eq!(drain.next(), Some(1));
    assert_eq!(drain.next(), None);
    drain.finish();
    assert_eq!(contents(&v), vec![4]);
    v.drain_bounds(Bound::Unbounded, Bound::Unbounded).finish();
    assert!(v.is_empty());
}

#[test]
fn clone_copies_the_elements() {
    let mut v: CVec<i32, 4> = CVec::new();
    v.push(1);
    v.push(2);
    let mut w = v.clone();
    assert_eq!(contents(&w), vec![1, 2]);
    w.push(3);
    assert_eq!(contents(&v), vec![1, 2]);
    assert_eq!(contents(&w), vec![1, 2, 3]);
}

#[test]
fn clone_from_shorter_and_longer() {
    let short: CVec<i32, 4> = CVec::from_iter(vec![7].into_iter());
    let long: CVec<i32, 4> = CVec::from([1, 2, 3, 4]);
    let mut v: CVec<i32, 4> = CVec::from_iter(vec![9, 9].into_iter());
    v.clone_from(&long);
    assert_eq!(contents(&v), vec![1, 2, 3, 4]);
    v.clone_from(&short);
    assert_eq!(contents(&v), vec![7]);
    v.clone_from(&short);
    assert_eq!(contents(&v), vec![7]);
}

#[test]
fn default_is_empty() {
    let v: CVec<i32, 4> = Default::default();
    assert!(v.is_empty());
    assert_eq!(v.capacity(), 4);
}

#[test]
fn into_iter_clone_starts_where_the_first_stands() {
    let v: CVec<i32, 4> = CVec::from([1, 2, 3, 4]);
    let mut it = v.into_iter();
    assert_eq!(it.next(), Some(1));
    assert_eq!(it.next_back(), Some(4));
    let mut copy = it.clone();
    assert_eq!(copy.next(), Some(2));
    assert_eq!(copy.next(), Some(3));
    assert_eq!(copy.next(), None);
    assert_eq!(it.next(), Some(2));
    assert_eq!(it.next(), Some(3));
    assert_eq!(it.next(), None);
}

#[test]
fn vectors_compare_in_dictionary_order() {
    let a: CVec<i32, 3> = CVec::from([1, 2, 3]);
    let b: CVec<i32, 4> = CVec::from([1, 2, 4, 0]);
    let mut c: CVec<i32, 8> = CVec::new();
    c.extend(vec![1, 2].into_iter());
    assert_eq!(a.partial_cmp(&b), Some(Ordering::Less));
    assert_eq!(b.partial_cmp(&a), Some(Ordering::Greater));
    assert_eq!(c.partial_cmp(&a), Some(Ordering::Less));
    assert_eq!(a.partial_cmp(&c), Some(Ordering::Greater));
    c.push(3);
    assert_eq!(a.partial_cmp(&c), Some(Ordering::Equal));
    let empty: CVec<i32, 2> = CVec::new();
    assert_eq!(empty.partial_cmp(&a), Some(Ordering::Less));
    assert_eq!(empty.partial_cmp(&empty), Some(Ordering::Equal));
}

#[test]
fn vectors_of_unordered_elements() {
    let a: CVec<f64, 2> = CVec::from([1.0, f64::NAN]);
    let b: CVec<f64, 2> = CVec::from([1.0, 2.0]);
    let c: CVec<f64, 2> = CVec::from([0.5, f64::NAN]);
    assert_eq!(a.partial_cmp(&b), None);
    assert_eq!(c.partial_cmp(&a), Some(Ordering::Less));
    assert!(!a.eq(&a));
}

#[test]
fn vector_equals_slice() {
    let a: CVec<i32, 4> = CVec::from_iter(vec![1, 2, 3].into_iter());
    assert!(a.eq_slice(&[1, 2, 3]));
    assert!(!a.eq_slice(&[1, 2]));
    assert!(!a.eq_slice(&[1, 2, 4]));
    assert!(!a.eq_slice(&[1, 2, 3, 4]));
}

#[test]
fn bounds_come_to_positions() {
    assert_eq!(resolve_bounds(Bound::Unbounded, Bound::Unbounded, 5), (0, 5));
    assert_eq!(resolve_bounds(Bound::Included(1), Bound::Excluded(3), 5), (1, 3));
    assert_eq!(resolve_bounds(Bound::Excluded(1), Bound::Included(3), 5), (2, 4));
    assert_eq!(
        resolve_bounds(Bound::Excluded(usize::MAX), Bound::Included(usize::MAX), 5),
        (usize::MAX, usize::MAX)
    );
}

#[test]
fn retain_shows_each_element_once_and_may_change_it() {
    let mut v: CVec<i32, 5> = CVec::from([1, 2, 3, 4, 5]);
    let mut calls = 0;
    v.retain(|x| {
        calls += 1;
        *x *= 10;
        *x != 30
    });
    assert_eq!(calls, 5);
    assert_eq!(contents(&v), vec![10, 20, 40, 50]);
    assert_eq!(v.len(), 4);
}

#[test]
fn store_operations_keep_the_boundary() {
    let mut v: CVec<i32, 3> = CVec::new();
    assert_eq!(<CVec<i32, 3> as ICVec>::slot_count(), 3);
    assert_eq!(ICVec::try_push(&mut v, 1), Ok(()));
    ICVec::push(&mut v, 2);
    ICVec::push_unchecked(&mut v, 3);
    assert_eq!(ICVec::try_push(&mut v, 4), Err(CapacityError::new(4)));
    assert_eq!(ICVec::len(&v), 3);
    assert_eq!(*ICVec::slot(&v, 1), Some(2));
    *ICVec::slot_mut(&mut v, 1) = Some(20);
    assert_eq!(contents(&v), vec![1, 20, 3]);
    assert_eq!(ICVec::pop(&mut v), Some(3));
    assert_eq!(*ICVec::slot(&v, 2), None);
    ICVec::truncate(&mut v, 1);
    assert_eq!(*ICVec::slot(&v, 1), None);
    assert_eq!(contents(&v), vec![1]);
    ICVec::clear(&mut v);
    assert_eq!(ICVec::len(&v), 0);
    assert_eq!(ICVec::pop(&mut v), None);
}
