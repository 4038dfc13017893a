use iter_first_max::IterFirstMaxExt;
use iter_first_max::IterLastMinExt;
use std::cmp::Ordering;

#[test]
fn empty_sequences_yield_no_value() {
    let e: Vec<i64> = vec![];
    assert_eq!(e.clone().first_max(), None);
    assert_eq!(e.clone().first_max_by(|a: &i64, b: &i64| a.cmp(b)), None);
    assert_eq!(e.clone().first_max_by_key(|a: &i64| *a), None);
    assert_eq!(e.clone().last_min(), None);
    assert_eq!(e.clone().last_min_by(|a: &i64, b: &i64| a.cmp(b)), None);
    assert_eq!(e.clone().last_min_by_key(|a: &i64| *a), None);
}

#[test]
fn singleton_sequences_yield_their_element() {
    let s: Vec<i64> = vec![42];
    assert_eq!(s.clone().first_max(), Some(42));
    assert_eq!(s.clone().first_max_by(|a: &i64, b: &i64| a.cmp(b)), Some(42));
    assert_eq!(s.clone().first_max_by_key(|a: &i64| *a), Some(42));
    assert_eq!(s.clone().last_min(), Some(42));
    assert_eq!(s.clone().last_min_by(|a: &i64, b: &i64| a.cmp(b)), Some(42));
    assert_eq!(s.clone().last_min_by_key(|a: &i64| *a), Some(42));
}

#[test]
fn first_max_unique_maximum() {
    let v: Vec<i64> = vec![3, 1, 4, 1, 5, 9, 2, 6];
    assert_eq!(v.first_max(), Some(9));
}

#[test]
fn last_min_unique_minimum() {
    let v: Vec<i64> = vec![3, 1, 4, 1, 5, 9, 2, 6];
    // Two 1s tie for the minimum: the later one (index 3) wins, but they are
    // indistinguishable by value; the unique-by-value check still holds.
    assert_eq!(v.last_min(), Some(1));
}

#[test]
fn keyed_variants_resolve_ties_by_position() {
    let v: Vec<(i32, i32)> = vec![(1, 0), (1, 1), (1, 2), (2, 3), (2, 4)];
    assert_eq!(v.clone().first_max_by_key(|n: &(i32, i32)| n.0), Some((2, 3)));
    assert_eq!(v.clone().last_min_by_key(|n: &(i32, i32)| n.0), Some((1, 2)));
}

#[test]
fn keyed_variants_never_compare_payloads() {
    // Payloads order opposite to their positions; only key comparison and
    // position may decide, so the payload ordering must not leak through.
    let v: Vec<(i32, i32)> = vec![(7, 9), (7, 5), (7, 1)];
    assert_eq!(v.clone().first_max_by_key(|n: &(i32, i32)| n.0), Some((7, 9)));
    assert_eq!(v.clone().last_min_by_key(|n: &(i32, i32)| n.0), Some((7, 1)));
}

#[test]
fn all_equal_elements_pick_first_for_max_and_last_for_min() {
    // Elements carry an index as identity so the tied picks are observable.
    let v: Vec<(i64, usize)> = vec![(5, 0), (5, 1), (5, 2)];
    assert_eq!(v.clone().first_max_by_key(|n: &(i64, usize)| n.0), Some((5, 0)));
    assert_eq!(v.clone().last_min_by_key(|n: &(i64, usize)| n.0), Some((5, 2)));
    // The plain variants agree on the (indistinguishable) value.
    let p: Vec<i64> = vec![5, 5, 5];
    assert_eq!(p.clone().first_max(), Some(5));
    assert_eq!(p.clone().last_min(), Some(5));
}

#[test]
fn comparator_variants_resolve_ties_by_position() {
    let v: Vec<(i32, char)> = vec![(1, 'a'), (3, 'b'), (3, 'c')];
    assert_eq!(
        v.clone().first_max_by(|a: &(i32, char), b: &(i32, char)| a.0.cmp(&b.0)),
        Some((3, 'b'))
    );
    let w: Vec<(i32, char)> = vec![(1, 'a'), (1, 'b'), (3, 'c')];
    assert_eq!(
        w.clone().last_min_by(|a: &(i32, char), b: &(i32, char)| a.0.cmp(&b.0)),
        Some((1, 'b'))
    );
}

#[test]
fn reversed_comparator_turns_first_max_into_first_min() {
    // Under the reversed comparator the "maximum" is the smallest element,
    // still with the first-wins tie rule.
    let v: Vec<(i32, char)> = vec![(4, 'a'), (2, 'b'), (2, 'c'), (9, 'd')];
    assert_eq!(
        v.first_max_by(|a: &(i32, char), b: &(i32, char)| b.0.cmp(&a.0)),
        Some((2, 'b'))
    );
}

#[test]
fn running_twice_gives_the_same_result() {
    let v: Vec<i64> = vec![8, 3, 8, 1, 1];
    assert_eq!(v.clone().first_max(), v.clone().first_max());
    assert_eq!(v.clone().last_min(), v.clone().last_min());
    let cmp = |a: &i64, b: &i64| -> Ordering { a.cmp(b) };
    assert_eq!(v.clone().first_max_by(cmp), v.clone().first_max_by(cmp));
    assert_eq!(v.clone().last_min_by(cmp), v.clone().last_min_by(cmp));
    let key = |a: &i64| -> i64 { *a };
    assert_eq!(v.clone().first_max_by_key(key), v.clone().first_max_by_key(key));
    assert_eq!(v.clone().last_min_by_key(key), v.clone().last_min_by_key(key));
}

#[test]
fn max_is_at_least_every_element() {
    let v: Vec<i64> = vec![-4, 7, 0, 7, -9];
    let m = v.clone().first_max().unwrap();
    for x in &v {
        assert!(m >= *x);
    }
    assert_eq!(m, 7);
}

#[test]
fn min_is_at_most_every_element() {
    let v: Vec<i64> = vec![-4, 7, 0, -9, -9, 3];
    let m = v.clone().last_min().unwrap();
    for x in &v {
        assert!(m <= *x);
    }
    assert_eq!(m, -9);
}
