//! The mathematical model: spec-level three-way comparators, the left-to-right
//! folds that define the two tie-break policies, and the index predicates that
//! characterise which element each policy selects.

use core::cmp::Ordering;
use vstd::prelude::*;
use vstd::std_specs::cmp::OrdSpec;

verus! {

/// The mirror image of a three-way comparison answer.
pub open spec fn flip(o: Ordering) -> Ordering {
    match o {
        Ordering::Less => Ordering::Greater,
        Ordering::Equal => Ordering::Equal,
        Ordering::Greater => Ordering::Less,
    }
}

/// `c` presents a total order three ways: swapping the arguments mirrors the
/// answer, and "not greater" (less-or-equal) is transitive.
pub open spec fn total_three_way<T>(c: spec_fn(T, T) -> Ordering) -> bool {
    &&& forall|a: T, b: T| #[trigger] c(a, b) == flip(c(b, a))
    &&& forall|a: T, b: T, x: T|
        #![trigger c(a, b), c(b, x)]
        c(a, b) != Ordering::Greater && c(b, x) != Ordering::Greater ==> c(a, x)
            != Ordering::Greater
}

/// The comparator of a type's own total order, as vstd specifies `Ord::cmp`.
pub open spec fn natural_order<T: Ord>() -> spec_fn(T, T) -> Ordering {
    |a: T, b: T| a.cmp_spec(&b)
}

/// The comparator induced on elements by comparing derived keys.
pub open spec fn by_key<T, B: Ord>(k: spec_fn(T) -> B) -> spec_fn(T, T) -> Ordering {
    |a: T, b: T| k(a).cmp_spec(&k(b))
}

/// Every answer the executable comparator `f` can give agrees with the spec
/// comparator `c`.
pub open spec fn cmp_matches<T, F: Fn(&T, &T) -> Ordering>(
    f: F,
    c: spec_fn(T, T) -> Ordering,
) -> bool {
    forall|a: &T, b: &T, o: Ordering| #[trigger] call_ensures(f, (a, b), o) ==> o == c(*a, *b)
}

/// Every answer the executable key function `f` can give agrees with the spec
/// key function `k`.
pub open spec fn key_matches<T, B, F: Fn(&T) -> B>(f: F, k: spec_fn(T) -> B) -> bool {
    forall|a: &T, b: B| #[trigger] call_ensures(f, (a,), b) ==> b == k(*a)
}

/// The first-max policy as a left-to-right fold: a candidate displaces the
/// running best only when the best compares strictly less, so on a tie the
/// earlier element is retained.
pub open spec fn fold_first_max<T>(s: Seq<T>, c: spec_fn(T, T) -> Ordering) -> Option<T>
    decreases s.len(),
{
    if s.len() == 0 {
        None
    } else {
        match fold_first_max(s.drop_last(), c) {
            None => Some(s.last()),
            Some(b) => if c(b, s.last()) == Ordering::Less {
                Some(s.last())
            } else {
                Some(b)
            },
        }
    }
}

/// The last-min policy as a left-to-right fold: a candidate displaces the
/// running best whenever the best does not compare strictly less, so on a tie
/// the later element wins.
pub open spec fn fold_last_min<T>(s: Seq<T>, c: spec_fn(T, T) -> Ordering) -> Option<T>
    decreases s.len(),
{
    if s.len() == 0 {
        None
    } else {
        match fold_last_min(s.drop_last(), c) {
            None => Some(s.last()),
            Some(b) => if c(b, s.last()) != Ordering::Less {
                Some(s.last())
            } else {
                Some(b)
            },
        }
    }
}

/// Index `i` picks the first maximum of `s` under `c`: no element of `s`
/// compares strictly above `s[i]`, and every element before position `i`
/// compares strictly below it (so no earlier index attains the maximum).
pub open spec fn is_first_max_at<T>(s: Seq<T>, c: spec_fn(T, T) -> Ordering, i: int) -> bool {
    &&& 0 <= i < s.len()
    &&& forall|j: int| 0 <= j < s.len() ==> c(s[i], #[trigger] s[j]) != Ordering::Less
    &&& forall|j: int| 0 <= j < i ==> c(#[trigger] s[j], s[i]) == Ordering::Less
}

/// Index `i` picks the last minimum of `s` under `c`: no element of `s`
/// compares strictly below `s[i]`, and every element after position `i`
/// compares strictly above it (so no later index attains the minimum).
pub open spec fn is_last_min_at<T>(s: Seq<T>, c: spec_fn(T, T) -> Ordering, i: int) -> bool {
    &&& 0 <= i < s.len()
    &&& forall|j: int| 0 <= j < s.len() ==> c(s[i], #[trigger] s[j]) != Ordering::Greater
    &&& forall|j: int| i < j < s.len() ==> c(#[trigger] s[j], s[i]) == Ordering::Greater
}

} // verus!
