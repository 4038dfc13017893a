//! The executable reductions: the two extension traits and their
//! implementations for `Vec`.
//!
//! The original iterator-style interface survives as methods that consume a
//! vector of elements left to right. Each method's contract pins the result to
//! the spec-level fold of [`crate::order`], for every spec comparator (or spec
//! key function) that the caller's closure agrees with.

use crate::laws::lemma_by_key_total;
use crate::laws::lemma_fold_first_max_selects;
use crate::laws::lemma_fold_last_min_selects;
use crate::order::by_key;
use crate::order::cmp_matches;
use crate::order::fold_first_max;
use crate::order::fold_last_min;
use crate::order::is_first_max_at;
use crate::order::is_last_min_at;
use crate::order::key_matches;
use crate::order::natural_order;
use crate::order::total_three_way;
use core::cmp::Ordering;
use vstd::prelude::*;
use vstd::std_specs::cmp::OrdSpec;

verus! {

/// The shared single-pass engine of the first-max policy: one retained best
/// element, displaced only when the comparator says it is strictly less than
/// the candidate, so the earliest of the tied maxima survives.
pub fn reduce_first_max_by<T, F: Fn(&T, &T) -> Ordering>(v: Vec<T>, f: F) -> (r: Option<T>)
    requires
        forall|a: &T, b: &T| call_requires(f, (a, b)),
    ensures
        (r is None) <==> v@.len() == 0,
        r matches Some(x) ==> v@.contains(x),
        forall|c: spec_fn(T, T) -> Ordering| #[trigger]
            cmp_matches(f, c) ==> r == fold_first_max(v@, c),
        forall|c: spec_fn(T, T) -> Ordering|
            #[trigger] cmp_matches(f, c) && total_three_way(c) && v@.len() > 0 ==> exists|i: int|
                #[trigger] is_first_max_at(v@, c, i) && r == Some(v@[i]),
{
    let mut v = v;
    let ghost s = v@;
    if v.len() == 0 {
        return None;
    }
    let mut bi: usize = 0;
    let mut i: usize = 1;
    proof {
        assert(v@.take(1).drop_last() =~= Seq::<T>::empty());
        assert(v@.take(1).last() == v@[0]);
        assert forall|c: spec_fn(T, T) -> Ordering| #[trigger]
            cmp_matches(f, c) implies fold_first_max(v@.take(1), c) == Some(v@[0]) by {
            assert(fold_first_max(Seq::<T>::empty(), c) == None::<T>);
        }
    }
    while i < v.len()
        invariant
            0 < v@.len(),
            0 <= bi < i <= v@.len(),
            forall|a: &T, b: &T| call_requires(f, (a, b)),
            forall|c: spec_fn(T, T) -> Ordering| #[trigger]
                cmp_matches(f, c) ==> fold_first_max(v@.take(i as int), c) == Some(v@[bi as int]),
        decreases v@.len() - i,
    {
        let a_ref = &v[bi];
        let b_ref = &v[i];
        let o = f(a_ref, b_ref);
        proof {
            assert forall|c: spec_fn(T, T) -> Ordering| #[trigger] cmp_matches(f, c) implies o == c(
                v@[bi as int],
                v@[i as int],
            ) by {
                assert(call_ensures(f, (a_ref, b_ref), o));
            }
            assert(v@.take(i + 1).drop_last() =~= v@.take(i as int));
            assert(v@.take(i + 1).last() == v@[i as int]);
        }
        if matches!(o, Ordering::Less) {
            bi = i;
        }
        i = i + 1;
    }
    proof {
        assert(v@.take(v@.len() as int) =~= v@);
    }
    let x = v.swap_remove(bi);
    proof {
        assert forall|c: spec_fn(T, T) -> Ordering|
            #[trigger] cmp_matches(f, c) && total_three_way(c) && s.len() > 0 implies exists|i: int|
                #[trigger] is_first_max_at(s, c, i) && Some(x) == Some(s[i]) by {
            lemma_fold_first_max_selects(s, c);
        }
    }
    Some(x)
}

/// The shared single-pass engine of the last-min policy: one retained best
/// element, displaced whenever the comparator does not say it is strictly
/// less than the candidate, so the latest of the tied minima survives.
pub fn reduce_last_min_by<T, F: Fn(&T, &T) -> Ordering>(v: Vec<T>, f: F) -> (r: Option<T>)
    requires
        forall|a: &T, b: &T| call_requires(f, (a, b)),
    ensures
        (r is None) <==> v@.len() == 0,
        r matches Some(x) ==> v@.contains(x),
        forall|c: spec_fn(T, T) -> Ordering| #[trigger]
            cmp_matches(f, c) ==> r == fold_last_min(v@, c),
        forall|c: spec_fn(T, T) -> Ordering|
            #[trigger] cmp_matches(f, c) && total_three_way(c) && v@.len() > 0 ==> exists|i: int|
                #[trigger] is_last_min_at(v@, c, i) && r == Some(v@[i]),
{
    let mut v = v;
    let ghost s = v@;
    if v.len() == 0 {
        return None;
    }
    let mut bi: usize = 0;
    let mut i: usize = 1;
    proof {
        assert(v@.take(1).drop_last() =~= Seq::<T>::empty());
        assert(v@.take(1).last() == v@[0]);
        assert forall|c: spec_fn(T, T) -> Ordering| #[trigger]
            cmp_matches(f, c) implies fold_last_min(v@.take(1), c) == Some(v@[0]) by {
            assert(fold_last_min(Seq::<T>::empty(), c) == None::<T>);
        }
    }
    while i < v.len()
        invariant
            0 < v@.len(),
            0 <= bi < i <= v@.len(),
            forall|a: &T, b: &T| call_requires(f, (a, b)),
            forall|c: spec_fn(T, T) -> Ordering| #[trigger]
                cmp_matches(f, c) ==> fold_last_min(v@.take(i as int), c) == Some(v@[bi as int]),
        decreases v@.len() - i,
    {
        let a_ref = &v[bi];
        let b_ref = &v[i];
        let o = f(a_ref, b_ref);
        proof {
            assert forall|c: spec_fn(T, T) -> Ordering| #[trigger] cmp_matches(f, c) implies o == c(
                v@[bi as int],
                v@[i as int],
            ) by {
                assert(call_ensures(f, (a_ref, b_ref), o));
            }
            assert(v@.take(i + 1).drop_last() =~= v@.take(i as int));
            assert(v@.take(i + 1).last() == v@[i as int]);
        }
        if !matches!(o, Ordering::Less) {
            bi = i;
        }
        i = i + 1;
    }
    proof {
        assert(v@.take(v@.len() as int) =~= v@);
    }
    let x = v.swap_remove(bi);
    proof {
        assert forall|c: spec_fn(T, T) -> Ordering|
            #[trigger] cmp_matches(f, c) && total_three_way(c) && s.len() > 0 implies exists|i: int|
                #[trigger] is_last_min_at(s, c, i) && Some(x) == Some(s[i]) by {
            lemma_fold_last_min_selects(s, c);
        }
    }
    Some(x)
}

/// The single-pass engine of the keyed first-max policy: the key of each
/// element is computed once, the one retained best is displaced only when its
/// key compares strictly less than the candidate's key, and the element (not
/// the key) is returned.
pub fn reduce_first_max_by_key<T, B: Ord, F: Fn(&T) -> B>(v: Vec<T>, f: F) -> (r: Option<T>)
    requires
        forall|a: &T| call_requires(f, (a,)),
    ensures
        (r is None) <==> v@.len() == 0,
        r matches Some(x) ==> v@.contains(x),
        forall|k: spec_fn(T) -> B| #[trigger]
            key_matches(f, k) && B::obeys_cmp_spec() ==> r == fold_first_max(v@, by_key(k)),
        forall|k: spec_fn(T) -> B|
            #[trigger] key_matches(f, k) && B::obeys_cmp_spec() && total_three_way(
                natural_order::<B>(),
            ) && v@.len() > 0 ==> exists|i: int|
                #[trigger] is_first_max_at(v@, by_key(k), i) && r == Some(v@[i]),
{
    let mut v = v;
    let ghost s = v@;
    if v.len() == 0 {
        return None;
    }
    let mut bk: B = f(&v[0]);
    let mut bi: usize = 0;
    let mut i: usize = 1;
    proof {
        assert(v@.take(1).drop_last() =~= Seq::<T>::empty());
        assert(v@.take(1).last() == v@[0]);
        assert forall|k: spec_fn(T) -> B| #[trigger]
            key_matches(f, k) implies bk == k(v@[0]) && fold_first_max(v@.take(1), by_key(k))
            == Some(v@[0]) by {
            assert(fold_first_max(Seq::<T>::empty(), by_key(k)) == None::<T>);
        }
    }
    while i < v.len()
        invariant
            0 < v@.len(),
            0 <= bi < i <= v@.len(),
            forall|a: &T| call_requires(f, (a,)),
            forall|k: spec_fn(T) -> B| #[trigger]
                key_matches(f, k) ==> bk == k(v@[bi as int]) && (B::obeys_cmp_spec()
                    ==> fold_first_max(v@.take(i as int), by_key(k)) == Some(v@[bi as int])),
        decreases v@.len() - i,
    {
        let k_ref = &v[i];
        let kk = f(k_ref);
        let o = bk.cmp(&kk);
        proof {
            assert forall|k: spec_fn(T) -> B| #[trigger] key_matches(f, k) implies kk == k(
                v@[i as int],
            ) && (B::obeys_cmp_spec() ==> o == (by_key(k))(v@[bi as int], v@[i as int])) by {
                assert(call_ensures(f, (k_ref,), kk));
            }
            assert(v@.take(i + 1).drop_last() =~= v@.take(i as int));
            assert(v@.take(i + 1).last() == v@[i as int]);
        }
        if matches!(o, Ordering::Less) {
            bi = i;
            bk = kk;
        }
        i = i + 1;
    }
    proof {
        assert(v@.take(v@.len() as int) =~= v@);
    }
    let x = v.swap_remove(bi);
    proof {
        assert forall|k: spec_fn(T) -> B|
            #[trigger] key_matches(f, k) && B::obeys_cmp_spec() && total_three_way(
                natural_order::<B>(),
            ) && s.len() > 0 implies exists|i: int|
                #[trigger] is_first_max_at(s, by_key(k), i) && Some(x) == Some(s[i]) by {
            lemma_by_key_total::<T, B>(k);
            lemma_fold_first_max_selects(s, by_key(k));
        }
    }
    Some(x)
}

/// The single-pass engine of the keyed last-min policy: the key of each
/// element is computed once, the one retained best is displaced whenever its
/// key does not compare strictly less than the candidate's key, and the
/// element (not the key) is returned.
pub fn reduce_last_min_by_key<T, B: Ord, F: Fn(&T) -> B>(v: Vec<T>, f: F) -> (r: Option<T>)
    requires
        forall|a: &T| call_requires(f, (a,)),
    ensures
        (r is None) <==> v@.len() == 0,
        r matches Some(x) ==> v@.contains(x),
        forall|k: spec_fn(T) -> B| #[trigger]
            key_matches(f, k) && B::obeys_cmp_spec() ==> r == fold_last_min(v@, by_key(k)),
        forall|k: spec_fn(T) -> B|
            #[trigger] key_matches(f, k) && B::obeys_cmp_spec() && total_three_way(
                natural_order::<B>(),
            ) && v@.len() > 0 ==> exists|i: int|
                #[trigger] is_last_min_at(v@, by_key(k), i) && r == Some(v@[i]),
{
    let mut v = v;
    let ghost s = v@;
    if v.len() == 0 {
        return None;
    }
    let mut bk: B = f(&v[0]);
    let mut bi: usize = 0;
    let mut i: usize = 1;
    proof {
        assert(v@.take(1).drop_last() =~= Seq::<T>::empty());
        assert(v@.take(1).last() == v@[0]);
        assert forall|k: spec_fn(T) -> B| #[trigger]
            key_matches(f, k) implies bk == k(v@[0]) && fold_last_min(v@.take(1), by_key(k))
            == Some(v@[0]) by {
            assert(fold_last_min(Seq::<T>::empty(), by_key(k)) == None::<T>);
        }
    }
    while i < v.len()
        invariant
            0 < v@.len(),
            0 <= bi < i <= v@.len(),
            forall|a: &T| call_requires(f, (a,)),
            forall|k: spec_fn(T) -> B| #[trigger]
                key_matches(f, k) ==> bk == k(v@[bi as int]) && (B::obeys_cmp_spec()
                    ==> fold_last_min(v@.take(i as int), by_key(k)) == Some(v@[bi as int])),
        decreases v@.len() - i,
    {
        let k_ref = &v[i];
        let kk = f(k_ref);
        let o = bk.cmp(&kk);
        proof {
            assert forall|k: spec_fn(T) -> B| #[trigger] key_matches(f, k) implies kk == k(
                v@[i as int],
            ) && (B::obeys_cmp_spec() ==> o == (by_key(k))(v@[bi as int], v@[i as int])) by {
                assert(call_ensures(f, (k_ref,), kk));
            }
            assert(v@.take(i + 1).drop_last() =~= v@.take(i as int));
            assert(v@.take(i + 1).last() == v@[i as int]);
        }
        if !matches!(o, Ordering::Less) {
            bi = i;
            bk = kk;
        }
        i = i + 1;
    }
    proof {
        assert(v@.take(v@.len() as int) =~= v@);
    }
    let x = v.swap_remove(bi);
    proof {
        assert forall|k: spec_fn(T) -> B|
            #[trigger] key_matches(f, k) && B::obeys_cmp_spec() && total_three_way(
                natural_order::<B>(),
            ) && s.len() > 0 implies exists|i: int|
                #[trigger] is_last_min_at(s, by_key(k), i) && Some(x) == Some(s[i]) by {
            lemma_by_key_total::<T, B>(k);
            lemma_fold_last_min_selects(s, by_key(k));
        }
    }
    Some(x)
}

/// Reduction to the maximum with a first-wins tie-break: among elements tied
/// for the maximum, the earliest one in the sequence is returned.
pub trait IterFirstMaxExt<T>: View<V = Seq<T>> + Sized {
    /// Get the max element; if several are equal, return the first of them.
    fn first_max(self) -> (r: Option<T>) where T: Ord
        ensures
            (r is None) <==> self@.len() == 0,
            r matches Some(x) ==> self@.contains(x),
            T::obeys_cmp_spec() ==> r == fold_first_max(self@, natural_order::<T>()),
            T::obeys_cmp_spec() && total_three_way(natural_order::<T>()) && self@.len() > 0
                ==> exists|i: int|
                #[trigger] is_first_max_at(self@, natural_order::<T>(), i) && r == Some(self@[i]),
    ;

    /// Get the max element under the comparator `f`; if several are equal,
    /// return the first of them.
    fn first_max_by<F: Fn(&T, &T) -> Ordering>(self, f: F) -> (r: Option<T>)
        requires
            forall|a: &T, b: &T| call_requires(f, (a, b)),
        ensures
            (r is None) <==> self@.len() == 0,
            r matches Some(x) ==> self@.contains(x),
            forall|c: spec_fn(T, T) -> Ordering| #[trigger]
                cmp_matches(f, c) ==> r == fold_first_max(self@, c),
            forall|c: spec_fn(T, T) -> Ordering|
                #[trigger] cmp_matches(f, c) && total_three_way(c) && self@.len() > 0
                    ==> exists|i: int|
                    #[trigger] is_first_max_at(self@, c, i) && r == Some(self@[i]),
    ;

    /// Get the element whose key under `f` is maximal; if several keys are
    /// equal, return the first of the tied elements, never comparing the
    /// elements themselves.
    fn first_max_by_key<B: Ord, F: Fn(&T) -> B>(self, f: F) -> (r: Option<T>)
        requires
            forall|a: &T| call_requires(f, (a,)),
        ensures
            (r is None) <==> self@.len() == 0,
            r matches Some(x) ==> self@.contains(x),
            forall|k: spec_fn(T) -> B| #[trigger]
                key_matches(f, k) && B::obeys_cmp_spec() ==> r == fold_first_max(
                    self@,
                    by_key(k),
                ),
            forall|k: spec_fn(T) -> B|
                #[trigger] key_matches(f, k) && B::obeys_cmp_spec() && total_three_way(
                    natural_order::<B>(),
                ) && self@.len() > 0 ==> exists|i: int|
                    #[trigger] is_first_max_at(self@, by_key(k), i) && r == Some(self@[i]),
    ;
}

impl<T> IterFirstMaxExt<T> for Vec<T> {
    fn first_max(self) -> (r: Option<T>) where T: Ord {
        let f = |a: &T, b: &T| -> (o: Ordering)
            ensures
                T::obeys_cmp_spec() ==> o == a.cmp_spec(b),
            { a.cmp(b) };
        proof {
            if T::obeys_cmp_spec() {
                assert forall|a: &T, b: &T, o: Ordering| #[trigger]
                    call_ensures(f, (a, b), o) implies o == (natural_order::<T>())(*a, *b) by {}
                assert(cmp_matches(f, natural_order::<T>()));
            }
        }
        reduce_first_max_by(self, f)
    }

    fn first_max_by<F: Fn(&T, &T) -> Ordering>(self, f: F) -> (r: Option<T>) {
        reduce_first_max_by(self, f)
    }

    fn first_max_by_key<B: Ord, F: Fn(&T) -> B>(self, f: F) -> (r: Option<T>) {
        reduce_first_max_by_key(self, f)
    }
}

/// Reduction to the minimum with a last-wins tie-break: among elements tied
/// for the minimum, the latest one in the sequence is returned.
pub trait IterLastMinExt<T>: View<V = Seq<T>> + Sized {
    /// Get the min element; if several are equal, return the last of them.
    fn last_min(self) -> (r: Option<T>) where T: Ord
        ensures
            (r is None) <==> self@.len() == 0,
            r matches Some(x) ==> self@.contains(x),
            T::obeys_cmp_spec() ==> r == fold_last_min(self@, natural_order::<T>()),
            T::obeys_cmp_spec() && total_three_way(natural_order::<T>()) && self@.len() > 0
                ==> exists|i: int|
                #[trigger] is_last_min_at(self@, natural_order::<T>(), i) && r == Some(self@[i]),
    ;

    /// Get the min element under the comparator `f`; if several are equal,
    /// return the last of them.
    fn last_min_by<F: Fn(&T, &T) -> Ordering>(self, f: F) -> (r: Option<T>)
        requires
            forall|a: &T, b: &T| call_requires(f, (a, b)),
        ensures
            (r is None) <==> self@.len() == 0,
            r matches Some(x) ==> self@.contains(x),
            forall|c: spec_fn(T, T) -> Ordering| #[trigger]
                cmp_matches(f, c) ==> r == fold_last_min(self@, c),
            forall|c: spec_fn(T, T) -> Ordering|
                #[trigger] cmp_matches(f, c) && total_three_way(c) && self@.len() > 0
                    ==> exists|i: int|
                    #[trigger] is_last_min_at(self@, c, i) && r == Some(self@[i]),
    ;

    /// Get the element whose key under `f` is minimal; if several keys are
    /// equal, return the last of the tied elements, never comparing the
    /// elements themselves.
    fn last_min_by_key<B: Ord, F: Fn(&T) -> B>(self, f: F) -> (r: Option<T>)
        requires
            forall|a: &T| call_requires(f, (a,)),
        ensures
            (r is None) <==> self@.len() == 0,
            r matches Some(x) ==> self@.contains(x),
            forall|k: spec_fn(T) -> B| #[trigger]
                key_matches(f, k) && B::obeys_cmp_spec() ==> r == fold_last_min(
                    self@,
                    by_key(k),
                ),
            forall|k: spec_fn(T) -> B|
                #[trigger] key_matches(f, k) && B::obeys_cmp_spec() && total_three_way(
                    natural_order::<B>(),
                ) && self@.len() > 0 ==> exists|i: int|
                    #[trigger] is_last_min_at(self@, by_key(k), i) && r == Some(self@[i]),
    ;
}

impl<T> IterLastMinExt<T> for Vec<T> {
    fn last_min(self) -> (r: Option<T>) where T: Ord {
        let f = |a: &T, b: &T| -> (o: Ordering)
            ensures
                T::obeys_cmp_spec() ==> o == a.cmp_spec(b),
            { a.cmp(b) };
        proof {
            if T::obeys_cmp_spec() {
                assert forall|a: &T, b: &T, o: Ordering| #[trigger]
                    call_ensures(f, (a, b), o) implies o == (natural_order::<T>())(*a, *b) by {}
                assert(cmp_matches(f, natural_order::<T>()));
            }
        }
        reduce_last_min_by(self, f)
    }

    fn last_min_by<F: Fn(&T, &T) -> Ordering>(self, f: F) -> (r: Option<T>) {
        reduce_last_min_by(self, f)
    }

    fn last_min_by_key<B: Ord, F: Fn(&T) -> B>(self, f: F) -> (r: Option<T>) {
        reduce_last_min_by_key(self, f)
    }
}

} // verus!
