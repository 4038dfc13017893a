//! Proof functions stating the general guarantees of the two tie-break
//! policies over the spec-level folds that the executable contracts use.

use crate::order::by_key;
use crate::order::flip;
use crate::order::fold_first_max;
use crate::order::fold_last_min;
use crate::order::is_first_max_at;
use crate::order::is_last_min_at;
use crate::order::natural_order;
use crate::order::total_three_way;
use core::cmp::Ordering;
use vstd::prelude::*;

verus! {

/// A selected element is never synthesized: a reduction returns no value
/// exactly on the empty sequence, and otherwise one of the input elements.
pub proof fn lemma_fold_first_max_membership<T>(s: Seq<T>, c: spec_fn(T, T) -> Ordering)
    ensures
        match fold_first_max(s, c) {
            None => s.len() == 0,
            Some(x) => s.contains(x),
        },
    decreases s.len(),
{
    if s.len() > 0 {
        lemma_fold_first_max_membership(s.drop_last(), c);
        assert(s[s.len() - 1] == s.last());
        assert forall|x: T| s.drop_last().contains(x) implies s.contains(x) by {
            let j = choose|j: int| 0 <= j < s.drop_last().len() && s.drop_last()[j] == x;
            assert(s[j] == x);
        }
    }
}

/// A selected element is never synthesized: a reduction returns no value
/// exactly on the empty sequence, and otherwise one of the input elements.
pub proof fn lemma_fold_last_min_membership<T>(s: Seq<T>, c: spec_fn(T, T) -> Ordering)
    ensures
        match fold_last_min(s, c) {
            None => s.len() == 0,
            Some(x) => s.contains(x),
        },
    decreases s.len(),
{
    if s.len() > 0 {
        lemma_fold_last_min_membership(s.drop_last(), c);
        assert(s[s.len() - 1] == s.last());
        assert forall|x: T| s.drop_last().contains(x) implies s.contains(x) by {
            let j = choose|j: int| 0 <= j < s.drop_last().len() && s.drop_last()[j] == x;
            assert(s[j] == x);
        }
    }
}

/// On a sequence with exactly one element, every reduction returns that
/// element, whatever the comparator answers.
pub proof fn lemma_singleton<T>(s: Seq<T>, c: spec_fn(T, T) -> Ordering)
    requires
        s.len() == 1,
    ensures
        fold_first_max(s, c) == Some(s[0]),
        fold_last_min(s, c) == Some(s[0]),
{
    assert(s.drop_last() =~= Seq::<T>::empty());
    assert(s.last() == s[0]);
    assert(fold_first_max(Seq::<T>::empty(), c) == None::<T>);
    assert(fold_last_min(Seq::<T>::empty(), c) == None::<T>);
}

/// Under a lawful comparator, the first-max fold selects the element that no
/// element of the sequence exceeds, at the smallest index attaining that
/// maximum.
pub proof fn lemma_fold_first_max_selects<T>(s: Seq<T>, c: spec_fn(T, T) -> Ordering)
    requires
        total_three_way(c),
        s.len() > 0,
    ensures
        exists|i: int| #[trigger] is_first_max_at(s, c, i) && fold_first_max(s, c) == Some(s[i]),
    decreases s.len(),
{
    let n = s.len() - 1;
    let x = s.last();
    assert(x == s[n]);
    if s.len() == 1 {
        assert(c(x, x) == flip(c(x, x)));
        assert(s.drop_last() =~= Seq::<T>::empty());
        assert(is_first_max_at(s, c, 0));
        assert(fold_first_max(s, c) == Some(s[0]));
    } else {
        let p = s.drop_last();
        lemma_fold_first_max_selects(p, c);
        let i = choose|i: int|
            #[trigger] is_first_max_at(p, c, i) && fold_first_max(p, c) == Some(p[i]);
        assert(forall|j: int| 0 <= j < n ==> p[j] == #[trigger] s[j]);
        if c(s[i], x) == Ordering::Less {
            assert forall|j: int| 0 <= j < s.len() implies c(s[n], #[trigger] s[j])
                != Ordering::Less by {
                if j < n {
                    assert(c(s[i], s[j]) != Ordering::Less);
                    assert(c(s[j], s[i]) == flip(c(s[i], s[j])));
                    assert(c(s[i], x) == flip(c(x, s[i])));
                    assert(c(s[j], s[i]) != Ordering::Greater && c(s[i], x) != Ordering::Greater
                        ==> c(s[j], x) != Ordering::Greater);
                    assert(c(s[n], s[j]) == flip(c(s[j], x)));
                } else {
                    assert(c(x, x) == flip(c(x, x)));
                }
            }
            assert forall|j: int| 0 <= j < n implies c(#[trigger] s[j], s[n])
                == Ordering::Less by {
                if c(s[j], x) != Ordering::Less {
                    assert(c(x, s[j]) == flip(c(s[j], x)));
                    assert(c(s[j], s[i]) == flip(c(s[i], s[j])));
                    assert(c(x, s[j]) != Ordering::Greater && c(s[j], s[i]) != Ordering::Greater
                        ==> c(x, s[i]) != Ordering::Greater);
                    assert(c(s[i], x) == flip(c(x, s[i])));
                }
            }
            assert(is_first_max_at(s, c, n as int));
            assert(fold_first_max(s, c) == Some(s[n]));
        } else {
            assert(is_first_max_at(s, c, i));
            assert(fold_first_max(s, c) == Some(s[i]));
        }
    }
}

/// Under a lawful comparator, the last-min fold selects the element that
/// exceeds no element of the sequence, at the largest index attaining that
/// minimum.
pub proof fn lemma_fold_last_min_selects<T>(s: Seq<T>, c: spec_fn(T, T) -> Ordering)
    requires
        total_three_way(c),
        s.len() > 0,
    ensures
        exists|i: int| #[trigger] is_last_min_at(s, c, i) && fold_last_min(s, c) == Some(s[i]),
    decreases s.len(),
{
    let n = s.len() - 1;
    let x = s.last();
    assert(x == s[n]);
    if s.len() == 1 {
        assert(c(x, x) == flip(c(x, x)));
        assert(s.drop_last() =~= Seq::<T>::empty());
        assert(is_last_min_at(s, c, 0));
        assert(fold_last_min(s, c) == Some(s[0]));
    } else {
        let p = s.drop_last();
        lemma_fold_last_min_selects(p, c);
        let i = choose|i: int|
            #[trigger] is_last_min_at(p, c, i) && fold_last_min(p, c) == Some(p[i]);
        assert(forall|j: int| 0 <= j < n ==> p[j] == #[trigger] s[j]);
        if c(s[i], x) != Ordering::Less {
            assert forall|j: int| 0 <= j < s.len() implies c(s[n], #[trigger] s[j])
                != Ordering::Greater by {
                if j < n {
                    assert(c(s[i], s[j]) != Ordering::Greater);
                    assert(c(s[i], x) == flip(c(x, s[i])));
                    assert(c(x, s[i]) != Ordering::Greater && c(s[i], s[j]) != Ordering::Greater
                        ==> c(x, s[j]) != Ordering::Greater);
                } else {
                    assert(c(x, x) == flip(c(x, x)));
                }
            }
            assert(is_last_min_at(s, c, n as int));
            assert(fold_last_min(s, c) == Some(s[n]));
        } else {
            assert forall|j: int| i < j < s.len() implies c(#[trigger] s[j], s[i])
                == Ordering::Greater by {
                if j < n {
                    assert(c(s[j], s[i]) == Ordering::Greater);
                } else {
                    assert(c(s[n], s[i]) == flip(c(s[i], x)));
                }
            }
            assert(is_last_min_at(s, c, i));
            assert(fold_last_min(s, c) == Some(s[i]));
        }
    }
}

/// The index the first-max policy selects is unique: its characterisation
/// admits one index only, whatever the comparator.
pub proof fn lemma_first_max_at_unique<T>(s: Seq<T>, c: spec_fn(T, T) -> Ordering, i: int, j: int)
    requires
        is_first_max_at(s, c, i),
        is_first_max_at(s, c, j),
    ensures
        i == j,
{
    if i < j {
        assert(c(s[j], s[i]) != Ordering::Less);
        assert(c(s[i], s[j]) == Ordering::Less);
    }
    if j < i {
        assert(c(s[i], s[j]) != Ordering::Less);
        assert(c(s[j], s[i]) == Ordering::Less);
    }
}

/// The index the last-min policy selects is unique: its characterisation
/// admits one index only, whatever the comparator.
pub proof fn lemma_last_min_at_unique<T>(s: Seq<T>, c: spec_fn(T, T) -> Ordering, i: int, j: int)
    requires
        is_last_min_at(s, c, i),
        is_last_min_at(s, c, j),
    ensures
        i == j,
{
    if i < j {
        assert(c(s[i], s[j]) != Ordering::Greater);
        assert(c(s[j], s[i]) == Ordering::Greater);
    }
    if j < i {
        assert(c(s[j], s[i]) != Ordering::Greater);
        assert(c(s[i], s[j]) == Ordering::Greater);
    }
}

/// The key variants select by key comparison and position alone: an index is
/// the first-max (resp. last-min) choice of `s` under the key-induced
/// comparator exactly when it is the first-max (resp. last-min) choice of the
/// sequence of keys under the key type's own order. The elements themselves
/// are never consulted.
pub proof fn lemma_by_key_positional<T, B: Ord>(s: Seq<T>, k: spec_fn(T) -> B, i: int)
    ensures
        is_first_max_at(s, by_key(k), i) <==> is_first_max_at(
            s.map_values(k),
            natural_order::<B>(),
            i,
        ),
        is_last_min_at(s, by_key(k), i) <==> is_last_min_at(
            s.map_values(k),
            natural_order::<B>(),
            i,
        ),
{
    let m = s.map_values(k);
    let c = by_key::<T, B>(k);
    let nb = natural_order::<B>();
    assert(m.len() == s.len());
    assert(forall|j: int| 0 <= j < s.len() ==> #[trigger] m[j] == k(s[j]));
    if is_first_max_at(s, c, i) {
        assert forall|j: int| 0 <= j < m.len() implies nb(m[i], #[trigger] m[j])
            != Ordering::Less by {
            assert(c(s[i], s[j]) != Ordering::Less);
        }
        assert forall|j: int| 0 <= j < i implies nb(#[trigger] m[j], m[i]) == Ordering::Less by {
            assert(c(s[j], s[i]) == Ordering::Less);
        }
        assert(is_first_max_at(m, nb, i));
    }
    if is_first_max_at(m, nb, i) {
        assert forall|j: int| 0 <= j < s.len() implies c(s[i], #[trigger] s[j])
            != Ordering::Less by {
            assert(nb(m[i], m[j]) != Ordering::Less);
        }
        assert forall|j: int| 0 <= j < i implies c(#[trigger] s[j], s[i]) == Ordering::Less by {
            assert(nb(m[j], m[i]) == Ordering::Less);
        }
        assert(is_first_max_at(s, c, i));
    }
    if is_last_min_at(s, c, i) {
        assert forall|j: int| 0 <= j < m.len() implies nb(m[i], #[trigger] m[j])
            != Ordering::Greater by {
            assert(c(s[i], s[j]) != Ordering::Greater);
        }
        assert forall|j: int| i < j < m.len() implies nb(#[trigger] m[j], m[i])
            == Ordering::Greater by {
            assert(c(s[j], s[i]) == Ordering::Greater);
        }
        assert(is_last_min_at(m, nb, i));
    }
    if is_last_min_at(m, nb, i) {
        assert forall|j: int| 0 <= j < s.len() implies c(s[i], #[trigger] s[j])
            != Ordering::Greater by {
            assert(nb(m[i], m[j]) != Ordering::Greater);
        }
        assert forall|j: int| i < j < s.len() implies c(#[trigger] s[j], s[i])
            == Ordering::Greater by {
            assert(nb(m[j], m[i]) == Ordering::Greater);
        }
        assert(is_last_min_at(s, c, i));
    }
}

/// The key-induced comparator is lawful whenever the key type's own order is:
/// comparing derived keys inherits mirroring and transitivity.
pub proof fn lemma_by_key_total<T, B: Ord>(k: spec_fn(T) -> B)
    requires
        total_three_way(natural_order::<B>()),
    ensures
        total_three_way(by_key(k)),
{
    let nb = natural_order::<B>();
    let c = by_key::<T, B>(k);
    assert forall|a: T, b: T| #[trigger] c(a, b) == flip(c(b, a)) by {
        assert(nb(k(a), k(b)) == flip(nb(k(b), k(a))));
    }
    assert forall|a: T, b: T, x: T|
        #![trigger c(a, b), c(b, x)]
        c(a, b) != Ordering::Greater && c(b, x) != Ordering::Greater implies c(a, x)
        != Ordering::Greater by {
        assert(nb(k(a), k(b)) != Ordering::Greater && nb(k(b), k(x)) != Ordering::Greater ==> nb(
            k(a),
            k(x),
        ) != Ordering::Greater);
    }
}

/// First-max reduction is a pure function of the sequence and the comparator:
/// the contracts pin every run to the same fold, so two results that the
/// contracts allow for the same sequence and comparator are equal.
pub proof fn lemma_first_max_deterministic<T>(
    s: Seq<T>,
    c: spec_fn(T, T) -> Ordering,
    r1: Option<T>,
    r2: Option<T>,
)
    requires
        r1 == fold_first_max(s, c),
        r2 == fold_first_max(s, c),
    ensures
        r1 == r2,
{
}

/// Last-min reduction is a pure function of the sequence and the comparator:
/// the contracts pin every run to the same fold, so two results that the
/// contracts allow for the same sequence and comparator are equal.
pub proof fn lemma_last_min_deterministic<T>(
    s: Seq<T>,
    c: spec_fn(T, T) -> Ordering,
    r1: Option<T>,
    r2: Option<T>,
)
    requires
        r1 == fold_last_min(s, c),
        r2 == fold_last_min(s, c),
    ensures
        r1 == r2,
{
}

} // verus!
