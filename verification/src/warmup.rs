//! Exercises on vectors of integers.

use std::collections::HashMap;
use vstd::prelude::*;

verus! {

broadcast use vstd::std_specs::hash::group_hash_axioms;

/// `s` with `n` added to every element.
pub open spec fn add_n_seq(s: Seq<i32>, n: i32) -> Seq<int> {
    Seq::new(s.len(), |i: int| s[i] + n)
}

/// Every element of `s` can take `n` without leaving the range of `i32`.
pub open spec fn can_add_n(s: Seq<i32>, n: i32) -> bool {
    forall|i: int| 0 <= i < s.len() ==> i32::MIN <= (#[trigger] s[i]) + n <= i32::MAX
}

/// Adds `n` to every element of `v`, in place.
pub fn add_n_inplace(v: &mut Vec<i32>, n: i32)
    requires
        can_add_n(old(v)@, n),
    ensures
        final(v)@.len() == old(v)@.len(),
        forall|i: int| 0 <= i < old(v)@.len() ==> final(v)@[i] == old(v)@[i] + n,
{
    let ghost before = v@;
    let mut i: usize = 0;
    while i < v.len()
        invariant
            v@.len() == before.len(),
            i <= v@.len(),
            can_add_n(before, n),
            forall|j: int| 0 <= j < i ==> v@[j] == before[j] + n,
            forall|j: int| i <= j < before.len() ==> v@[j] == before[j],
        decreases v@.len() - i,
    {
        let x: i32 = v[i];
        assert(x == before[i as int]);
        v.set(i, x + n);
        i += 1;
    }
}

/// A vector with `n` added to every element of `v`.
pub fn add_n(v: Vec<i32>, n: i32) -> (sums: Vec<i32>)
    requires
        can_add_n(v@, n),
    ensures
        sums@.len() == v@.len(),
        forall|i: int| 0 <= i < v@.len() ==> sums@[i] == v@[i] + n,
{
    let mut sums: Vec<i32> = Vec::new();
    let mut i: usize = 0;
    while i < v.len()
        invariant
            i <= v@.len(),
            sums@.len() == i,
            can_add_n(v@, n),
            forall|j: int| 0 <= j < i ==> sums@[j] == v@[j] + n,
        decreases v@.len() - i,
    {
        let x: i32 = v[i];
        sums.push(x + n);
        i += 1;
    }
    sums
}

/// `s` without the elements that occurred before: of equal elements the
/// first stays, and what stays keeps its order.
pub open spec fn first_occurrences(s: Seq<i32>) -> Seq<i32>
    decreases s.len(),
{
    if s.len() == 0 {
        Seq::empty()
    } else if first_occurrences(s.drop_last()).contains(s.last()) {
        first_occurrences(s.drop_last())
    } else {
        first_occurrences(s.drop_last()).push(s.last())
    }
}

/// What stays of `s` holds the elements of `s`, each of them once.
pub proof fn lemma_first_occurrences(s: Seq<i32>)
    ensures
        first_occurrences(s).no_duplicates(),
        forall|x: i32| first_occurrences(s).contains(x) <==> s.contains(x),
    decreases s.len(),
{
    if s.len() > 0 {
        let front = s.drop_last();
        let kept = first_occurrences(front);
        let all = first_occurrences(s);
        lemma_first_occurrences(front);
        assert forall|x: i32| all.contains(x) <==> s.contains(x) by {
            assert(kept.contains(x) <==> front.contains(x));
            if s.contains(x) {
                let i = choose|i: int| 0 <= i < s.len() && s[i] == x;
                if i < front.len() {
                    assert(front[i] == x);
                    assert(front.contains(x));
                    let j = choose|j: int| 0 <= j < kept.len() && kept[j] == x;
                    assert(all[j] == x);
                } else if !kept.contains(x) {
                    assert(all[all.len() - 1] == x);
                }
            }
            if all.contains(x) {
                let j = choose|j: int| 0 <= j < all.len() && all[j] == x;
                if j < kept.len() {
                    assert(kept[j] == x);
                    assert(kept.contains(x));
                    let i = choose|i: int| 0 <= i < front.len() && front[i] == x;
                    assert(s[i] == x);
                } else {
                    assert(s[s.len() - 1] == x);
                }
            }
        }
        if !kept.contains(s.last()) {
            assert forall|i: int, j: int| 0 <= i < all.len() && 0 <= j < all.len() && i != j implies all[i]
                != all[j] by {
                if i == all.len() - 1 && j < kept.len() {
                    assert(kept.contains(kept[j]));
                }
                if j == all.len() - 1 && i < kept.len() {
                    assert(kept.contains(kept[i]));
                }
            }
        }
    }
}

/// Removes from `v` every element that occurred before.
pub fn dedup(v: &mut Vec<i32>)
    ensures
        final(v)@ == first_occurrences(old(v)@),
{
    let ghost before = v@;
    let mut seen: HashMap<i32, bool> = HashMap::new();
    let mut kept: Vec<i32> = Vec::new();
    let mut i: usize = 0;
    assert(before.take(0) == Seq::<i32>::empty());
    while i < v.len()
        invariant
            v@ == before,
            i <= before.len(),
            kept@ == first_occurrences(before.take(i as int)),
            forall|x: i32| seen@.contains_key(x) <==> kept@.contains(x),
        decreases before.len() - i,
    {
        let x: i32 = v[i];
        let ghost next = before.take(i + 1);
        assert(next.drop_last() == before.take(i as int));
        assert(next.last() == x);
        if !seen.contains_key(&x) {
            let ghost old_kept = kept@;
            seen.insert(x, true);
            kept.push(x);
            assert forall|y: i32| seen@.contains_key(y) <==> kept@.contains(y) by {
                if kept@.contains(y) {
                    let j = choose|j: int| 0 <= j < kept@.len() && kept@[j] == y;
                    if j < old_kept.len() {
                        assert(old_kept[j] == y);
                        assert(old_kept.contains(y));
                    }
                }
                if old_kept.contains(y) {
                    let j = choose|j: int| 0 <= j < old_kept.len() && old_kept[j] == y;
                    assert(kept@[j] == y);
                }
                if y == x {
                    assert(kept@[kept@.len() - 1] == y);
                }
            }
        }
        i += 1;
    }
    assert(before.take(i as int) == before);
    *v = kept;
}

} // verus!
