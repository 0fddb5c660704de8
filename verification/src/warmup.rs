//! Three small exercises on vectors of numbers.

use std::collections::HashMap;
use vstd::prelude::*;
use vstd::std_specs::hash::group_hash_axioms;

verus! {

/// `s` without every value that occurred earlier in it: each value stays
/// where it occurs first.
pub open spec fn first_occurrences(s: Seq<i32>) -> Seq<i32>
    decreases s.len(),
{
    if s.len() == 0 {
        s
    } else if s.drop_last().contains(s.last()) {
        first_occurrences(s.drop_last())
    } else {
        first_occurrences(s.drop_last()).push(s.last())
    }
}

/// What `first_occurrences` keeps: every value of `s`, each once, and
/// nothing else.
pub proof fn lemma_first_occurrences(s: Seq<i32>)
    ensures
        first_occurrences(s).no_duplicates(),
        forall|x: i32| first_occurrences(s).contains(x) <==> s.contains(x),
        first_occurrences(s).len() <= s.len(),
    decreases s.len(),
{
    if s.len() > 0 {
        let init = s.drop_last();
        let last = s.last();
        lemma_first_occurrences(init);
        let kept = first_occurrences(init);
        let all = first_occurrences(s);
        assert(s[s.len() - 1] == last);
        assert forall|x: i32| all.contains(x) implies s.contains(x) by {
            let k = choose|k: int| 0 <= k < all.len() && all[k] == x;
            if k < kept.len() {
                assert(kept[k] == x);
                assert(kept.contains(x));
                assert(init.contains(x));
                let i = choose|i: int| 0 <= i < init.len() && init[i] == x;
                assert(s[i] == init[i]);
            }
        }
        assert forall|x: i32| s.contains(x) implies all.contains(x) by {
            let i = choose|i: int| 0 <= i < s.len() && s[i] == x;
            if i < s.len() - 1 {
                assert(init[i] == x);
                assert(init.contains(x));
            }
            if init.contains(x) {
                assert(kept.contains(x));
                let k = choose|k: int| 0 <= k < kept.len() && kept[k] == x;
                assert(all[k] == x);
            } else {
                assert(x == last);
                assert(all[all.len() - 1] == x);
            }
        }
        if !init.contains(last) {
            assert forall|i: int, j: int|
                0 <= i < all.len() && 0 <= j < all.len() && i != j implies all[i] != all[j] by {
                if i < kept.len() && j < kept.len() {
                    assert(kept[i] != kept[j]);
                } else if i < kept.len() {
                    assert(kept.contains(kept[i]));
                } else if j < kept.len() {
                    assert(kept.contains(kept[j]));
                }
            }
        }
    }
}

/// Removing repeats from a sequence without repeats changes nothing, so
/// removing them twice is the same as removing them once.
pub proof fn lemma_first_occurrences_idempotent(s: Seq<i32>)
    ensures
        first_occurrences(first_occurrences(s)) == first_occurrences(s),
{
    lemma_first_occurrences(s);
    lemma_distinct_is_kept(first_occurrences(s));
}

/// A sequence without repeats is its own sequence of first occurrences.
pub proof fn lemma_distinct_is_kept(s: Seq<i32>)
    requires
        s.no_duplicates(),
    ensures
        first_occurrences(s) == s,
    decreases s.len(),
{
    if s.len() > 0 {
        let init = s.drop_last();
        lemma_distinct_is_kept(init);
        if init.contains(s.last()) {
            let i = choose|i: int| 0 <= i < init.len() && init[i] == s.last();
            assert(s[i] == s[s.len() - 1]);
        }
        assert(init.push(s.last()) =~= s);
    }
}

/// A new vector that holds each number of `v` with `n` added.
pub fn add_n(v: Vec<i32>, n: i32) -> (sums: Vec<i32>)
    requires
        forall|i: int| 0 <= i < v@.len() ==> i32::MIN <= #[trigger] v@[i] + n <= i32::MAX,
    ensures
        sums@.len() == v@.len(),
        forall|i: int| 0 <= i < v@.len() ==> #[trigger] sums@[i] == v@[i] + n,
{
    let mut new_vec: Vec<i32> = Vec::new();
    let mut i: usize = 0;
    while i < v.len()
        invariant
            i <= v@.len(),
            new_vec@.len() == i,
            forall|k: int| 0 <= k < v@.len() ==> i32::MIN <= #[trigger] v@[k] + n <= i32::MAX,
            forall|k: int| 0 <= k < i ==> #[trigger] new_vec@[k] == v@[k] + n,
        decreases v@.len() - i,
    {
        assert(i32::MIN <= v@[i as int] + n <= i32::MAX);
        new_vec.push(v[i] + n);
        i += 1;
    }
    new_vec
}

/// Adds `n` to each number of `v`, in place.
pub fn add_n_inplace(v: &mut Vec<i32>, n: i32)
    requires
        forall|i: int|
            0 <= i < old(v)@.len() ==> i32::MIN <= #[trigger] old(v)@[i] + n <= i32::MAX,
    ensures
        final(v)@.len() == old(v)@.len(),
        forall|i: int| 0 <= i < old(v)@.len() ==> #[trigger] final(v)@[i] == old(v)@[i] + n,
{
    let ghost before = v@;
    let mut i: usize = 0;
    while i < v.len()
        invariant
            i <= v@.len(),
            v@.len() == before.len(),
            before == old(v)@,
            forall|k: int| 0 <= k < before.len() ==> i32::MIN <= #[trigger] before[k] + n <= i32::MAX,
            forall|k: int| 0 <= k < i ==> #[trigger] v@[k] == before[k] + n,
            forall|k: int| i <= k < before.len() ==> #[trigger] v@[k] == before[k],
        decreases v@.len() - i,
    {
        assert(i32::MIN <= before[i as int] + n <= i32::MAX);
        let sum: i32 = v[i] + n;
        v.set(i, sum);
        i += 1;
    }
}

/// Removes from `v` every number that occurred earlier in it. What stays
/// keeps its order.
pub fn dedup(v: &mut Vec<i32>)
    ensures
        final(v)@ == first_occurrences(old(v)@),
{
    broadcast use group_hash_axioms;

    let mut seen: HashMap<i32, i32> = HashMap::new();
    let mut kept: Vec<i32> = Vec::new();
    let mut i: usize = 0;
    while i < v.len()
        invariant
            i <= v@.len(),
            v@ == old(v)@,
            kept@ == first_occurrences(v@.take(i as int)),
            forall|x: i32| seen@.contains_key(x) <==> v@.take(i as int).contains(x),
        decreases v@.len() - i,
    {
        let k: i32 = v[i];
        let ghost upto = v@.take(i + 1);
        proof {
            assert(upto.drop_last() =~= v@.take(i as int));
            assert(upto.last() == k);
        }
        let contains: bool = seen.contains_key(&k);
        seen.insert(k, 1);
        if !contains {
            kept.push(k);
        }
        proof {
            assert forall|x: i32| seen@.contains_key(x) <==> upto.contains(x) by {
                if upto.contains(x) {
                    let j = choose|j: int| 0 <= j < upto.len() && upto[j] == x;
                    if j < i {
                        assert(v@.take(i as int)[j] == x);
                    }
                }
                if v@.take(i as int).contains(x) {
                    let j = choose|j: int| 0 <= j < i && v@.take(i as int)[j] == x;
                    assert(upto[j] == x);
                }
                if x == k {
                    assert(upto[i as int] == x);
                }
            }
        }
        i += 1;
    }
    proof {
        assert(v@.take(i as int) =~= v@);
    }
    *v = kept;
}

} // verus!
