//! The bookkeeping of a map that several workers share: which worker takes
//! which item, and how their results, which come back in any order, are put
//! in the order of the items.

use vstd::prelude::*;

verus! {

/// The result that `results` hold for item `index`: that of the last pair
/// with this index, or `None` if no pair has it.
pub open spec fn result_for<U>(results: Seq<(usize, U)>, index: int) -> Option<U>
    decreases results.len(),
{
    if results.len() == 0 {
        None
    } else if results.last().0 == index {
        Some(results.last().1)
    } else {
        result_for(results.drop_last(), index)
    }
}

/// The worker that takes item `index` when `num_threads` workers take the
/// items in turn.
pub fn worker_of(index: usize, num_threads: usize) -> (worker: usize)
    requires
        num_threads > 0,
    ensures
        worker == index % num_threads,
        worker < num_threads,
{
    index % num_threads
}

/// Puts the results of `len` items in the order of the items. Each result
/// comes with the index of its item; an item without a result gets the
/// default value of `U`, and of several results for one item the last
/// counts.
pub fn gather<U: Default>(len: usize, results: Vec<(usize, U)>) -> (output_vec: Vec<U>)
    requires
        forall|k: int| 0 <= k < results@.len() ==> (#[trigger] results@[k]).0 < len,
    ensures
        output_vec@.len() == len,
        forall|i: int|
            0 <= i < len ==> match result_for(results@, i) {
                Some(r) => #[trigger] output_vec@[i] == r,
                None => call_ensures(U::default, (), output_vec@[i]),
            },
{
    let mut output_vec: Vec<U> = Vec::new();
    let mut filled: usize = 0;
    while filled < len
        invariant
            filled <= len,
            output_vec@.len() == filled,
            forall|i: int| 0 <= i < filled ==> call_ensures(U::default, (), #[trigger] output_vec@[i]),
        decreases len - filled,
    {
        output_vec.push(U::default());
        filled += 1;
    }
    let ghost all = results@;
    assert forall|i: int| 0 <= i < len implies result_for(all.take(0), i).is_none() by {}
    for pair in it: results
        invariant
            it.seq() == all,
            output_vec@.len() == len,
            forall|k: int| 0 <= k < all.len() ==> (#[trigger] all[k]).0 < len,
            forall|i: int|
                0 <= i < len ==> match result_for(all.take(it.index() as int), i) {
                    Some(r) => #[trigger] output_vec@[i] == r,
                    None => call_ensures(U::default, (), output_vec@[i]),
                },
    {
        let ghost upto = all.take(it.index() + 1);
        proof {
            assert(upto.drop_last() =~= all.take(it.index() as int));
            assert(upto.last() == pair);
        }
        let (idx, r) = pair;
        output_vec.set(idx, r);
    }
    proof {
        assert(all.take(all.len() as int) =~= all);
    }
    output_vec
}

} // verus!
