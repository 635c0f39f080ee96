//! The k most frequent values of an array, most frequent first.

use crate::counting::{count_in, count_of};
use crate::text_ops::{dedup_first, lemma_dedup_first_props};
use vstd::prelude::*;

verus! {

/// How many values are reported: all distinct values for a negative
/// count, and otherwise at most `k` of them.
pub open spec fn take_count(k: i32, distinct: int) -> int {
    if k < 0 {
        distinct
    } else if k as int <= distinct {
        k as int
    } else {
        distinct
    }
}

/// The `k` most frequent values of the array, each reported once and
/// ordered by descending frequency; every value left out occurs no more
/// often than any value reported.  Ties fall as they may.
pub fn top_k_frequent(nums: Vec<i32>, k: i32) -> (r: Vec<i32>)
    ensures
        r@.len() == take_count(k, dedup_first(nums@).len() as int),
        forall|i: int| 0 <= i < r@.len() ==> nums@.contains(#[trigger] r@[i]),
        forall|i: int, j: int| 0 <= i < j < r@.len() ==> r@[i] != r@[j],
        forall|i: int, j: int|
            #![trigger r@[i], r@[j]]
            0 <= i < j < r@.len() ==> count_of(nums@, r@[j]) <= count_of(nums@, r@[i]),
        forall|v: i32, i: int|
            #![trigger count_of(nums@, v), r@[i]]
            nums@.contains(v) && !r@.contains(v) && 0 <= i < r@.len() ==> count_of(nums@, v)
                <= count_of(nums@, r@[i]),
{
    let ghost original = nums@;
    let mut rem: Vec<i32> = Vec::new();
    let mut i: usize = 0;
    proof {
        assert(original.subrange(0, 0) =~= Seq::<i32>::empty());
    }
    while i < nums.len()
        invariant
            nums@ == original,
            0 <= i <= original.len(),
            rem@ == dedup_first(original.subrange(0, i as int)),
        decreases original.len() - i,
    {
        proof {
            assert(original.subrange(0, i + 1).drop_last() =~= original.subrange(0, i as int));
            assert(original.subrange(0, i + 1).last() == original[i as int]);
        }
        let v = nums[i];
        if !crate::text_ops::slice_prefix_contains(nums.as_slice(), i, v) {
            rem.push(v);
        }
        i = i + 1;
    }
    proof {
        assert(original.subrange(0, original.len() as int) =~= original);
        lemma_dedup_first_props(original);
    }
    let total = rem.len();
    let m: usize = if k < 0 {
        total
    } else if (k as usize) <= total {
        k as usize
    } else {
        total
    };
    let mut out: Vec<i32> = Vec::new();
    while out.len() < m
        invariant
            nums@ == original,
            m == take_count(k, dedup_first(original).len() as int),
            out@.len() + rem@.len() == dedup_first(original).len(),
            out@.len() <= m,
            forall|t: int| 0 <= t < out@.len() ==> original.contains(#[trigger] out@[t]),
            forall|t: int| 0 <= t < rem@.len() ==> original.contains(#[trigger] rem@[t]),
            forall|t: int, u: int| 0 <= t < u < out@.len() ==> out@[t] != out@[u],
            forall|t: int, u: int| 0 <= t < u < rem@.len() ==> rem@[t] != rem@[u],
            forall|t: int, u: int|
                #![trigger out@[t], rem@[u]]
                0 <= t < out@.len() && 0 <= u < rem@.len() ==> out@[t] != rem@[u],
            forall|v: i32|
                original.contains(v) ==> out@.contains(v) || rem@.contains(v),
            forall|t: int, u: int|
                #![trigger out@[t], out@[u]]
                0 <= t < u < out@.len() ==> count_of(original, out@[u]) <= count_of(
                    original,
                    out@[t],
                ),
            forall|t: int, u: int|
                #![trigger rem@[t], out@[u]]
                0 <= t < rem@.len() && 0 <= u < out@.len() ==> count_of(original, rem@[t])
                    <= count_of(original, out@[u]),
        decreases m - out@.len(),
    {
        let mut best_idx: usize = 0;
        let mut best_count = count_in(nums.as_slice(), rem[0]);
        let mut t: usize = 1;
        while t < rem.len()
            invariant
                nums@ == original,
                rem@.len() > 0,
                0 <= best_idx < t <= rem@.len(),
                best_count == count_of(original, rem@[best_idx as int]),
                forall|u: int|
                    0 <= u < t ==> count_of(original, #[trigger] rem@[u]) <= best_count,
            decreases rem@.len() - t,
        {
            let c = count_in(nums.as_slice(), rem[t]);
            if c > best_count {
                best_idx = t;
                best_count = c;
            }
            t = t + 1;
        }
        let ghost rem_before = rem@;
        let ghost out_before = out@;
        let chosen = rem.remove(best_idx);
        out.push(chosen);
        proof {
            assert(chosen == rem_before[best_idx as int]);
            assert(rem@ == rem_before.remove(best_idx as int));
            assert(forall|u: int|
                0 <= u < best_idx ==> #[trigger] rem@[u] == rem_before[u]);
            assert(forall|u: int|
                best_idx <= u < rem@.len() ==> #[trigger] rem@[u] == rem_before[u + 1]);
            assert forall|v: i32| original.contains(v) implies out@.contains(v) || rem@.contains(
                v,
            ) by {
                if out_before.contains(v) {
                    let w = choose|w: int| 0 <= w < out_before.len() && out_before[w] == v;
                    assert(out@[w] == v);
                } else if rem_before.contains(v) {
                    let w = choose|w: int| 0 <= w < rem_before.len() && rem_before[w] == v;
                    if w == best_idx {
                        assert(out@[out@.len() - 1] == v);
                    } else if w < best_idx {
                        assert(rem@[w] == v);
                    } else {
                        assert(rem@[w - 1] == v);
                    }
                }
            }
        }
    }
    proof {
        assert forall|v: i32, i: int|
            #![trigger count_of(original, v), out@[i]]
            original.contains(v) && !out@.contains(v) && 0 <= i < out@.len() implies count_of(
            original,
            v,
        ) <= count_of(original, out@[i]) by {
            assert(rem@.contains(v));
            let w = choose|w: int| 0 <= w < rem@.len() && rem@[w] == v;
            assert(count_of(original, rem@[w]) <= count_of(original, out@[i]));
        }
    }
    out
}

} // verus!
