//! The two-sum kata in its index-vector form: the indices of two entries
//! that sum to the target, or an empty vector.

use crate::classics::no_pair_below;
use vstd::prelude::*;

verus! {

/// Finds two positions whose values sum to the target and reports them as
/// a two-element vector, the smaller position first; an array without such
/// a pair gives an empty vector.  The reported pair has the smallest
/// possible second position, and for it the largest possible first
/// position.
pub fn two_sum(nums: Vec<i32>, target: i32) -> (r: Vec<i32>)
    requires
        nums@.len() <= 0x7fff_ffff,
    ensures
        no_pair_below(nums@, target, nums@.len() as int) ==> r@.len() == 0,
        !no_pair_below(nums@, target, nums@.len() as int) ==> r@.len() == 2 && 0 <= r@[0] < r@[1]
            < nums@.len() && nums@[r@[0] as int] + nums@[r@[1] as int] == target as int
            && no_pair_below(nums@, target, r@[1] as int) && (forall|t: int|
            r@[0] < t < r@[1] ==> #[trigger] nums@[t] + nums@[r@[1] as int] != target as int),
{
    match crate::classics::two_sum(nums.as_slice(), target) {
        Some(pair) => {
            let indices = vec![pair.0 as i32, pair.1 as i32];
            proof {
                assert(indices@[0] == pair.0 as i32 && indices@[1] == pair.1 as i32);
                assert(nums@[pair.0 as int] + nums@[pair.1 as int] == target as int);
            }
            indices
        },
        None => Vec::new(),
    }
}

} // verus!
