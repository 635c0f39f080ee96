//! The interview-question set gathered behind one facade, the way such
//! katas are usually exercised.

use crate::anagrams;
use crate::classics::no_pair_below;
use crate::counting::count_of;
use crate::frequency;
use crate::pairs;
use crate::substrings;
use crate::text_ops::dedup_first;
use vstd::prelude::*;

verus! {

/// The collected interview-question solutions.
pub struct Solution {}

impl Solution {
    /// The indices of two entries that sum to the target, or an empty
    /// vector; see `pairs::two_sum`.
    pub fn two_sum(nums: Vec<i32>, target: i32) -> (r: Vec<i32>)
        requires
            nums@.len() <= 0x7fff_ffff,
        ensures
            no_pair_below(nums@, target, nums@.len() as int) ==> r@.len() == 0,
            !no_pair_below(nums@, target, nums@.len() as int) ==> r@.len() == 2 && 0 <= r@[0]
                < r@[1] < nums@.len() && nums@[r@[0] as int] + nums@[r@[1] as int] == target as int
                && no_pair_below(nums@, target, r@[1] as int) && (forall|t: int|
                r@[0] < t < r@[1] ==> #[trigger] nums@[t] + nums@[r@[1] as int] != target as int),
    {
        pairs::two_sum(nums, target)
    }

    /// Whether two words are anagrams of each other.
    pub fn is_anagram(s: String, t: String) -> (r: bool)
        ensures
            r == anagrams::anagrams(s@, t@),
    {
        anagrams::is_anagram(s, t)
    }

    /// The words grouped into anagram classes.
    pub fn group_anagrams(strs: Vec<String>) -> (r: Vec<Vec<String>>)
        ensures
            anagrams::groups_view(r@) == anagrams::grouped(anagrams::texts_view(strs@)),
    {
        anagrams::group_anagrams(strs)
    }

    /// The `k` most frequent values, most frequent first.
    pub fn top_k_frequent(nums: Vec<i32>, k: i32) -> (r: Vec<i32>)
        ensures
            r@.len() == frequency::take_count(k, dedup_first(nums@).len() as int),
            forall|i: int| 0 <= i < r@.len() ==> nums@.contains(#[trigger] r@[i]),
            forall|i: int, j: int| 0 <= i < j < r@.len() ==> r@[i] != r@[j],
            forall|i: int, j: int|
                #![trigger r@[i], r@[j]]
                0 <= i < j < r@.len() ==> count_of(nums@, r@[j]) <= count_of(nums@, r@[i]),
            forall|v: i32, i: int|
                #![trigger count_of(nums@, v), r@[i]]
                nums@.contains(v) && !r@.contains(v) && 0 <= i < r@.len() ==> count_of(nums@, v)
                    <= count_of(nums@, r@[i]),
    {
        frequency::top_k_frequent(nums, k)
    }

    /// The length of the longest substring without repeated characters.
    pub fn length_of_longest_substring(s: String) -> (r: i32)
        requires
            s@.len() <= 0x7fff_ffff,
        ensures
            0 <= r <= s@.len(),
            exists|a: int, b: int|
                0 <= a <= b <= s@.len() && b - a == r && #[trigger] substrings::distinct_range(
                    s@,
                    a,
                    b,
                ),
            forall|a: int, b: int|
                0 <= a <= b <= s@.len() && #[trigger] substrings::distinct_range(s@, a, b) ==> b
                    - a <= r,
    {
        substrings::length_of_longest_substring(s)
    }
}

} // verus!
