//! Array warm-ups: concatenating an array with itself, interleaving two
//! words, and finding the duplicated and missing numbers of a 1..=n range.

use crate::counting::{count_in, count_of};
use vstd::prelude::*;
use vstd::string::StrSliceExecFns;

verus! {

/// The characters of two words taken alternately; when one word runs out,
/// the rest of the other follows unbroken.
pub open spec fn interleave(a: Seq<char>, b: Seq<char>) -> Seq<char>
    decreases a.len() + b.len(),
{
    if a.len() == 0 {
        b
    } else if b.len() == 0 {
        a
    } else {
        seq![a[0], b[0]] + interleave(a.drop_first(), b.drop_first())
    }
}

/// The largest value of 1..=n that occurs exactly twice in `s`, or 0 when
/// there is none, considering candidates up to `k`.
pub open spec fn duplicate_upto(s: Seq<i32>, k: int) -> i32
    decreases k,
{
    if k <= 0 {
        0
    } else if count_of(s, k as i32) == 2 {
        k as i32
    } else {
        duplicate_upto(s, k - 1)
    }
}

/// The largest value of 1..=n that does not occur in `s`, or 0 when there
/// is none, considering candidates up to `k`.
pub open spec fn missing_upto(s: Seq<i32>, k: int) -> i32
    decreases k,
{
    if k <= 0 {
        0
    } else if count_of(s, k as i32) == 0 {
        k as i32
    } else {
        missing_upto(s, k - 1)
    }
}

/// The array and string warm-up solutions.
pub struct Solution {}

impl Solution {
    /// The array followed by itself.
    pub fn get_concatenation(nums: Vec<i32>) -> (r: Vec<i32>)
        ensures
            r@ == nums@ + nums@,
    {
        let mut new_array: Vec<i32> = Vec::new();
        let mut i: usize = 0;
        while i < nums.len()
            invariant
                0 <= i <= nums@.len(),
                new_array@ =~= nums@.subrange(0, i as int),
            decreases nums@.len() - i,
        {
            new_array.push(nums[i]);
            i = i + 1;
        }
        let mut j: usize = 0;
        while j < nums.len()
            invariant
                0 <= j <= nums@.len(),
                new_array@ =~= nums@ + nums@.subrange(0, j as int),
            decreases nums@.len() - j,
        {
            new_array.push(nums[j]);
            j = j + 1;
        }
        proof {
            assert(new_array@ =~= nums@ + nums@);
        }
        new_array
    }

    /// The two words merged by taking characters alternately, starting with
    /// the first word; the tail of the longer word follows unbroken.
    pub fn merge_alternately(word1: String, word2: String) -> (r: String)
        ensures
            r@ == interleave(word1@, word2@),
    {
        let ghost a = word1@;
        let ghost b = word2@;
        let la = word1.as_str().unicode_len();
        let lb = word2.as_str().unicode_len();
        let mut res = String::new();
        let mut i: usize = 0;
        proof {
            assert(a.skip(0) =~= a);
            assert(b.skip(0) =~= b);
            assert(res@ + interleave(a, b) =~= interleave(a, b));
        }
        while i < la && i < lb
            invariant
                la == a.len(),
                lb == b.len(),
                word1@ == a,
                word2@ == b,
                0 <= i <= la,
                0 <= i <= lb,
                res@ + interleave(a.skip(i as int), b.skip(i as int)) == interleave(a, b),
            decreases la - i,
        {
            proof {
                assert(a.skip(i as int)[0] == a[i as int]);
                assert(b.skip(i as int)[0] == b[i as int]);
                assert(a.skip(i as int).drop_first() =~= a.skip(i + 1));
                assert(b.skip(i as int).drop_first() =~= b.skip(i + 1));
            }
            let c1 = word1.as_str().substring_char(i, i + 1);
            let c2 = word2.as_str().substring_char(i, i + 1);
            res.append(c1);
            res.append(c2);
            proof {
                assert(c1@ =~= seq![a[i as int]]);
                assert(c2@ =~= seq![b[i as int]]);
                assert(res@ + interleave(a.skip(i + 1), b.skip(i + 1)) =~= interleave(a, b));
            }
            i = i + 1;
        }
        if i < la {
            let tail = word1.as_str().substring_char(i, la);
            res.append(tail);
            proof {
                assert(tail@ =~= a.skip(i as int));
                assert(b.skip(i as int) =~= Seq::<char>::empty());
                assert(interleave(a.skip(i as int), b.skip(i as int)) == a.skip(i as int));
                assert(res@ =~= interleave(a, b));
            }
        } else if i < lb {
            let tail = word2.as_str().substring_char(i, lb);
            res.append(tail);
            proof {
                assert(tail@ =~= b.skip(i as int));
                assert(a.skip(i as int) =~= Seq::<char>::empty());
                assert(interleave(a.skip(i as int), b.skip(i as int)) == b.skip(i as int));
                assert(res@ =~= interleave(a, b));
            }
        } else {
            proof {
                assert(a.skip(i as int) =~= Seq::<char>::empty());
                assert(b.skip(i as int) =~= Seq::<char>::empty());
                assert(res@ =~= interleave(a, b));
            }
        }
        res
    }

    /// For an array meant to hold 1..=n with one value duplicated and one
    /// missing, reports the duplicated and the missing value, scanning the
    /// candidates in ascending order so that the largest qualifying value
    /// of each kind is reported, and 0 where there is none.
    pub fn find_error_nums(nums: Vec<i32>) -> (r: Vec<i32>)
        requires
            nums@.len() <= 0x7fff_ffff,
        ensures
            r@.len() == 2,
            r@[0] == duplicate_upto(nums@, nums@.len() as int),
            r@[1] == missing_upto(nums@, nums@.len() as int),
    {
        let mut duplicate: i32 = 0;
        let mut missing: i32 = 0;
        let n = nums.len();
        let mut i: usize = 1;
        while i <= n
            invariant
                nums@.len() == n <= 0x7fff_ffff,
                1 <= i <= n + 1,
                duplicate == duplicate_upto(nums@, i - 1),
                missing == missing_upto(nums@, i - 1),
            decreases n + 1 - i,
    {
            let c = count_in(nums.as_slice(), i as i32);
            if c == 2 {
                duplicate = i as i32;
            }
            if c == 0 {
                missing = i as i32;
            }
            i = i + 1;
        }
        let r = vec![duplicate, missing];
        proof {
            assert(r@[0] == duplicate && r@[1] == missing);
        }
        r
    }
}

} // verus!
