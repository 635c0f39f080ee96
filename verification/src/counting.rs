//! Occurrence counting over sequences of integers and characters, with the
//! executable counters the array and string katas are specified against.

use vstd::prelude::*;
use vstd::string::StrSliceExecFns;

verus! {

/// How many entries of `s` equal `v`.
pub open spec fn count_of(s: Seq<i32>, v: i32) -> nat
    decreases s.len(),
{
    if s.len() == 0 {
        0
    } else {
        count_of(s.drop_last(), v) + if s.last() == v {
            1nat
        } else {
            0nat
        }
    }
}

/// How many characters of `s` equal `c`.
pub open spec fn char_count(s: Seq<char>, c: char) -> nat
    decreases s.len(),
{
    if s.len() == 0 {
        0
    } else {
        char_count(s.drop_last(), c) + if s.last() == c {
            1nat
        } else {
            0nat
        }
    }
}

/// A value with a positive count occurs at some position.
pub proof fn lemma_char_count_positive(s: Seq<char>, c: char)
    requires
        char_count(s, c) > 0,
    ensures
        exists|i: int| 0 <= i < s.len() && s[i] == c,
    decreases s.len(),
{
    if s.last() == c {
        assert(s[s.len() - 1] == c);
    } else {
        lemma_char_count_positive(s.drop_last(), c);
        let i = choose|i: int| 0 <= i < s.drop_last().len() && s.drop_last()[i] == c;
        assert(s[i] == c);
    }
}

/// Counts the occurrences of `v` in a slice.
pub fn count_in(xs: &[i32], v: i32) -> (c: usize)
    ensures
        c == count_of(xs@, v),
{
    let mut c: usize = 0;
    let mut j: usize = 0;
    while j < xs.len()
        invariant
            0 <= j <= xs@.len(),
            c == count_of(xs@.subrange(0, j as int), v),
            c <= j,
        decreases xs@.len() - j,
    {
        proof {
            assert(xs@.subrange(0, j + 1).drop_last() =~= xs@.subrange(0, j as int));
            assert(xs@.subrange(0, j + 1).last() == xs@[j as int]);
        }
        if xs[j] == v {
            c = c + 1;
        }
        j = j + 1;
    }
    proof {
        assert(xs@.subrange(0, xs@.len() as int) =~= xs@);
    }
    c
}

/// Counts the occurrences of the character `c` in a string.
pub fn char_occurrences(s: &str, c: char) -> (n: usize)
    ensures
        n == char_count(s@, c),
{
    let len = s.unicode_len();
    let mut n: usize = 0;
    let mut j: usize = 0;
    while j < len
        invariant
            len == s@.len(),
            0 <= j <= len,
            n == char_count(s@.subrange(0, j as int), c),
            n <= j,
        decreases len - j,
    {
        proof {
            assert(s@.subrange(0, j + 1).drop_last() =~= s@.subrange(0, j as int));
            assert(s@.subrange(0, j + 1).last() == s@[j as int]);
        }
        if s.get_char(j) == c {
            n = n + 1;
        }
        j = j + 1;
    }
    proof {
        assert(s@.subrange(0, s@.len() as int) =~= s@);
    }
    n
}

} // verus!
