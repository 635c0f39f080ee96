//! Slicing katas: splitting a text into its non-blank lines, and finding
//! the fixed-size windows of an array whose sum is maximal.

use crate::whitespace::is_space_char;
use vstd::prelude::*;
use vstd::slice::slice_subrange;
use vstd::string::StrSliceExecFns;

verus! {

/// The length of the leading run of characters before a newline.
pub open spec fn line_len(s: Seq<char>) -> nat
    decreases s.len(),
{
    if s.len() == 0 || s[0] == '\n' {
        0
    } else {
        (1 + line_len(s.drop_first())) as nat
    }
}

proof fn lemma_line_len_le(s: Seq<char>)
    ensures
        line_len(s) <= s.len(),
        forall|k: int| 0 <= k < line_len(s) ==> s[k] != '\n',
        line_len(s) < s.len() ==> s[line_len(s) as int] == '\n',
    decreases s.len(),
{
    if s.len() > 0 && s[0] != '\n' {
        lemma_line_len_le(s.drop_first());
        assert forall|k: int| 0 <= k < line_len(s) implies s[k] != '\n' by {
            if k > 0 {
                assert(s.drop_first()[k - 1] == s[k]);
            }
        }
        if line_len(s) < s.len() {
            assert(s.drop_first()[line_len(s) - 1] == s[line_len(s) as int]);
        }
    }
}

proof fn lemma_line_len_unique(s: Seq<char>, l: int)
    requires
        0 <= l <= s.len(),
        forall|k: int| 0 <= k < l ==> s[k] != '\n',
        l < s.len() ==> s[l] == '\n',
    ensures
        l == line_len(s),
    decreases s.len(),
{
    if s.len() > 0 && s[0] != '\n' {
        assert forall|k: int| 0 <= k < l - 1 implies s.drop_first()[k] != '\n' by {
            assert(s.drop_first()[k] == s[k + 1]);
        }
        if l < s.len() {
            assert(s.drop_first()[l - 1] == s[l]);
        }
        lemma_line_len_unique(s.drop_first(), l - 1);
    }
}

/// Whether a line holds at least one non-whitespace character.
pub open spec fn has_content(l: Seq<char>) -> bool {
    exists|k: int| 0 <= k < l.len() && !is_space_char(l[k])
}

/// The lines of `s` that hold visible content: the runs between newline
/// characters, in order, keeping only those with some non-whitespace
/// character.
pub open spec fn content_lines(s: Seq<char>) -> Seq<Seq<char>>
    decreases s.len(),
    via content_lines_termination
{
    if s.len() == 0 {
        Seq::<Seq<char>>::empty()
    } else {
        let l = line_len(s);
        let segment = s.subrange(0, l as int);
        let kept = if has_content(segment) {
            seq![segment]
        } else {
            Seq::<Seq<char>>::empty()
        };
        if l == s.len() {
            kept
        } else {
            kept + content_lines(s.skip(l as int + 1))
        }
    }
}

#[via_fn]
proof fn content_lines_termination(s: Seq<char>) {
    if s.len() > 0 {
        lemma_line_len_le(s);
    }
}

/// Whether the characters of `s` between `a` and `b` hold a
/// non-whitespace character.
fn range_has_content(s: &str, a: usize, b: usize) -> (r: bool)
    requires
        a <= b <= s@.len(),
    ensures
        r == has_content(s@.subrange(a as int, b as int)),
{
    let mut k: usize = a;
    while k < b
        invariant
            a <= k <= b <= s@.len(),
            forall|t: int| a <= t < k ==> is_space_char(s@[t]),
        decreases b - k,
    {
        if !crate::whitespace::char_is_space(s.get_char(k)) {
            assert(s@.subrange(a as int, b as int)[k - a] == s@[k as int]);
            return true;
        }
        k = k + 1;
    }
    assert forall|t: int| 0 <= t < b - a implies is_space_char(
        s@.subrange(a as int, b as int)[t],
    ) by {
        assert(s@.subrange(a as int, b as int)[t] == s@[a + t]);
    }
    false
}

/// Splits a multi-line string into its lines, dropping the newline
/// characters as well as every line that is empty or all whitespace.
pub fn split_lines(s: &str) -> (r: Vec<&str>)
    ensures
        r@.len() == content_lines(s@).len(),
        forall|t: int| 0 <= t < r@.len() ==> #[trigger] r@[t]@ == content_lines(s@)[t],
{
    let len = s.unicode_len();
    let mut lines: Vec<&str> = Vec::new();
    let ghost mut done = Seq::<Seq<char>>::empty();
    let mut i: usize = 0;
    proof {
        assert(s@.skip(0) =~= s@);
    }
    while i < len
        invariant
            len == s@.len(),
            0 <= i <= len,
            done + content_lines(s@.skip(i as int)) == content_lines(s@),
            lines@.len() == done.len(),
            forall|t: int| 0 <= t < done.len() ==> #[trigger] lines@[t]@ == done[t],
        decreases len - i,
    {
        let ghost tail = s@.skip(i as int);
        let mut j: usize = i;
        while j < len && s.get_char(j) != '\n'
            invariant
                len == s@.len(),
                i <= j <= len,
                forall|k: int| i <= k < j ==> s@[k] != '\n',
            decreases len - j,
        {
            j = j + 1;
        }
        proof {
            assert forall|k: int| 0 <= k < j - i implies tail[k] != '\n' by {
                assert(tail[k] == s@[i + k]);
            }
            if j < len {
                assert(tail[j - i] == s@[j as int]);
            }
            lemma_line_len_unique(tail, j - i);
            assert(tail.subrange(0, j - i) =~= s@.subrange(i as int, j as int));
        }
        let segment = s.substring_char(i, j);
        if range_has_content(s, i, j) {
            lines.push(segment);
            proof {
                done = done.push(s@.subrange(i as int, j as int));
            }
        }
        proof {
            if j < len {
                assert(tail.skip(j - i + 1) =~= s@.skip(j + 1));
            } else {
                assert(s@.skip(len as int) =~= Seq::<char>::empty());
            }
        }
        if j < len {
            i = j + 1;
        } else {
            i = len;
        }
    }
    proof {
        assert(s@.skip(len as int) =~= Seq::<char>::empty());
        assert(done + content_lines(s@.skip(len as int)) =~= done);
    }
    lines
}

/// The sum of the entries of `arr` from `a` to `b`, exclusive.
pub open spec fn range_sum(arr: Seq<i32>, a: int, b: int) -> int
    decreases b - a,
{
    if b <= a {
        0
    } else {
        range_sum(arr, a, b - 1) + arr[b - 1]
    }
}

/// The greatest of 0 and the sums of the windows of the given size that
/// start before `k`.
pub open spec fn best_sum_upto(arr: Seq<i32>, size: int, k: int) -> int
    decreases k,
{
    if k <= 0 {
        0
    } else {
        let prev = best_sum_upto(arr, size, k - 1);
        let cur = range_sum(arr, k - 1, k - 1 + size);
        if cur > prev {
            cur
        } else {
            prev
        }
    }
}

/// The starts, in order, of the windows before `k` whose sum is `m`.
pub open spec fn winning_starts_upto(arr: Seq<i32>, size: int, m: int, k: int) -> Seq<int>
    decreases k,
{
    if k <= 0 {
        Seq::<int>::empty()
    } else {
        let prev = winning_starts_upto(arr, size, m, k - 1);
        if range_sum(arr, k - 1, k - 1 + size) == m {
            prev.push(k - 1)
        } else {
            prev
        }
    }
}

/// The best sum bounds every window sum, and is never negative.
proof fn lemma_best_sum_bounds(arr: Seq<i32>, size: int, k: int)
    ensures
        best_sum_upto(arr, size, k) >= 0,
        forall|a: int| 0 <= a < k ==> #[trigger] range_sum(arr, a, a + size) <= best_sum_upto(arr, size, k),
    decreases k,
{
    if k > 0 {
        lemma_best_sum_bounds(arr, size, k - 1);
    }
}

/// A value strictly above every window sum before `k` wins nowhere there.
proof fn lemma_winning_starts_empty(arr: Seq<i32>, size: int, m: int, k: int)
    requires
        forall|a: int| 0 <= a < k ==> #[trigger] range_sum(arr, a, a + size) < m,
    ensures
        winning_starts_upto(arr, size, m, k) == Seq::<int>::empty(),
    decreases k,
{
    if k > 0 {
        lemma_winning_starts_empty(arr, size, m, k - 1);
        assert(winning_starts_upto(arr, size, m, k) =~= Seq::<int>::empty());
    }
}

/// The windows of the given size whose sum is the greatest reached by any
/// window, but at least 0: an array whose windows all sum below 0 gives no
/// window at all.  The windows are returned in ascending order of their
/// start.
pub fn max_subarray<'a>(arr: &'a [i32], size: usize) -> (r: Vec<&'a [i32]>)
    requires
        size <= arr@.len(),
        arr@.len() <= 0x7fff_ffff,
    ensures
        ({
            let m = best_sum_upto(arr@, size as int, arr@.len() - size + 1);
            let starts = winning_starts_upto(arr@, size as int, m, arr@.len() - size + 1);
            &&& r@.len() == starts.len()
            &&& forall|t: int|
                0 <= t < starts.len() ==> #[trigger] r@[t]@ == arr@.subrange(
                    starts[t],
                    starts[t] + size,
                )
        }),
{
    let n = arr.len();
    let windows = n - size + 1;
    let mut max_sum: i64 = 0;
    let mut max_slices: Vec<&[i32]> = Vec::new();
    let ghost mut starts = Seq::<int>::empty();
    let mut i: usize = 0;
    while i < windows
        invariant
            n == arr@.len() <= 0x7fff_ffff,
            size <= n,
            windows == n - size + 1,
            0 <= i <= windows,
            max_sum == best_sum_upto(arr@, size as int, i as int),
            starts == winning_starts_upto(arr@, size as int, max_sum as int, i as int),
            max_slices@.len() == starts.len(),
            forall|t: int|
                0 <= t < starts.len() ==> 0 <= #[trigger] starts[t] <= n - size,
            forall|t: int|
                0 <= t < starts.len() ==> #[trigger] max_slices@[t]@ == arr@.subrange(
                    starts[t],
                    starts[t] + size,
                ),
        decreases windows - i,
    {
        let mut sum: i64 = 0;
        let mut k: usize = 0;
        while k < size
            invariant
                n == arr@.len() <= 0x7fff_ffff,
                size <= n,
                i + size <= n,
                0 <= k <= size,
                sum == range_sum(arr@, i as int, i + k),
                -(k as int) * 0x8000_0000 <= sum <= (k as int) * 0x8000_0000,
            decreases size - k,
        {
            sum = sum + arr[i + k] as i64;
            k = k + 1;
        }
        let slice = slice_subrange(arr, i, i + size);
        proof {
            lemma_best_sum_bounds(arr@, size as int, i as int);
        }
        if sum > max_sum {
            max_slices = Vec::new();
            max_slices.push(slice);
            proof {
                lemma_winning_starts_empty(arr@, size as int, sum as int, i as int);
                starts = seq![i as int];
                assert(winning_starts_upto(arr@, size as int, sum as int, i + 1)
                    =~= seq![i as int]);
            }
            max_sum = sum;
        } else if sum == max_sum {
            max_slices.push(slice);
            proof {
                starts = starts.push(i as int);
            }
        }
        i = i + 1;
    }
    max_slices
}

} // verus!
