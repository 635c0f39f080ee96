//! The longest substring without repeated characters, by a sliding
//! window.

use vstd::prelude::*;
use vstd::string::StrSliceExecFns;

verus! {

/// The characters of `s` from `a` to `b`, exclusive, are pairwise
/// distinct.
pub open spec fn distinct_range(s: Seq<char>, a: int, b: int) -> bool {
    forall|i: int, j: int| a <= i < j < b ==> s[i] != s[j]
}

/// The length of the longest contiguous run of pairwise distinct
/// characters.
pub fn length_of_longest_substring(s: String) -> (r: i32)
    requires
        s@.len() <= 0x7fff_ffff,
    ensures
        0 <= r <= s@.len(),
        exists|a: int, b: int|
            0 <= a <= b <= s@.len() && b - a == r && #[trigger] distinct_range(s@, a, b),
        forall|a: int, b: int|
            0 <= a <= b <= s@.len() && #[trigger] distinct_range(s@, a, b) ==> b - a <= r,
{
    let n = s.as_str().unicode_len();
    let mut left: usize = 0;
    let mut best: usize = 0;
    let ghost mut best_a: int = 0;
    let mut right: usize = 0;
    while right < n
        invariant
            n == s@.len() <= 0x7fff_ffff,
            0 <= left <= right <= n,
            distinct_range(s@, left as int, right as int),
            forall|a: int| 0 <= a < left ==> !#[trigger] distinct_range(s@, a, right as int),
            0 <= best_a <= best_a + best <= n,
            distinct_range(s@, best_a, best_a + best),
            forall|a: int, b: int|
                0 <= a <= b <= right && #[trigger] distinct_range(s@, a, b) ==> b - a <= best,
        decreases n - right,
    {
        let c = s.as_str().get_char(right);
        let mut j = left;
        while j < right && s.as_str().get_char(j) != c
            invariant
                n == s@.len(),
                c == s@[right as int],
                left <= j <= right < n,
                forall|t: int| left <= t < j ==> s@[t] != c,
            decreases right - j,
        {
            j = j + 1;
        }
        if j < right {
            // The window holds `c` at position `j`; every window that
            // keeps both occurrences repeats a character.
            assert(s@[j as int] == c);
            assert forall|a: int| 0 <= a < j + 1 implies !#[trigger] distinct_range(
                s@,
                a,
                right + 1,
            ) by {
                if a <= j {
                    assert(!(s@[j as int] != s@[right as int]));
                }
            }
            assert(distinct_range(s@, j + 1, right + 1)) by {
                assert forall|x: int, y: int| j + 1 <= x < y < right + 1 implies s@[x] != s@[y] by {
                    if y < right {
                    } else {
                        assert(s@[x] != c);
                    }
                }
            }
            left = j + 1;
        } else {
            assert(distinct_range(s@, left as int, right + 1)) by {
                assert forall|x: int, y: int| left <= x < y < right + 1 implies s@[x] != s@[y] by {
                    if y < right {
                    } else {
                        assert(s@[x] != c);
                    }
                }
            }
            assert forall|a: int| 0 <= a < left implies !#[trigger] distinct_range(
                s@,
                a,
                right + 1,
            ) by {
                assert(!distinct_range(s@, a, right as int));
                let (x, y) = choose|x: int, y: int|
                    a <= x < y < right && s@[x] == s@[y];
                assert(s@[x] == s@[y]);
            }
        }
        let window = right - left + 1;
        proof {
            assert forall|a: int|
                0 <= a <= right + 1 && #[trigger] distinct_range(s@, a, right + 1) implies right
                + 1 - a <= window by {
                if a < left {
                    assert(!distinct_range(s@, a, right + 1));
                }
            }
        }
        if window > best {
            best = window;
            proof {
                best_a = left as int;
            }
        }
        right = right + 1;
    }
    proof {
        assert(distinct_range(s@, best_a, best_a + best));
    }
    best as i32
}

} // verus!
