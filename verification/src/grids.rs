//! Grid and occurrence katas: whether every value occurs a distinct
//! number of times, and how many rows of a square grid equal one of its
//! columns.

use crate::counting::{count_in, count_of};
use vstd::prelude::*;

verus! {

/// Every pair of distinct values has distinct occurrence counts.
pub open spec fn occurrences_unique(s: Seq<i32>) -> bool {
    forall|i: int, j: int|
        #![trigger s[i], s[j]]
        0 <= i < s.len() && 0 <= j < s.len() && s[i] != s[j] ==> count_of(s, s[i]) != count_of(
            s,
            s[j],
        )
}

/// The contents of a grid, row by row.
pub open spec fn grid_view(g: Seq<Vec<i32>>) -> Seq<Seq<i32>> {
    g.map_values(|row: Vec<i32>| row@)
}

/// Row `i` of the grid read left to right equals column `j` read top to
/// bottom.
pub open spec fn row_eq_col(g: Seq<Seq<i32>>, i: int, j: int) -> bool {
    forall|k: int| 0 <= k < g.len() ==> #[trigger] g[i][k] == g[k][j]
}

/// How many columns before `j` equal row `i`.
pub open spec fn row_matches_upto(g: Seq<Seq<i32>>, i: int, j: int) -> int
    decreases j,
{
    if j <= 0 {
        0
    } else {
        row_matches_upto(g, i, j - 1) + if row_eq_col(g, i, j - 1) {
            1int
        } else {
            0int
        }
    }
}

/// How many row/column pairs match, over the rows before `i`.
pub open spec fn equal_pairs_upto(g: Seq<Seq<i32>>, i: int) -> int
    decreases i,
{
    if i <= 0 {
        0
    } else {
        equal_pairs_upto(g, i - 1) + row_matches_upto(g, i - 1, g.len() as int)
    }
}

/// The grid and occurrence solutions.
pub struct Solution {}

impl Solution {
    /// Whether the number of occurrences of each value is unique: no two
    /// distinct values occur equally often.
    pub fn unique_occurrences(arr: Vec<i32>) -> (r: bool)
        ensures
            r == occurrences_unique(arr@),
    {
        let n = arr.len();
        let mut i: usize = 0;
        while i < n
            invariant
                n == arr@.len(),
                0 <= i <= n,
                forall|x: int, y: int|
                    #![trigger arr@[x], arr@[y]]
                    0 <= x < i && 0 <= y < x && arr@[x] != arr@[y] ==> count_of(arr@, arr@[x])
                        != count_of(arr@, arr@[y]),
            decreases n - i,
        {
            let mut j: usize = 0;
            while j < i
                invariant
                    n == arr@.len(),
                    0 <= j <= i < n,
                    forall|x: int, y: int|
                        #![trigger arr@[x], arr@[y]]
                        0 <= x < i && 0 <= y < x && arr@[x] != arr@[y] ==> count_of(arr@, arr@[x])
                            != count_of(arr@, arr@[y]),
                    forall|y: int|
                        0 <= y < j && arr@[i as int] != #[trigger] arr@[y] ==> count_of(
                            arr@,
                            arr@[i as int],
                        ) != count_of(arr@, arr@[y]),
                decreases i - j,
            {
                if arr[i] != arr[j] {
                    let ci = count_in(arr.as_slice(), arr[i]);
                    let cj = count_in(arr.as_slice(), arr[j]);
                    if ci == cj {
                        return false;
                    }
                }
                j = j + 1;
            }
            i = i + 1;
        }
        proof {
            assert forall|x: int, y: int|
                #![trigger arr@[x], arr@[y]]
                0 <= x < n && 0 <= y < n && arr@[x] != arr@[y] implies count_of(arr@, arr@[x])
                != count_of(arr@, arr@[y]) by {
                if x < y {
                } else {
                }
            }
        }
        true
    }

    /// Counts the row/column pairs of a square grid whose row, read left
    /// to right, equals the column, read top to bottom.
    pub fn equal_pairs(grid: Vec<Vec<i32>>) -> (r: i32)
        requires
            grid@.len() <= 46340,
            forall|i: int| 0 <= i < grid@.len() ==> (#[trigger] grid@[i])@.len() == grid@.len(),
        ensures
            r == equal_pairs_upto(grid_view(grid@), grid@.len() as int),
    {
        let n = grid.len();
        let ghost g = grid_view(grid@);
        proof {
            assert(g.len() == n);
            assert(forall|i: int| 0 <= i < n ==> (#[trigger] g[i]).len() == n);
        }
        let mut count: i32 = 0;
        let mut i: usize = 0;
        while i < n
            invariant
                n == grid@.len() <= 46340,
                g == grid_view(grid@),
                g.len() == n,
                forall|t: int| 0 <= t < n ==> (#[trigger] grid@[t])@.len() == n,
                0 <= i <= n,
                count == equal_pairs_upto(g, i as int),
                0 <= count <= 46340 * i,
            decreases n - i,
        {
            let mut j: usize = 0;
            while j < n
                invariant
                    n == grid@.len() <= 46340,
                    g == grid_view(grid@),
                    g.len() == n,
                    forall|t: int| 0 <= t < n ==> (#[trigger] grid@[t])@.len() == n,
                    0 <= i < n,
                    0 <= j <= n,
                    count == equal_pairs_upto(g, i as int) + row_matches_upto(g, i as int, j as int),
                    0 <= count <= 46340 * i + j,
                decreases n - j,
            {
                let mut all_equal = true;
                let mut k: usize = 0;
                while k < n
                    invariant
                        n == grid@.len(),
                        g == grid_view(grid@),
                        g.len() == n,
                        forall|t: int| 0 <= t < n ==> (#[trigger] grid@[t])@.len() == n,
                        0 <= i < n,
                        0 <= j < n,
                        0 <= k <= n,
                        all_equal ==> (forall|t: int|
                            0 <= t < k ==> #[trigger] g[i as int][t] == g[t][j as int]),
                        !all_equal ==> (exists|t: int|
                            0 <= t < k && #[trigger] g[i as int][t] != g[t][j as int]),
                    decreases n - k,
                {
                    let row = &grid[i];
                    let other = &grid[k];
                    let a = row[k];
                    let b = other[j];
                    proof {
                        assert(g[i as int][k as int] == grid@[i as int]@[k as int]);
                        assert(g[k as int][j as int] == grid@[k as int]@[j as int]);
                    }
                    if a != b {
                        all_equal = false;
                        proof {
                            assert(g[i as int][k as int] != g[k as int][j as int]);
                        }
                    }
                    k = k + 1;
                }
                proof {
                    if all_equal {
                        assert(row_eq_col(g, i as int, j as int));
                    } else {
                        let t = choose|t: int| 0 <= t < n && g[i as int][t] != g[t][j as int];
                        assert(!row_eq_col(g, i as int, j as int));
                    }
                }
                if all_equal {
                    count = count + 1;
                }
                j = j + 1;
            }
            i = i + 1;
        }
        count
    }
}

} // verus!
