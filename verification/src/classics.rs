//! Classic small exercises: classifying a character, merging two sorted
//! arrays, the two-sum search, a miniature expression evaluator, and
//! rotating an array in place.

use vstd::prelude::*;
use vstd::string::StringExecFns;

verus! {

/// What `char::is_alphabetic` reports: whether the character has the
/// Unicode `Alphabetic` property, a set far too large to spell out.
pub uninterp spec fn char_alphabetic(c: char) -> bool;

/// Relies on `char::is_alphabetic` of std: the result depends on the
/// character alone, and on ASCII it holds exactly for the letters.
pub assume_specification[ char::is_alphabetic ](c: char) -> (r: bool)
    ensures
        r == char_alphabetic(c),
        (c as u32) < 0x80 ==> r == (('a' as u32) <= (c as u32) && (c as u32) <= ('z' as u32)
            || ('A' as u32) <= (c as u32) && (c as u32) <= ('Z' as u32)),
;

/// The five lowercase vowels.
pub open spec fn is_vowel(c: char) -> bool {
    c == 'a' || c == 'e' || c == 'i' || c == 'o' || c == 'u'
}

/// Names the class of a character: a lowercase vowel, any other alphabetic
/// character, or neither.
pub fn classify_char(c: char) -> (r: String)
    ensures
        is_vowel(c) ==> r@ == "vowel"@,
        !is_vowel(c) && char_alphabetic(c) ==> r@ == "consonant"@,
        !is_vowel(c) && !char_alphabetic(c) ==> r@ == "neither"@,
{
    if c == 'a' || c == 'e' || c == 'i' || c == 'o' || c == 'u' {
        String::from_str("vowel")
    } else if c.is_alphabetic() {
        String::from_str("consonant")
    } else {
        String::from_str("neither")
    }
}

/// Two sequences merged as a sorted merge does: at every step the smaller
/// head moves first, ties favouring the first sequence.
pub open spec fn merge_seqs(a: Seq<i32>, b: Seq<i32>) -> Seq<i32>
    decreases a.len() + b.len(),
{
    if a.len() == 0 {
        b
    } else if b.len() == 0 {
        a
    } else if a[0] <= b[0] {
        seq![a[0]] + merge_seqs(a.drop_first(), b)
    } else {
        seq![b[0]] + merge_seqs(a, b.drop_first())
    }
}

/// Merges two arrays by repeatedly taking the smaller head; on two sorted
/// inputs the result is their sorted merge.
pub fn merge_sorted(a: &[i32], b: &[i32]) -> (r: Vec<i32>)
    ensures
        r@ == merge_seqs(a@, b@),
{
    let mut result: Vec<i32> = Vec::new();
    let mut i: usize = 0;
    let mut j: usize = 0;
    proof {
        assert(a@.skip(0) =~= a@);
        assert(b@.skip(0) =~= b@);
        assert(result@ + merge_seqs(a@, b@) =~= merge_seqs(a@, b@));
    }
    while i < a.len() && j < b.len()
        invariant
            0 <= i <= a@.len(),
            0 <= j <= b@.len(),
            result@ + merge_seqs(a@.skip(i as int), b@.skip(j as int)) == merge_seqs(a@, b@),
        decreases a@.len() - i + b@.len() - j,
    {
        proof {
            assert(a@.skip(i as int)[0] == a@[i as int]);
            assert(b@.skip(j as int)[0] == b@[j as int]);
            assert(a@.skip(i as int).drop_first() =~= a@.skip(i + 1));
            assert(b@.skip(j as int).drop_first() =~= b@.skip(j + 1));
        }
        if a[i] <= b[j] {
            result.push(a[i]);
            proof {
                assert(result@ + merge_seqs(a@.skip(i + 1), b@.skip(j as int)) =~= merge_seqs(
                    a@,
                    b@,
                ));
            }
            i = i + 1;
        } else {
            result.push(b[j]);
            proof {
                assert(result@ + merge_seqs(a@.skip(i as int), b@.skip(j + 1)) =~= merge_seqs(
                    a@,
                    b@,
                ));
            }
            j = j + 1;
        }
    }
    while i < a.len()
        invariant
            0 <= i <= a@.len(),
            0 <= j <= b@.len(),
            i == a@.len() || j == b@.len(),
            result@ + merge_seqs(a@.skip(i as int), b@.skip(j as int)) == merge_seqs(a@, b@),
        decreases a@.len() - i,
    {
        proof {
            assert(j == b@.len());
            assert(b@.skip(j as int) =~= Seq::<i32>::empty());
            assert(a@.skip(i as int)[0] == a@[i as int]);
            assert(a@.skip(i as int).drop_first() =~= a@.skip(i + 1));
            assert(merge_seqs(a@.skip(i as int), b@.skip(j as int)) == seq![a@[i as int]]
                + merge_seqs(a@.skip(i + 1), b@.skip(j as int)));
        }
        result.push(a[i]);
        proof {
            assert(result@ + merge_seqs(a@.skip(i + 1), b@.skip(j as int)) =~= merge_seqs(a@, b@));
        }
        i = i + 1;
    }
    while j < b.len()
        invariant
            i == a@.len(),
            0 <= j <= b@.len(),
            result@ + merge_seqs(a@.skip(i as int), b@.skip(j as int)) == merge_seqs(a@, b@),
        decreases b@.len() - j,
    {
        proof {
            assert(a@.skip(i as int) =~= Seq::<i32>::empty());
            assert(merge_seqs(a@.skip(i as int), b@.skip(j as int)) == b@.skip(j as int));
            assert(b@.skip(j as int)[0] == b@[j as int]);
            assert(b@.skip(j + 1) =~= b@.skip(j as int).drop_first());
        }
        result.push(b[j]);
        proof {
            assert(merge_seqs(a@.skip(i as int), b@.skip(j + 1)) == b@.skip(j + 1));
            assert(result@ + merge_seqs(a@.skip(i as int), b@.skip(j + 1)) =~= merge_seqs(a@, b@));
        }
        j = j + 1;
    }
    proof {
        assert(a@.skip(a@.len() as int) =~= Seq::<i32>::empty());
        assert(b@.skip(b@.len() as int) =~= Seq::<i32>::empty());
        assert(result@ + merge_seqs(a@.skip(i as int), b@.skip(j as int)) =~= result@);
    }
    result
}

/// No pair of positions below `upto` sums to the target.
pub open spec fn no_pair_below(nums: Seq<i32>, target: i32, upto: int) -> bool {
    forall|a: int, b: int|
        #![trigger nums[a], nums[b]]
        0 <= a < b < upto ==> nums[a] + nums[b] != target as int
}

/// Looks for two positions whose values sum to the target.  The reported
/// pair has the smallest possible second position, and for it the largest
/// possible first position; when no pair sums to the target the search
/// reports nothing.
pub fn two_sum(nums: &[i32], target: i32) -> (r: Option<(usize, usize)>)
    ensures
        (r matches Some(p) ==> p.0 < p.1 < nums@.len() && nums@[p.0 as int] + nums@[p.1 as int]
            == target as int && no_pair_below(nums@, target, p.1 as int) && (forall|t: int|
            p.0 < t < p.1 ==> #[trigger] nums@[t] + nums@[p.1 as int] != target as int)),
        r is None ==> no_pair_below(nums@, target, nums@.len() as int),
{
    if nums.len() == 0 {
        return None;
    }
    let mut i: usize = 1;
    while i < nums.len()
        invariant
            1 <= i <= nums@.len(),
            no_pair_below(nums@, target, i as int),
        decreases nums@.len() - i,
    {
        let mut j: usize = i;
        while j > 0
            invariant
                0 <= j <= i < nums@.len(),
                no_pair_below(nums@, target, i as int),
                forall|t: int|
                    j <= t < i ==> #[trigger] nums@[t] + nums@[i as int] != target as int,
            decreases j,
        {
            j = j - 1;
            if nums[j] as i64 + nums[i] as i64 == target as i64 {
                assert(nums@[j as int] + nums@[i as int] == target as int);
                assert(no_pair_below(nums@, target, i as int));
                assert(forall|t: int|
                    j < t < i ==> #[trigger] nums@[t] + nums@[i as int] != target as int);
                return Some((j, i));
            }
        }
        i = i + 1;
    }
    None
}

/// A miniature arithmetic expression: a number, a sum, or a product.
pub enum Expr {
    Number(i32),
    Add(Box<Expr>, Box<Expr>),
    Mul(Box<Expr>, Box<Expr>),
}

/// The mathematical value of an expression.
pub open spec fn eval_expr(e: Expr) -> int
    decreases e,
{
    match e {
        Expr::Number(n) => n as int,
        Expr::Add(left, right) => eval_expr(*left) + eval_expr(*right),
        Expr::Mul(left, right) => eval_expr(*left) * eval_expr(*right),
    }
}

/// Whether every subexpression evaluates within `i32`, so that the
/// machine evaluation never overflows.
pub open spec fn eval_in_bounds(e: Expr) -> bool
    decreases e,
{
    match e {
        Expr::Number(_) => true,
        Expr::Add(left, right) => eval_in_bounds(*left) && eval_in_bounds(*right) && i32::MIN
            <= eval_expr(*left) + eval_expr(*right) <= i32::MAX,
        Expr::Mul(left, right) => eval_in_bounds(*left) && eval_in_bounds(*right) && i32::MIN
            <= eval_expr(*left) * eval_expr(*right) <= i32::MAX,
    }
}

/// Evaluates an expression tree.
pub fn evaluate(expr: &Expr) -> (r: i32)
    requires
        eval_in_bounds(*expr),
    ensures
        r == eval_expr(*expr),
    decreases *expr,
{
    match expr {
        Expr::Number(n) => *n,
        Expr::Add(left, right) => evaluate(&**left) + evaluate(&**right),
        Expr::Mul(left, right) => evaluate(&**left) * evaluate(&**right),
    }
}

/// Reverses the entries of `data` between `a` and `b`, exclusive, leaving
/// the rest in place.
fn reverse_range(data: &mut Vec<i32>, a: usize, b: usize)
    requires
        a <= b <= old(data)@.len(),
    ensures
        final(data)@.len() == old(data)@.len(),
        forall|t: int| a <= t < b ==> final(data)@[t] == old(data)@[a + b - 1 - t],
        forall|t: int|
            0 <= t < old(data)@.len() && !(a <= t < b) ==> final(data)@[t] == old(data)@[t],
{
    let mut lo = a;
    let mut hi = b;
    while hi - lo >= 2
        invariant
            a <= lo <= hi <= b <= data@.len(),
            lo - a == b - hi,
            data@.len() == old(data)@.len(),
            forall|t: int| a <= t < lo ==> data@[t] == old(data)@[a + b - 1 - t],
            forall|t: int| hi <= t < b ==> data@[t] == old(data)@[a + b - 1 - t],
            forall|t: int| lo <= t < hi ==> data@[t] == old(data)@[t],
            forall|t: int|
                0 <= t < old(data)@.len() && !(a <= t < b) ==> data@[t] == old(data)@[t],
        decreases hi - lo,
    {
        hi = hi - 1;
        let x = data[lo];
        let y = data[hi];
        data[lo] = y;
        data[hi] = x;
        lo = lo + 1;
    }
}

/// Rotates the array right by `k` positions: the last `k % len` entries
/// move to the front, everything else shifts back.  An empty array stays
/// empty.
pub fn rotate_in_place(data: &mut Vec<i32>, k: usize)
    ensures
        old(data)@.len() == 0 ==> final(data)@ == old(data)@,
        old(data)@.len() > 0 ==> final(data)@ == old(data)@.subrange(
            old(data)@.len() - (k as int % old(data)@.len() as int),
            old(data)@.len() as int,
        ) + old(data)@.subrange(0, old(data)@.len() - (k as int % old(data)@.len() as int)),
{
    let len = data.len();
    if len == 0 {
        return ;
    }
    let k = k % len;
    let ghost original = data@;
    reverse_range(data, 0, len);
    let ghost once = data@;
    reverse_range(data, 0, k);
    let ghost twice = data@;
    reverse_range(data, k, len);
    proof {
        assert(data@ =~= original.subrange(len - k as int, len as int) + original.subrange(
            0,
            len - k as int,
        ));
    }
}

} // verus!
