//! In-place deduplication of an integer vector, and reversing the order of
//! the words of a string.

use crate::whitespace::{char_is_space, is_space_char};
use vstd::prelude::*;
use vstd::string::{StrSliceExecFns, StringExecFns};

verus! {

/// The entries of `s` with every later duplicate removed: each value keeps
/// only its first occurrence.
pub open spec fn dedup_first(s: Seq<i32>) -> Seq<i32>
    decreases s.len(),
{
    if s.len() == 0 {
        Seq::<i32>::empty()
    } else {
        let rest = dedup_first(s.drop_last());
        if s.drop_last().contains(s.last()) {
            rest
        } else {
            rest.push(s.last())
        }
    }
}

/// The deduplicated list holds each value of the original exactly once.
pub proof fn lemma_dedup_first_props(s: Seq<i32>)
    ensures
        forall|i: int| 0 <= i < dedup_first(s).len() ==> s.contains(#[trigger] dedup_first(s)[i]),
        forall|v: i32| s.contains(v) ==> dedup_first(s).contains(v),
        forall|i: int, j: int|
            0 <= i < j < dedup_first(s).len() ==> dedup_first(s)[i] != dedup_first(s)[j],
    decreases s.len(),
{
    if s.len() > 0 {
        let rest = s.drop_last();
        lemma_dedup_first_props(rest);
        let d = dedup_first(rest);
        assert forall|i: int| 0 <= i < dedup_first(s).len() implies s.contains(
            #[trigger] dedup_first(s)[i],
        ) by {
            if i < d.len() {
                assert(rest.contains(d[i]));
                let w = choose|w: int| 0 <= w < rest.len() && rest[w] == d[i];
                assert(s[w] == d[i]);
            } else {
                assert(dedup_first(s)[i] == s.last());
                assert(s[s.len() - 1] == s.last());
            }
        }
        assert forall|v: i32| s.contains(v) implies dedup_first(s).contains(v) by {
            let w = choose|w: int| 0 <= w < s.len() && s[w] == v;
            if w < s.len() - 1 {
                assert(rest[w] == v);
                assert(rest.contains(v));
                let u = choose|u: int| 0 <= u < d.len() && d[u] == v;
                assert(dedup_first(s)[u] == v);
            } else {
                if rest.contains(s.last()) {
                    let u = choose|u: int| 0 <= u < d.len() && d[u] == v;
                    assert(dedup_first(s)[u] == v);
                } else {
                    assert(dedup_first(s)[d.len() as int] == v);
                }
            }
        }
        assert forall|i: int, j: int|
            0 <= i < j < dedup_first(s).len() implies dedup_first(s)[i] != dedup_first(s)[j] by {
            if j == d.len() {
                assert(dedup_first(s)[i] == d[i]);
                if d[i] == s.last() {
                    assert(rest.contains(d[i]));
                }
            }
        }
    }
}

/// Whether `v` occurs among the first `n` entries of `xs`.
pub fn slice_prefix_contains(xs: &[i32], n: usize, v: i32) -> (r: bool)
    requires
        n <= xs@.len(),
    ensures
        r == xs@.subrange(0, n as int).contains(v),
{
    let mut j: usize = 0;
    while j < n
        invariant
            n <= xs@.len(),
            0 <= j <= n,
            forall|k: int| 0 <= k < j ==> xs@[k] != v,
        decreases n - j,
    {
        if xs[j] == v {
            assert(xs@.subrange(0, n as int)[j as int] == v);
            return true;
        }
        j = j + 1;
    }
    assert(!xs@.subrange(0, n as int).contains(v));
    false
}

/// Removes every later duplicate from the vector, keeping the first
/// occurrence of each value and the relative order of the survivors.
pub fn remove_duplicates(nums: &mut Vec<i32>)
    ensures
        final(nums)@ == dedup_first(old(nums)@),
{
    let ghost original = nums@;
    let mut kept: Vec<i32> = Vec::new();
    let mut i: usize = 0;
    proof {
        assert(original.subrange(0, 0) =~= Seq::<i32>::empty());
    }
    while i < nums.len()
        invariant
            nums@ == original,
            0 <= i <= original.len(),
            kept@ == dedup_first(original.subrange(0, i as int)),
        decreases original.len() - i,
    {
        let ghost prefix = original.subrange(0, i as int);
        let ghost next = original.subrange(0, i + 1);
        proof {
            assert(next.drop_last() =~= prefix);
            assert(next.last() == original[i as int]);
        }
        let v = nums[i];
        if !slice_prefix_contains(nums.as_slice(), i, v) {
            kept.push(v);
        }
        i = i + 1;
    }
    proof {
        assert(original.subrange(0, original.len() as int) =~= original);
    }
    *nums = kept;
}

/// The length of the leading run of non-whitespace characters.
pub open spec fn word_len(s: Seq<char>) -> nat
    decreases s.len(),
{
    if s.len() == 0 || is_space_char(s[0]) {
        0
    } else {
        (1 + word_len(s.drop_first())) as nat
    }
}

/// The leading run is no longer than the string.
pub proof fn lemma_word_len_le(s: Seq<char>)
    ensures
        word_len(s) <= s.len(),
        forall|k: int| 0 <= k < word_len(s) ==> !is_space_char(s[k]),
        word_len(s) < s.len() ==> is_space_char(s[word_len(s) as int]),
    decreases s.len(),
{
    if s.len() > 0 && !is_space_char(s[0]) {
        lemma_word_len_le(s.drop_first());
        assert forall|k: int| 0 <= k < word_len(s) implies !is_space_char(s[k]) by {
            if k > 0 {
                assert(s.drop_first()[k - 1] == s[k]);
            }
        }
        if word_len(s) < s.len() {
            assert(s.drop_first()[word_len(s) - 1] == s[word_len(s) as int]);
        }
    }
}

/// An executable scan that stops at the first whitespace character has
/// measured the leading run.
proof fn lemma_word_len_unique(s: Seq<char>, l: int)
    requires
        0 <= l <= s.len(),
        forall|k: int| 0 <= k < l ==> !is_space_char(s[k]),
        l < s.len() ==> is_space_char(s[l]),
    ensures
        l == word_len(s),
    decreases s.len(),
{
    if s.len() > 0 && !is_space_char(s[0]) {
        assert forall|k: int| 0 <= k < l - 1 implies !is_space_char(s.drop_first()[k]) by {
            assert(s.drop_first()[k] == s[k + 1]);
        }
        if l < s.len() {
            assert(s.drop_first()[l - 1] == s[l]);
        }
        lemma_word_len_unique(s.drop_first(), l - 1);
    }
}

/// The words of `s`: its maximal runs of non-whitespace characters, in
/// order.
pub open spec fn words(s: Seq<char>) -> Seq<Seq<char>>
    decreases s.len(),
    via words_termination
{
    if s.len() == 0 {
        Seq::<Seq<char>>::empty()
    } else if is_space_char(s[0]) {
        words(s.drop_first())
    } else {
        seq![s.subrange(0, word_len(s) as int)] + words(s.skip(word_len(s) as int))
    }
}

#[via_fn]
proof fn words_termination(s: Seq<char>) {
    if s.len() > 0 && !is_space_char(s[0]) {
        lemma_word_len_le(s);
    }
}

/// The given words joined by single spaces.
pub open spec fn join_spaced(ws: Seq<Seq<char>>) -> Seq<char>
    decreases ws.len(),
{
    if ws.len() == 0 {
        Seq::<char>::empty()
    } else if ws.len() == 1 {
        ws[0]
    } else {
        ws[0] + seq![' '] + join_spaced(ws.drop_first())
    }
}

/// The contents of a vector of words.
pub open spec fn words_view(ws: Seq<String>) -> Seq<Seq<char>> {
    ws.map_values(|w: String| w@)
}

/// Splits a string into its words: the maximal runs of non-whitespace
/// characters, in order.
pub fn split_words(s: &str) -> (ws: Vec<String>)
    ensures
        words_view(ws@) == words(s@),
{
    let len = s.unicode_len();
    let mut ws: Vec<String> = Vec::new();
    let mut i: usize = 0;
    proof {
        assert(s@.skip(0) =~= s@);
        assert(words_view(ws@) =~= Seq::<Seq<char>>::empty());
        assert(words_view(ws@) + words(s@) =~= words(s@));
    }
    while i < len
        invariant
            len == s@.len(),
            0 <= i <= len,
            words_view(ws@) + words(s@.skip(i as int)) == words(s@),
        decreases len - i,
    {
        let ghost tail = s@.skip(i as int);
        proof {
            assert(tail[0] == s@[i as int]);
        }
        let c = s.get_char(i);
        if char_is_space(c) {
            proof {
                assert(tail.drop_first() =~= s@.skip(i + 1));
            }
            i = i + 1;
        } else {
            let mut j: usize = i + 1;
            while j < len && !char_is_space(s.get_char(j))
                invariant
                    len == s@.len(),
                    i < j <= len,
                    forall|k: int| i <= k < j ==> !is_space_char(s@[k]),
                decreases len - j,
            {
                j = j + 1;
            }
            proof {
                assert forall|k: int| 0 <= k < j - i implies !is_space_char(tail[k]) by {
                    assert(tail[k] == s@[i + k]);
                }
                if j < len {
                    assert(tail[j - i] == s@[j as int]);
                }
                lemma_word_len_unique(tail, j - i);
                assert(tail.subrange(0, j - i) =~= s@.subrange(i as int, j as int));
                assert(tail.skip(j - i) =~= s@.skip(j as int));
                assert(words(tail) == seq![s@.subrange(i as int, j as int)] + words(
                    s@.skip(j as int),
                ));
            }
            let word = String::from_str(s.substring_char(i, j));
            let ghost before = ws@;
            ws.push(word);
            proof {
                assert(words_view(ws@) =~= words_view(before).push(
                    s@.subrange(i as int, j as int),
                ));
                assert(words_view(before).push(s@.subrange(i as int, j as int)) + words(
                    s@.skip(j as int),
                ) =~= words_view(before) + words(tail));
            }
            i = j;
        }
    }
    proof {
        assert(s@.skip(len as int) =~= Seq::<char>::empty());
        assert(words_view(ws@) + words(s@.skip(len as int)) =~= words_view(ws@));
    }
    ws
}

/// Reversing the word list and joining one more word at the front.
proof fn lemma_join_reversed_push(ws: Seq<Seq<char>>, w: Seq<char>)
    ensures
        ws.len() == 0 ==> join_spaced(ws.push(w).reverse()) == w,
        ws.len() > 0 ==> join_spaced(ws.push(w).reverse()) == w + seq![' '] + join_spaced(
            ws.reverse(),
        ),
{
    let r = ws.push(w).reverse();
    assert(r =~= seq![w] + ws.reverse());
    if ws.len() == 0 {
        assert(r.len() == 1);
        assert(r[0] == w);
    } else {
        assert(r[0] == w);
        assert(r.drop_first() =~= ws.reverse());
    }
}

/// The words of the string in reverse order, joined by single spaces; a
/// string without words gives the empty string.
pub fn reverse_words(s: &String) -> (r: String)
    ensures
        r@ == join_spaced(words(s@).reverse()),
{
    let ws = split_words(s.as_str());
    let mut reversed = String::new();
    let mut first = true;
    let mut k: usize = 0;
    proof {
        assert(words_view(ws@).subrange(0, 0) =~= Seq::<Seq<char>>::empty());
        assert(Seq::<Seq<char>>::empty().reverse() =~= Seq::<Seq<char>>::empty());
    }
    while k < ws.len()
        invariant
            words_view(ws@) == words(s@),
            ws@.len() == words(s@).len(),
            0 <= k <= ws@.len(),
            first == (k == 0),
            reversed@ == join_spaced(words_view(ws@).subrange(0, k as int).reverse()),
        decreases ws@.len() - k,
    {
        let ghost prefix = words_view(ws@).subrange(0, k as int);
        proof {
            assert(words_view(ws@).subrange(0, k + 1) =~= prefix.push(words_view(ws@)[k as int]));
            assert(words_view(ws@)[k as int] == ws@[k as int]@);
            lemma_join_reversed_push(prefix, words_view(ws@)[k as int]);
        }
        if first {
            reversed = ws[k].clone();
            first = false;
        } else {
            let mut joined = ws[k].clone();
            joined.append(" ");
            joined.append(reversed.as_str());
            proof {
                reveal_strlit(" ");
                assert(" "@ =~= seq![' ']);
                assert(joined@ =~= ws@[k as int]@ + seq![' '] + join_spaced(prefix.reverse()));
            }
            reversed = joined;
        }
        k = k + 1;
    }
    proof {
        assert(words_view(ws@).subrange(0, ws@.len() as int) =~= words_view(ws@));
    }
    reversed
}

} // verus!
