//! Anagram katas: testing two words for anagram equality and grouping a
//! list of words into anagram classes.

use crate::counting::{char_count, char_occurrences, lemma_char_count_positive};
use vstd::prelude::*;
use vstd::string::StrSliceExecFns;

verus! {

/// Two words are anagrams when every character occurs equally often in
/// both.
pub open spec fn anagrams(s: Seq<char>, t: Seq<char>) -> bool {
    forall|c: char| char_count(s, c) == char_count(t, c)
}

/// Whether every character of `a` occurs equally often in `a` and `b`.
fn counts_agree(a: &str, b: &str) -> (r: bool)
    ensures
        r == forall|i: int|
            0 <= i < a@.len() ==> char_count(a@, #[trigger] a@[i]) == char_count(b@, a@[i]),
{
    let len = a.unicode_len();
    let mut i: usize = 0;
    while i < len
        invariant
            len == a@.len(),
            0 <= i <= len,
            forall|t: int| 0 <= t < i ==> char_count(a@, #[trigger] a@[t]) == char_count(b@, a@[t]),
        decreases len - i,
    {
        let c = a.get_char(i);
        if char_occurrences(a, c) != char_occurrences(b, c) {
            return false;
        }
        i = i + 1;
    }
    true
}

/// The executable anagram test on string slices.
fn anagram_check(a: &str, b: &str) -> (r: bool)
    ensures
        r == anagrams(a@, b@),
{
    let forward = counts_agree(a, b);
    let backward = counts_agree(b, a);
    let r = forward && backward;
    proof {
        if r {
            assert forall|c: char| char_count(a@, c) == char_count(b@, c) by {
                if char_count(a@, c) > 0 {
                    lemma_char_count_positive(a@, c);
                    let i = choose|i: int| 0 <= i < a@.len() && a@[i] == c;
                    assert(char_count(a@, a@[i]) == char_count(b@, a@[i]));
                } else if char_count(b@, c) > 0 {
                    lemma_char_count_positive(b@, c);
                    let i = choose|i: int| 0 <= i < b@.len() && b@[i] == c;
                    assert(char_count(b@, b@[i]) == char_count(a@, b@[i]));
                }
            }
        } else {
            if !forward {
                let i = choose|i: int|
                    0 <= i < a@.len() && char_count(a@, #[trigger] a@[i]) != char_count(b@, a@[i]);
                assert(!anagrams(a@, b@));
            } else {
                let i = choose|i: int|
                    0 <= i < b@.len() && char_count(b@, #[trigger] b@[i]) != char_count(a@, b@[i]);
                assert(!anagrams(a@, b@));
            }
        }
    }
    r
}

/// Whether two words consist of the same characters with the same
/// multiplicities.
pub fn is_anagram(s: String, t: String) -> (r: bool)
    ensures
        r == anagrams(s@, t@),
{
    anagram_check(s.as_str(), t.as_str())
}

/// The contents of a vector of words.
pub open spec fn texts_view(v: Seq<String>) -> Seq<Seq<char>> {
    v.map_values(|s: String| s@)
}

/// The contents of a vector of word groups.
pub open spec fn groups_view(gs: Seq<Vec<String>>) -> Seq<Seq<Seq<char>>> {
    gs.map_values(|g: Vec<String>| texts_view(g@))
}

/// The first group whose representative is an anagram of `w`, or -1 when
/// no group matches.
pub open spec fn group_index(gs: Seq<Seq<Seq<char>>>, w: Seq<char>) -> int
    decreases gs.len(),
{
    if gs.len() == 0 {
        -1
    } else if gs[0].len() > 0 && anagrams(gs[0][0], w) {
        0
    } else {
        let rest = group_index(gs.drop_first(), w);
        if rest == -1 {
            -1
        } else {
            1 + rest
        }
    }
}

/// An executable scan over the groups has found `group_index`.
proof fn lemma_group_index_unique(gs: Seq<Seq<Seq<char>>>, w: Seq<char>, k: int)
    requires
        0 <= k <= gs.len(),
        forall|g: int| 0 <= g < k ==> !((#[trigger] gs[g]).len() > 0 && anagrams(gs[g][0], w)),
        k < gs.len() ==> gs[k].len() > 0 && anagrams(gs[k][0], w),
    ensures
        k == gs.len() ==> group_index(gs, w) == -1,
        k < gs.len() ==> group_index(gs, w) == k,
    decreases gs.len(),
{
    if gs.len() > 0 && !(gs[0].len() > 0 && anagrams(gs[0][0], w)) {
        let rest = gs.drop_first();
        assert forall|g: int| 0 <= g < k - 1 implies !((#[trigger] rest[g]).len() > 0 && anagrams(
            rest[g][0],
            w,
        )) by {
            assert(rest[g] == gs[g + 1]);
        }
        if k < gs.len() {
            assert(rest[k - 1] == gs[k]);
        }
        lemma_group_index_unique(rest, w, k - 1);
    }
}

/// The words grouped by anagram class: each word joins the first group
/// whose representative it matches, or opens a new group at the end.
pub open spec fn grouped(ss: Seq<Seq<char>>) -> Seq<Seq<Seq<char>>>
    decreases ss.len(),
{
    if ss.len() == 0 {
        Seq::<Seq<Seq<char>>>::empty()
    } else {
        let gs = grouped(ss.drop_last());
        let w = ss.last();
        let gi = group_index(gs, w);
        if gi == -1 {
            gs.push(seq![w])
        } else {
            gs.update(gi, gs[gi].push(w))
        }
    }
}

/// Whether a word belongs with the representative of this group.
fn matches_group(grp: &Vec<String>, s: &str) -> (r: bool)
    requires
        grp@.len() > 0,
    ensures
        r == anagrams(texts_view(grp@)[0], s@),
{
    let rep = &grp[0];
    anagram_check(rep.as_str(), s)
}

/// Groups the words into anagram classes.  Classes appear in order of
/// their first member, and each class lists its members in input order.
pub fn group_anagrams(strs: Vec<String>) -> (r: Vec<Vec<String>>)
    ensures
        groups_view(r@) == grouped(texts_view(strs@)),
{
    let mut groups: Vec<Vec<String>> = Vec::new();
    let mut idx: usize = 0;
    proof {
        assert(texts_view(strs@.subrange(0, 0)) =~= Seq::<Seq<char>>::empty());
        assert(groups_view(groups@) =~= grouped(texts_view(strs@.subrange(0, 0))));
    }
    while idx < strs.len()
        invariant
            0 <= idx <= strs@.len(),
            forall|g: int| 0 <= g < groups@.len() ==> (#[trigger] groups@[g])@.len() > 0,
            groups_view(groups@) == grouped(texts_view(strs@.subrange(0, idx as int))),
        decreases strs@.len() - idx,
    {
        let ghost prefix = texts_view(strs@.subrange(0, idx as int));
        let ghost next = texts_view(strs@.subrange(0, idx + 1));
        let ghost w = strs@[idx as int]@;
        proof {
            assert(strs@.subrange(0, idx + 1).drop_last() =~= strs@.subrange(0, idx as int));
            assert(next.drop_last() =~= prefix);
            assert(next.last() == w);
            assert(next =~= prefix.push(w));
        }
        let s = &strs[idx];
        let mut g: usize = 0;
        while g < groups.len() && !matches_group(&groups[g], s.as_str())
            invariant
                0 <= g <= groups@.len(),
                forall|t: int| 0 <= t < groups@.len() ==> (#[trigger] groups@[t])@.len() > 0,
                w == strs@[idx as int]@,
                s@ == w,
                idx < strs@.len(),
                forall|t: int|
                    0 <= t < g ==> !anagrams((#[trigger] groups_view(groups@)[t])[0], w),
            decreases groups@.len() - g,
        {
            proof {
                assert(groups_view(groups@)[g as int] == texts_view(groups@[g as int]@));
            }
            g = g + 1;
        }
        let ghost gv = groups_view(groups@);
        let ghost groups_before = groups@;
        proof {
            assert forall|t: int| 0 <= t < g implies !((#[trigger] gv[t]).len() > 0 && anagrams(
                gv[t][0],
                w,
            )) by {
                assert(!anagrams(groups_view(groups@)[t][0], w));
            }
            if g < groups@.len() {
                assert(gv[g as int].len() > 0);
                assert(anagrams(gv[g as int][0], w));
            }
            lemma_group_index_unique(gv, w, g as int);
        }
        if g < groups.len() {
            let mut grp = groups.remove(g);
            grp.push(s.clone());
            let ghost grown = grp@;
            groups.insert(g, grp);
            proof {
                assert(grown =~= groups_before[g as int]@.push(strs@[idx as int]));
                assert(groups@.len() == groups_before.len());
                assert(forall|t: int|
                    0 <= t < groups@.len() && t != g ==> groups@[t] == groups_before[t]);
                assert(groups@[g as int]@ == grown);
                assert(groups_view(groups@) =~= gv.update(g as int, gv[g as int].push(w))) by {
                    assert forall|t: int| 0 <= t < groups@.len() implies groups_view(groups@)[t]
                        == gv.update(g as int, gv[g as int].push(w))[t] by {
                        if t == g {
                            assert(groups@[t]@ == grown);
                            assert(texts_view(grown) =~= texts_view(
                                groups_before[g as int]@,
                            ).push(w));
                        }
                    }
                }
                assert(grouped(next) == gv.update(g as int, gv[g as int].push(w)));
            }
        } else {
            let mut fresh: Vec<String> = Vec::new();
            fresh.push(s.clone());
            let ghost single = fresh@;
            groups.push(fresh);
            proof {
                assert(texts_view(single) =~= seq![w]);
                assert(groups@ == groups_before.push(groups@[groups@.len() - 1]));
                assert(groups_view(groups@) =~= gv.push(seq![w])) by {
                    assert forall|t: int| 0 <= t < groups@.len() implies groups_view(groups@)[t]
                        == gv.push(seq![w])[t] by {
                        if t < gv.len() {
                            assert(groups@[t] == groups_before[t]);
                        } else {
                            assert(groups@[t]@ == single);
                        }
                    }
                }
                assert(grouped(next) == gv.push(seq![w]));
            }
        }
        idx = idx + 1;
    }
    proof {
        assert(strs@.subrange(0, strs@.len() as int) =~= strs@);
    }
    groups
}

} // verus!
