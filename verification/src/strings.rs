//! String utilities: measuring a string, splitting off its first word, and
//! collecting its distinct characters in order of first appearance.

use vstd::prelude::*;
use vstd::string::StrSliceExecFns;
use vstd::string::StringExecFns;
use vstd::string::StringSliceAdditionalSpecFns;

verus! {

/// The position of the first space in `s`, or the length of `s` when it
/// has no space.
pub open spec fn first_space(s: Seq<char>) -> int
    decreases s.len(),
{
    if s.len() == 0 {
        0
    } else if s[0] == ' ' {
        0
    } else {
        1 + first_space(s.drop_first())
    }
}

/// The first space splits the string: no space precedes it, and it is a
/// space unless the string has none.
pub proof fn lemma_first_space_props(s: Seq<char>)
    ensures
        0 <= first_space(s) <= s.len(),
        forall|i: int| 0 <= i < first_space(s) ==> s[i] != ' ',
        first_space(s) < s.len() ==> s[first_space(s)] == ' ',
    decreases s.len(),
{
    if s.len() > 0 && s[0] != ' ' {
        lemma_first_space_props(s.drop_first());
        assert forall|i: int| 0 <= i < first_space(s) implies s[i] != ' ' by {
            if i > 0 {
                assert(s.drop_first()[i - 1] == s[i]);
            }
        }
        if first_space(s) < s.len() {
            assert(s.drop_first()[first_space(s) - 1] == s[first_space(s)]);
        }
    }
}

/// An executable search for the first space has found `first_space`.
proof fn lemma_first_space_unique(s: Seq<char>, k: int)
    requires
        0 <= k <= s.len(),
        forall|i: int| 0 <= i < k ==> s[i] != ' ',
        k < s.len() ==> s[k] == ' ',
    ensures
        k == first_space(s),
    decreases s.len(),
{
    if s.len() > 0 && s[0] != ' ' {
        assert forall|i: int| 0 <= i < k - 1 implies s.drop_first()[i] != ' ' by {
            assert(s.drop_first()[i] == s[i + 1]);
        }
        if k < s.len() {
            assert(s.drop_first()[k - 1] == s[k]);
        }
        lemma_first_space_unique(s.drop_first(), k - 1);
    }
}

/// The distinct characters of `s` in order of first appearance, spaces
/// skipped.
pub open spec fn distinct_chars(s: Seq<char>) -> Seq<char>
    decreases s.len(),
{
    if s.len() == 0 {
        Seq::<char>::empty()
    } else {
        let rest = distinct_chars(s.drop_last());
        if s.last() != ' ' && !s.drop_last().contains(s.last()) {
            rest.push(s.last())
        } else {
            rest
        }
    }
}

/// The length of a string in bytes, its characters encoded as UTF-8; for
/// an ASCII string this is also the number of characters.
pub fn string_length(s: String) -> (r: usize)
    ensures
        r == vstd::utf8::encode_utf8(s@).len() as usize,
        vstd::utf8::is_ascii_chars(s@) && s@.len() <= usize::MAX ==> r == s@.len(),
{
    let t = s.as_str();
    let r = t.len();
    proof {
        assert(t.spec_bytes() == vstd::utf8::encode_utf8(s@));
        if vstd::utf8::is_ascii_chars(s@) {
            vstd::utf8::is_ascii_chars_encode_utf8(s@);
        }
    }
    r
}

/// Splits a string at its first space: the part before the space and the
/// part after it.  A string without a space is returned whole, with an
/// empty rest.
pub fn first_word(s: String) -> (r: (String, String))
    ensures
        first_space(s@) < s@.len() ==> r.0@ == s@.subrange(0, first_space(s@)) && r.1@
            == s@.subrange(first_space(s@) + 1, s@.len() as int),
        first_space(s@) == s@.len() ==> r.0@ == s@ && r.1@ == Seq::<char>::empty(),
{
    proof {
        lemma_first_space_props(s@);
    }
    let len = s.as_str().unicode_len();
    let mut p: usize = 0;
    while p < len && s.as_str().get_char(p) != ' '
        invariant
            len == s@.len(),
            0 <= p <= len,
            forall|i: int| 0 <= i < p ==> s@[i] != ' ',
        decreases len - p,
    {
        p = p + 1;
    }
    proof {
        lemma_first_space_unique(s@, p as int);
    }
    let first = String::from_str(s.as_str().substring_char(0, p));
    let rest = if p < len {
        String::from_str(s.as_str().substring_char(p + 1, len))
    } else {
        String::new()
    };
    proof {
        if p == len {
            assert(s@.subrange(0, p as int) =~= s@);
        }
    }
    (first, rest)
}

/// Whether the character `c` occurs among the first `n` characters of
/// `s`.
pub fn str_prefix_contains(s: &str, n: usize, c: char) -> (r: bool)
    requires
        n <= s@.len(),
    ensures
        r == s@.subrange(0, n as int).contains(c),
{
    let mut j: usize = 0;
    while j < n
        invariant
            n <= s@.len(),
            0 <= j <= n,
            forall|k: int| 0 <= k < j ==> s@[k] != c,
        decreases n - j,
    {
        if s.get_char(j) == c {
            assert(s@.subrange(0, n as int)[j as int] == c);
            return true;
        }
        j = j + 1;
    }
    assert(!s@.subrange(0, n as int).contains(c));
    false
}

/// The distinct characters of a string, in order of first appearance and
/// with spaces skipped.
pub fn unique_characters(s: String) -> (r: String)
    ensures
        r@ == distinct_chars(s@),
{
    let len = s.as_str().unicode_len();
    let mut unique_chars = String::new();
    let mut i: usize = 0;
    proof {
        assert(s@.subrange(0, 0) =~= Seq::<char>::empty());
    }
    while i < len
        invariant
            len == s@.len(),
            0 <= i <= len,
            unique_chars@ == distinct_chars(s@.subrange(0, i as int)),
        decreases len - i,
    {
        let ghost prefix = s@.subrange(0, i as int);
        let ghost next = s@.subrange(0, i + 1);
        proof {
            assert(next.drop_last() =~= prefix);
            assert(next.last() == s@[i as int]);
        }
        let c = s.as_str().get_char(i);
        if c != ' ' && !str_prefix_contains(s.as_str(), i, c) {
            unique_chars.append(s.as_str().substring_char(i, i + 1));
            proof {
                assert(s@.subrange(i as int, i + 1) =~= seq![c]);
                assert(unique_chars@ =~= distinct_chars(prefix).push(c));
                assert(distinct_chars(next) == distinct_chars(prefix).push(c));
            }
        } else {
            proof {
                assert(distinct_chars(next) == distinct_chars(prefix));
            }
        }
        i = i + 1;
    }
    proof {
        assert(s@.subrange(0, len as int) =~= s@);
    }
    unique_chars
}

} // verus!
