//! Verified helpers over strings: equality of two string slices and
//! substring search, both stated over the character sequences.

use vstd::prelude::*;

verus! {

/// Holds when `pat` occurs in `text` starting at position `i`.
pub open spec fn matches_at(text: Seq<char>, pat: Seq<char>, i: int) -> bool {
    0 <= i && i + pat.len() <= text.len() && text.subrange(i, i + pat.len() as int) == pat
}

/// Holds when `pat` occurs somewhere in `text` as a contiguous substring.
/// The empty pattern occurs in every text.
pub open spec fn contains_seq(text: Seq<char>, pat: Seq<char>) -> bool {
    exists|i: int| matches_at(text, pat, i)
}

/// Character-for-character equality of two string slices.
pub fn str_eq(a: &str, b: &str) -> (r: bool)
    ensures
        r == (a@ == b@),
{
    let a_len = a.unicode_len();
    let b_len = b.unicode_len();
    if a_len != b_len {
        proof {
            assert(a@ != b@);
        }
        return false;
    }
    let mut i: usize = 0;
    while i < a_len
        invariant
            a_len == a@.len(),
            b_len == b@.len(),
            a_len == b_len,
            i <= a_len,
            forall|j: int| 0 <= j < i ==> a@[j] == b@[j],
        decreases a_len - i,
    {
        if a.get_char(i) != b.get_char(i) {
            return false;
        }
        i = i + 1;
    }
    proof {
        assert(a@ =~= b@);
    }
    true
}

/// Whether `pat` occurs in `text` starting at position `i`.
fn check_match_at(text: &str, pat: &str, i: usize) -> (r: bool)
    requires
        i + pat@.len() <= text@.len(),
        text@.len() <= usize::MAX,
    ensures
        r == matches_at(text@, pat@, i as int),
{
    let pat_len = pat.unicode_len();
    let mut j: usize = 0;
    while j < pat_len
        invariant
            pat_len == pat@.len(),
            i + pat_len <= text@.len(),
            text@.len() <= usize::MAX,
            j <= pat_len,
            forall|k: int| 0 <= k < j ==> text@[i + k] == pat@[k],
        decreases pat_len - j,
    {
        if text.get_char(i + j) != pat.get_char(j) {
            proof {
                assert(text@.subrange(i as int, i + pat@.len() as int)[j as int] != pat@[j as int]);
            }
            return false;
        }
        j = j + 1;
    }
    proof {
        assert(text@.subrange(i as int, i + pat@.len() as int) =~= pat@);
    }
    true
}

/// Whether `pat` occurs anywhere in `text` as a contiguous substring.
pub fn contains_substr(text: &str, pat: &str) -> (r: bool)
    ensures
        r == contains_seq(text@, pat@),
{
    let text_len = text.unicode_len();
    let pat_len = pat.unicode_len();
    if pat_len > text_len {
        proof {
            assert(forall|i: int| !matches_at(text@, pat@, i));
        }
        return false;
    }
    if pat_len == 0 {
        proof {
            assert(text@.subrange(0, 0) =~= pat@);
            assert(matches_at(text@, pat@, 0));
        }
        return true;
    }
    let mut i: usize = 0;
    while i <= text_len - pat_len
        invariant
            text_len == text@.len(),
            pat_len == pat@.len(),
            0 < pat_len <= text_len,
            i <= text_len - pat_len + 1,
            forall|k: int| 0 <= k < i ==> !matches_at(text@, pat@, k),
        decreases text_len - pat_len - i + 1,
    {
        if check_match_at(text, pat, i) {
            return true;
        }
        i = i + 1;
    }
    proof {
        assert(forall|k: int| matches_at(text@, pat@, k) ==> 0 <= k <= text@.len() - pat@.len());
    }
    false
}

} // verus!
