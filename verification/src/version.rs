//! The version normalizer and the relaxed version matcher.

use vstd::prelude::*;
use crate::strutil::{before_char, take_before_char, str_eq, lemma_find_char_rec};

verus! {

/// The canonical version token of a raw version-bearing string: everything
/// before the first parenthesized peer annotation, or the whole string when
/// there is none.
pub open spec fn normalize_spec(s: Seq<char>) -> Seq<char> {
    before_char(s, '(')
}

/// Strip a parenthesized peer-dependency annotation from a raw version
/// string.
pub fn extract_version(version_str: &str) -> (r: String)
    ensures
        r@ == normalize_spec(version_str@),
{
    take_before_char(version_str, '(')
}

/// A canonical version token never contains a parenthesized annotation:
/// whatever the raw string held, the normalizer's result is free of `(`.
pub proof fn lemma_normalize_no_paren(s: Seq<char>)
    ensures
        forall|i: int|
            0 <= i < normalize_spec(s).len() ==> normalize_spec(s)[i] != '(',
{
    lemma_find_char_rec(s, '(');
}

/// The relaxed matching rule: the actual version equals the expected one,
/// or continues it after a dot.
pub open spec fn version_matches_spec(actual: Seq<char>, expected: Seq<char>) -> bool {
    actual == expected || (actual.len() > expected.len() && actual.subrange(
        0,
        expected.len() as int + 1,
    ) == expected.push('.'))
}

/// Whether `actual` counts as the version `expected`: equal, or a
/// dot-extension of it (expected `"18"` accepts actual `"18.3.1"`).
pub fn version_matches(actual: &str, expected: &str) -> (r: bool)
    ensures
        r == version_matches_spec(actual@, expected@),
{
    if str_eq(actual, expected) {
        return true;
    }
    let n: usize = actual.unicode_len();
    let m: usize = expected.unicode_len();
    if n <= m {
        return false;
    }
    let mut k: usize = 0;
    while k < m
        invariant
            n == actual@.len(),
            m == expected@.len(),
            m < n,
            0 <= k <= m,
            forall|j: int| 0 <= j < k ==> actual@[j] == expected@[j],
        decreases m - k,
    {
        if actual.get_char(k) != expected.get_char(k) {
            proof {
                assert(actual@.subrange(0, expected@.len() as int + 1)[k as int] != expected@.push(
                    '.',
                )[k as int]);
            }
            return false;
        }
        k = k + 1;
    }
    if actual.get_char(m) == '.' {
        proof {
            assert(actual@.subrange(0, expected@.len() as int + 1) =~= expected@.push('.'));
        }
        true
    } else {
        proof {
            assert(actual@.subrange(0, expected@.len() as int + 1)[m as int] != expected@.push(
                '.',
            )[m as int]);
        }
        false
    }
}

} // verus!
