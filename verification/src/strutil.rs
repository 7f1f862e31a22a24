//! Verified string routines: searching for characters and substrings,
//! splitting, trimming, and equality, each tied to a spec-level definition
//! over `Seq<char>`.

use vstd::prelude::*;

verus! {

/// Index of the first occurrence of `c` in `s`, or -1 when absent.
pub open spec fn find_char_rec(s: Seq<char>, c: char) -> int
    decreases s.len(),
{
    if s.len() == 0 {
        -1
    } else if s[0] == c {
        0
    } else {
        let r = find_char_rec(s.drop_first(), c);
        if r < 0 {
            -1
        } else {
            r + 1
        }
    }
}

/// `find_char_rec` returns -1 exactly when `c` is absent, and otherwise
/// the smallest index holding `c`.
pub proof fn lemma_find_char_rec(s: Seq<char>, c: char)
    ensures
        find_char_rec(s, c) == -1 || (0 <= find_char_rec(s, c) < s.len()),
        find_char_rec(s, c) == -1 ==> forall|i: int| 0 <= i < s.len() ==> s[i] != c,
        find_char_rec(s, c) >= 0 ==> s[find_char_rec(s, c)] == c,
        forall|i: int| 0 <= i < find_char_rec(s, c) ==> s[i] != c,
    decreases s.len(),
{
    if s.len() > 0 && s[0] != c {
        lemma_find_char_rec(s.drop_first(), c);
        assert forall|i: int| 0 <= i < s.len() && find_char_rec(s, c) == -1 implies s[i] != c by {
            if i > 0 {
                assert(s.drop_first()[i - 1] == s[i]);
            }
        }
        assert forall|i: int| 0 <= i < find_char_rec(s, c) implies s[i] != c by {
            if i > 0 {
                assert(s.drop_first()[i - 1] == s[i]);
            }
        }
    }
}

/// The characterization pins `find_char_rec` down: a least index is it.
pub proof fn lemma_find_char_rec_is(s: Seq<char>, c: char, i: int)
    requires
        0 <= i < s.len(),
        s[i] == c,
        forall|j: int| 0 <= j < i ==> s[j] != c,
    ensures
        find_char_rec(s, c) == i,
    decreases s.len(),
{
    if i > 0 {
        assert(s[0] != c);
        assert(s.drop_first()[i - 1] == s[i]);
        assert forall|j: int| 0 <= j < i - 1 implies s.drop_first()[j] != c by {
            assert(s.drop_first()[j] == s[j + 1]);
        }
        lemma_find_char_rec_is(s.drop_first(), c, i - 1);
    }
}

/// First index of `c` in `s`, if any.
pub fn find_char(s: &str, c: char) -> (r: Option<usize>)
    ensures
        r matches Some(i) ==> i == find_char_rec(s@, c),
        r is None ==> find_char_rec(s@, c) == -1,
{
    let n: usize = s.unicode_len();
    let mut i: usize = 0;
    while i < n
        invariant
            n == s@.len(),
            0 <= i <= n,
            forall|j: int| 0 <= j < i ==> s@[j] != c,
        decreases n - i,
    {
        if s.get_char(i) == c {
            proof {
                lemma_find_char_rec_is(s@, c, i as int);
            }
            return Some(i);
        }
        i = i + 1;
    }
    proof {
        lemma_find_char_rec(s@, c);
    }
    None
}

/// Index of the last occurrence of `c` in `s`, or -1 when absent.
pub open spec fn rfind_char_rec(s: Seq<char>, c: char) -> int
    decreases s.len(),
{
    if s.len() == 0 {
        -1
    } else if s[s.len() - 1] == c {
        s.len() - 1
    } else {
        rfind_char_rec(s.drop_last(), c)
    }
}

/// `rfind_char_rec` returns -1 exactly when `c` is absent, and otherwise
/// the greatest index holding `c`.
pub proof fn lemma_rfind_char_rec(s: Seq<char>, c: char)
    ensures
        rfind_char_rec(s, c) == -1 || (0 <= rfind_char_rec(s, c) < s.len()),
        rfind_char_rec(s, c) == -1 ==> forall|i: int| 0 <= i < s.len() ==> s[i] != c,
        rfind_char_rec(s, c) >= 0 ==> s[rfind_char_rec(s, c)] == c,
        forall|i: int| rfind_char_rec(s, c) < i < s.len() ==> s[i] != c,
    decreases s.len(),
{
    if s.len() > 0 && s[s.len() - 1] != c {
        lemma_rfind_char_rec(s.drop_last(), c);
        assert forall|i: int|
            0 <= i < s.len() && rfind_char_rec(s, c) == -1 implies s[i] != c by {
            if i < s.len() - 1 {
                assert(s.drop_last()[i] == s[i]);
            }
        }
        assert forall|i: int| rfind_char_rec(s, c) < i < s.len() implies s[i] != c by {
            if i < s.len() - 1 {
                assert(s.drop_last()[i] == s[i]);
            }
        }
    }
}

/// A greatest index holding `c` is what `rfind_char_rec` returns.
pub proof fn lemma_rfind_char_rec_is(s: Seq<char>, c: char, i: int)
    requires
        0 <= i < s.len(),
        s[i] == c,
        forall|j: int| i < j < s.len() ==> s[j] != c,
    ensures
        rfind_char_rec(s, c) == i,
    decreases s.len(),
{
    if i < s.len() - 1 {
        lemma_rfind_char_rec_is(s.drop_last(), c, i);
    }
}

/// Last index of `c` in `s`, if any.
pub fn rfind_char(s: &str, c: char) -> (r: Option<usize>)
    ensures
        r matches Some(i) ==> i == rfind_char_rec(s@, c),
        r is None ==> rfind_char_rec(s@, c) == -1,
{
    let n: usize = s.unicode_len();
    let mut i: usize = n;
    while i > 0
        invariant
            n == s@.len(),
            0 <= i <= n,
            forall|j: int| i <= j < n ==> s@[j] != c,
        decreases i,
    {
        i = i - 1;
        if s.get_char(i) == c {
            proof {
                lemma_rfind_char_rec_is(s@, c, i as int);
            }
            return Some(i);
        }
    }
    proof {
        lemma_rfind_char_rec(s@, c);
    }
    None
}

/// Index of the first occurrence of `p` as a contiguous run in `s`, or -1.
pub open spec fn find_sub_rec(s: Seq<char>, p: Seq<char>) -> int
    decreases s.len(),
{
    if s.len() < p.len() {
        -1
    } else if s.subrange(0, p.len() as int) == p {
        0
    } else if s.len() == 0 {
        -1
    } else {
        let r = find_sub_rec(s.drop_first(), p);
        if r < 0 {
            -1
        } else {
            r + 1
        }
    }
}

/// Whether `p` occurs as a contiguous run in `s`.
pub open spec fn has_sub(s: Seq<char>, p: Seq<char>) -> bool {
    find_sub_rec(s, p) >= 0
}

/// `find_sub_rec` returns -1 exactly when `p` occurs nowhere, and otherwise
/// the least position where `p` occurs.
pub proof fn lemma_find_sub_rec(s: Seq<char>, p: Seq<char>)
    ensures
        find_sub_rec(s, p) == -1 || (0 <= find_sub_rec(s, p) <= s.len() - p.len()),
        find_sub_rec(s, p) == -1 ==> forall|j: int|
            0 <= j <= s.len() - p.len() ==> #[trigger] s.subrange(j, j + p.len()) != p,
        find_sub_rec(s, p) >= 0 ==> s.subrange(
            find_sub_rec(s, p),
            find_sub_rec(s, p) + p.len(),
        ) == p,
        forall|j: int| 0 <= j < find_sub_rec(s, p) ==> #[trigger] s.subrange(j, j + p.len())
            != p,
    decreases s.len(),
{
    if s.len() >= p.len() && s.subrange(0, p.len() as int) != p && s.len() > 0 {
        lemma_find_sub_rec(s.drop_first(), p);
        assert forall|j: int| 1 <= j <= s.len() - p.len() implies s.drop_first().subrange(
            j - 1,
            j - 1 + p.len(),
        ) == #[trigger] s.subrange(j, j + p.len()) by {
            assert(s.drop_first().subrange(j - 1, j - 1 + p.len()) =~= s.subrange(
                j,
                j + p.len(),
            ));
        }
    }
}

/// A least position where `p` occurs is what `find_sub_rec` returns.
pub proof fn lemma_find_sub_rec_is(s: Seq<char>, p: Seq<char>, i: int)
    requires
        0 <= i <= s.len() - p.len(),
        s.subrange(i, i + p.len()) == p,
        forall|j: int| 0 <= j < i ==> #[trigger] s.subrange(j, j + p.len()) != p,
    ensures
        find_sub_rec(s, p) == i,
    decreases s.len(),
{
    if i == 0 {
        assert(s.subrange(0, p.len() as int) == p);
    } else {
        let pl = p.len() as int;
        assert(s.subrange(0, 0 + pl) != p);
        assert(s.subrange(0, pl) != p);
        assert(s.len() > 0);
        let t = s.drop_first();
        assert forall|j: int| 0 <= j <= t.len() - p.len() implies #[trigger] t.subrange(
            j,
            j + p.len(),
        ) == s.subrange(j + 1, j + 1 + p.len()) by {
            assert(t.subrange(j, j + p.len()) =~= s.subrange(j + 1, j + 1 + p.len()));
        }
        lemma_find_sub_rec_is(t, p, i - 1);
    }
}

/// Whether `p` stands at position `i` of `s`.
fn match_at(s: &str, p: &str, i: usize) -> (r: bool)
    requires
        i + p@.len() <= s@.len(),
        s@.len() <= usize::MAX,
    ensures
        r == (s@.subrange(i as int, i + p@.len()) == p@),
{
    let m: usize = p.unicode_len();
    let mut k: usize = 0;
    while k < m
        invariant
            m == p@.len(),
            i + m <= s@.len() <= usize::MAX,
            0 <= k <= m,
            forall|t: int| 0 <= t < k ==> s@[i + t] == p@[t],
        decreases m - k,
    {
        if s.get_char(i + k) != p.get_char(k) {
            proof {
                assert(s@.subrange(i as int, i + p@.len())[k as int] != p@[k as int]);
            }
            return false;
        }
        k = k + 1;
    }
    proof {
        assert(s@.subrange(i as int, i + p@.len()) =~= p@);
    }
    true
}

/// First position of `p` as a contiguous run in `s`, if any.
pub fn find_sub(s: &str, p: &str) -> (r: Option<usize>)
    ensures
        r matches Some(i) ==> i == find_sub_rec(s@, p@),
        r is None ==> find_sub_rec(s@, p@) == -1,
{
    let n: usize = s.unicode_len();
    let m: usize = p.unicode_len();
    if m > n {
        proof {
            lemma_find_sub_rec(s@, p@);
        }
        return None;
    }
    if m == 0 {
        proof {
            assert(s@.subrange(0, 0) =~= p@);
            lemma_find_sub_rec_is(s@, p@, 0);
        }
        return Some(0);
    }
    let mut i: usize = 0;
    while i <= n - m
        invariant
            n == s@.len(),
            m == p@.len(),
            0 < m <= n,
            0 <= i <= n - m + 1,
            forall|j: int| 0 <= j < i ==> #[trigger] s@.subrange(j, j + p@.len()) != p@,
        decreases n - i,
    {
        if match_at(s, p, i) {
            proof {
                lemma_find_sub_rec_is(s@, p@, i as int);
            }
            return Some(i);
        }
        i = i + 1;
    }
    proof {
        lemma_find_sub_rec(s@, p@);
    }
    None
}

/// Whether `p` occurs as a contiguous run in `s`.
pub fn contains_sub(s: &str, p: &str) -> (r: bool)
    ensures
        r == has_sub(s@, p@),
{
    match find_sub(s, p) {
        Some(_) => true,
        None => false,
    }
}

/// Whether `s` ends with the run `p`.
pub open spec fn ends_with(s: Seq<char>, p: Seq<char>) -> bool {
    s.len() >= p.len() && s.skip(s.len() - p.len()) == p
}

/// Whether `s` ends with `p`.
pub fn ends_with_str(s: &str, p: &str) -> (r: bool)
    ensures
        r == ends_with(s@, p@),
{
    let n: usize = s.unicode_len();
    let m: usize = p.unicode_len();
    if m > n {
        return false;
    }
    let r = match_at(s, p, n - m);
    proof {
        assert(s@.skip(s@.len() - p@.len()) =~= s@.subrange(
            n - m,
            n - m + p@.len(),
        ));
    }
    r
}

/// The part of `s` before the first `c`; all of `s` when `c` is absent.
pub open spec fn before_char(s: Seq<char>, c: char) -> Seq<char> {
    let i = find_char_rec(s, c);
    if i < 0 {
        s
    } else {
        s.take(i)
    }
}

/// The part of `s` before the first `c`, or all of it.
pub fn take_before_char(s: &str, c: char) -> (r: String)
    ensures
        r@ == before_char(s@, c),
{
    match find_char(s, c) {
        Some(i) => {
            proof {
                lemma_find_char_rec(s@, c);
            }
            let cut = s.substring_char(0, i);
            proof {
                assert(cut@ =~= s@.take(i as int));
            }
            cut.to_owned()
        },
        None => s.to_owned(),
    }
}

/// The views of a sequence of strings.
pub open spec fn views_of(parts: Seq<String>) -> Seq<Seq<char>> {
    parts.map_values(|p: String| p@)
}

/// Pushing a string appends its view.
pub proof fn lemma_views_push(parts: Seq<String>, x: String)
    ensures
        views_of(parts.push(x)) == views_of(parts) + seq![x@],
{
    assert(views_of(parts.push(x)) =~= views_of(parts) + seq![x@]);
}

/// The pieces of `s` between occurrences of `c`, in order; `s` itself when
/// `c` is absent.
pub open spec fn split_char_rec(s: Seq<char>, c: char) -> Seq<Seq<char>>
    decreases s.len(),
    via split_char_rec_dec
{
    let i = find_char_rec(s, c);
    if i < 0 {
        seq![s]
    } else {
        seq![s.take(i)] + split_char_rec(s.subrange(i + 1, s.len() as int), c)
    }
}

#[via_fn]
proof fn split_char_rec_dec(s: Seq<char>, c: char) {
    lemma_find_char_rec(s, c);
}

/// Split `s` at every occurrence of `c`.
pub fn split_char(s: &str, c: char) -> (r: Vec<String>)
    ensures
        views_of(r@) == split_char_rec(s@, c),
{
    let n: usize = s.unicode_len();
    let mut parts: Vec<String> = Vec::new();
    let mut pos: usize = 0;
    proof {
        assert(s@.subrange(0, n as int) =~= s@);
        assert(views_of(parts@) + split_char_rec(s@, c) =~= split_char_rec(s@, c));
    }
    loop
        invariant
            n == s@.len(),
            0 <= pos <= n,
            split_char_rec(s@, c) == views_of(parts@) + split_char_rec(
                s@.subrange(pos as int, n as int),
                c,
            ),
        decreases n - pos,
    {
        let suffix = s.substring_char(pos, n);
        let ghost old_parts = parts@;
        match find_char(suffix, c) {
            None => {
                parts.push(suffix.to_owned());
                proof {
                    lemma_views_push(old_parts, parts@.last());
                    assert(split_char_rec(suffix@, c) =~= seq![suffix@]);
                    assert(views_of(parts@) =~= split_char_rec(s@, c));
                }
                return parts;
            },
            Some(i) => {
                proof {
                    lemma_find_char_rec(suffix@, c);
                }
                let piece = s.substring_char(pos, pos + i);
                parts.push(piece.to_owned());
                proof {
                    lemma_views_push(old_parts, parts@.last());
                    assert(piece@ =~= suffix@.take(i as int));
                    assert(suffix@.subrange(i + 1, suffix@.len() as int) =~= s@.subrange(
                        pos + i + 1,
                        n as int,
                    ));
                    assert(views_of(parts@) + split_char_rec(
                        s@.subrange(pos + i + 1, n as int),
                        c,
                    ) =~= split_char_rec(s@, c));
                }
                pos = pos + i + 1;
            },
        }
    }
}

/// The pieces of `s` between occurrences of the run `p`, in order; `s`
/// itself when `p` is absent or empty.
pub open spec fn split_sub_rec(s: Seq<char>, p: Seq<char>) -> Seq<Seq<char>>
    decreases s.len(),
    via split_sub_rec_dec
{
    if p.len() == 0 {
        seq![s]
    } else {
        let i = find_sub_rec(s, p);
        if i < 0 {
            seq![s]
        } else {
            seq![s.take(i)] + split_sub_rec(s.subrange(i + p.len(), s.len() as int), p)
        }
    }
}

#[via_fn]
proof fn split_sub_rec_dec(s: Seq<char>, p: Seq<char>) {
    if p.len() > 0 {
        lemma_find_sub_rec(s, p);
    }
}

/// Split `s` at every occurrence of the separator `sep`.
pub fn split_sub(s: &str, sep: &str) -> (r: Vec<String>)
    requires
        sep@.len() > 0,
    ensures
        views_of(r@) == split_sub_rec(s@, sep@),
{
    let n: usize = s.unicode_len();
    let m: usize = sep.unicode_len();
    let mut parts: Vec<String> = Vec::new();
    let mut pos: usize = 0;
    proof {
        assert(s@.subrange(0, n as int) =~= s@);
        assert(views_of(parts@) + split_sub_rec(s@, sep@) =~= split_sub_rec(s@, sep@));
    }
    loop
        invariant
            n == s@.len(),
            m == sep@.len(),
            m > 0,
            0 <= pos <= n,
            split_sub_rec(s@, sep@) == views_of(parts@) + split_sub_rec(
                s@.subrange(pos as int, n as int),
                sep@,
            ),
        decreases n - pos,
    {
        let suffix = s.substring_char(pos, n);
        let ghost old_parts = parts@;
        match find_sub(suffix, sep) {
            None => {
                parts.push(suffix.to_owned());
                proof {
                    lemma_views_push(old_parts, parts@.last());
                    assert(split_sub_rec(suffix@, sep@) =~= seq![suffix@]);
                    assert(views_of(parts@) =~= split_sub_rec(s@, sep@));
                }
                return parts;
            },
            Some(i) => {
                proof {
                    lemma_find_sub_rec(suffix@, sep@);
                }
                let piece = s.substring_char(pos, pos + i);
                parts.push(piece.to_owned());
                proof {
                    lemma_views_push(old_parts, parts@.last());
                    assert(piece@ =~= suffix@.take(i as int));
                    assert(suffix@.subrange(i + m, suffix@.len() as int) =~= s@.subrange(
                        pos + i + m,
                        n as int,
                    ));
                    assert(views_of(parts@) + split_sub_rec(
                        s@.subrange(pos + i + m, n as int),
                        sep@,
                    ) =~= split_sub_rec(s@, sep@));
                }
                pos = pos + i + m;
            },
        }
    }
}

/// The characters that trimming removes: the white-space characters.
pub open spec fn is_space_char(c: char) -> bool {
    c == ' ' || c == '\t' || c == '\n' || c == '\r' || c == '\u{b}' || c == '\u{c}'
        || c == '\u{85}' || c == '\u{a0}' || c == '\u{1680}' || c == '\u{2000}'
        || c == '\u{2001}' || c == '\u{2002}' || c == '\u{2003}' || c == '\u{2004}'
        || c == '\u{2005}' || c == '\u{2006}' || c == '\u{2007}' || c == '\u{2008}'
        || c == '\u{2009}' || c == '\u{200a}' || c == '\u{2028}' || c == '\u{2029}'
        || c == '\u{202f}' || c == '\u{205f}' || c == '\u{3000}'
}

/// Whether `c` is a white-space character.
pub fn is_space(c: char) -> (r: bool)
    ensures
        r == is_space_char(c),
{
    c == ' ' || c == '\t' || c == '\n' || c == '\r' || c == '\u{b}' || c == '\u{c}'
        || c == '\u{85}' || c == '\u{a0}' || c == '\u{1680}' || c == '\u{2000}'
        || c == '\u{2001}' || c == '\u{2002}' || c == '\u{2003}' || c == '\u{2004}'
        || c == '\u{2005}' || c == '\u{2006}' || c == '\u{2007}' || c == '\u{2008}'
        || c == '\u{2009}' || c == '\u{200a}' || c == '\u{2028}' || c == '\u{2029}'
        || c == '\u{202f}' || c == '\u{205f}' || c == '\u{3000}'
}

/// `s` without its leading white space.
pub open spec fn trim_start_rec(s: Seq<char>) -> Seq<char>
    decreases s.len(),
{
    if s.len() > 0 && is_space_char(s[0]) {
        trim_start_rec(s.drop_first())
    } else {
        s
    }
}

/// `s` without its trailing white space.
pub open spec fn trim_end_rec(s: Seq<char>) -> Seq<char>
    decreases s.len(),
{
    if s.len() > 0 && is_space_char(s[s.len() - 1]) {
        trim_end_rec(s.drop_last())
    } else {
        s
    }
}

/// `s` without leading and trailing white space.
pub open spec fn trim_spec(s: Seq<char>) -> Seq<char> {
    trim_end_rec(trim_start_rec(s))
}

proof fn lemma_trim_start_at(s: Seq<char>, i: int)
    requires
        0 <= i <= s.len(),
        forall|j: int| 0 <= j < i ==> is_space_char(s[j]),
        i < s.len() ==> !is_space_char(s[i]),
    ensures
        trim_start_rec(s) == s.subrange(i, s.len() as int),
    decreases i,
{
    if i == 0 {
        assert(s.subrange(0, s.len() as int) =~= s);
    } else {
        let t = s.drop_first();
        lemma_trim_start_at(t, i - 1);
        assert(t.subrange(i - 1, t.len() as int) =~= s.subrange(i, s.len() as int));
    }
}

proof fn lemma_trim_end_at(s: Seq<char>, j: int)
    requires
        0 <= j <= s.len(),
        forall|k: int| j <= k < s.len() ==> is_space_char(s[k]),
        j > 0 ==> !is_space_char(s[j - 1]),
    ensures
        trim_end_rec(s) == s.subrange(0, j),
    decreases s.len() - j,
{
    if j == s.len() {
        assert(s.subrange(0, s.len() as int) =~= s);
    } else {
        let t = s.drop_last();
        lemma_trim_end_at(t, j);
        assert(t.subrange(0, j) =~= s.subrange(0, j));
    }
}

/// `s` with leading and trailing white space removed.
pub fn trim(s: &str) -> (r: String)
    ensures
        r@ == trim_spec(s@),
{
    let n: usize = s.unicode_len();
    let mut i: usize = 0;
    while i < n && is_space(s.get_char(i))
        invariant
            n == s@.len(),
            0 <= i <= n,
            forall|j: int| 0 <= j < i ==> is_space_char(s@[j]),
        decreases n - i,
    {
        i = i + 1;
    }
    let mut j: usize = n;
    while j > i && is_space(s.get_char(j - 1))
        invariant
            n == s@.len(),
            i <= j <= n,
            forall|k: int| j <= k < n ==> is_space_char(s@[k]),
        decreases j,
    {
        j = j - 1;
    }
    proof {
        lemma_trim_start_at(s@, i as int);
        let t = s@.subrange(i as int, n as int);
        if j > i {
            assert(!is_space_char(t[j - i - 1]));
        }
        lemma_trim_end_at(t, j - i);
        assert(t.subrange(0, j - i) =~= s@.subrange(i as int, j as int));
    }
    s.substring_char(i, j).to_owned()
}

/// Whether the views of two strings are equal.
pub fn str_eq(a: &str, b: &str) -> (r: bool)
    ensures
        r == (a@ == b@),
{
    let na: usize = a.unicode_len();
    let nb: usize = b.unicode_len();
    if na != nb {
        return false;
    }
    let mut i: usize = 0;
    while i < na
        invariant
            na == a@.len(),
            na == b@.len(),
            0 <= i <= na,
            forall|j: int| 0 <= j < i ==> a@[j] == b@[j],
        decreases na - i,
    {
        if a.get_char(i) != b.get_char(i) {
            return false;
        }
        i = i + 1;
    }
    proof {
        assert(a@ =~= b@);
    }
    true
}

} // verus!
