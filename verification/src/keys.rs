//! Parsing of composite lockfile keys: package-table keys carry
//! `name@version` with an optional underscore-delimited peer suffix, and
//! snapshot keys carry `name@version` with optional parenthesized
//! annotations. Scoped names contain their own, earlier `@`.

use vstd::prelude::*;
use crate::strutil::{
    before_char, find_sub_rec, has_sub, lemma_find_char_rec, lemma_find_sub_rec,
    lemma_rfind_char_rec, find_sub, rfind_char, rfind_char_rec, take_before_char,
};

verus! {

/// The version encoded in a package-table key for the package called
/// `name`: what follows the first `name@` (or `/name@`) separator, cut at
/// the first underscore; empty when neither separator occurs.
pub open spec fn key_version_spec(key: Seq<char>, name: Seq<char>) -> Seq<char> {
    let p1 = name.push('@');
    let p2 = seq!['/'] + p1;
    if has_sub(key, p1) {
        let start = find_sub_rec(key, p1) + p1.len();
        before_char(key.subrange(start, key.len() as int), '_')
    } else if has_sub(key, p2) {
        let start = find_sub_rec(key, p2) + p2.len();
        before_char(key.subrange(start, key.len() as int), '_')
    } else {
        Seq::empty()
    }
}

/// The version for `package_name` out of a package-table key, for example
/// `"4.8.3"` out of `"@ant-design/icons@4.8.3"`. Empty when the key does
/// not contain the package name.
pub fn extract_version_from_key(key: &str, package_name: &str) -> (r: String)
    ensures
        r@ == key_version_spec(key@, package_name@),
{
    let mut p1 = package_name.to_owned();
    p1.append("@");
    proof {
        reveal_strlit("@");
        assert(p1@ =~= package_name@.push('@'));
    }
    let mut p2 = String::from_str("/");
    p2.append(p1.as_str());
    proof {
        reveal_strlit("/");
        assert(p2@ =~= seq!['/'] + package_name@.push('@'));
    }
    let n: usize = key.unicode_len();
    match find_sub(key, p1.as_str()) {
        Some(pos) => {
            proof {
                lemma_find_sub_rec(key@, p1@);
            }
            let start = pos + p1.unicode_len();
            let rest = key.substring_char(start, n);
            take_before_char(rest, '_')
        },
        None => {
            match find_sub(key, p2.as_str()) {
                Some(pos) => {
                    proof {
                        lemma_find_sub_rec(key@, p2@);
                    }
                    let start = pos + p2.unicode_len();
                    let rest = key.substring_char(start, n);
                    take_before_char(rest, '_')
                },
                None => String::new(),
            }
        },
    }
}

/// The package name encoded in a snapshot key: everything before the last
/// `@` of the annotation-free head (annotations hold their own `@`s and
/// must not count), cut at a parenthesis if one remains; when no such `@`
/// exists, the key itself cut at the first parenthesis.
pub open spec fn snapshot_name_spec(key: Seq<char>) -> Seq<char> {
    let head = before_char(key, '(');
    let a = rfind_char_rec(head, '@');
    if a >= 0 {
        before_char(key.take(a), '(')
    } else {
        before_char(key, '(')
    }
}

/// The package name out of a snapshot key, for example
/// `"@ahooksjs/use-request"` out of `"@ahooksjs/use-request@2.8.15(react@18.3.1)"`.
pub fn extract_package_name_from_snapshot_key(key: &str) -> (r: String)
    ensures
        r@ == snapshot_name_spec(key@),
{
    let head = take_before_char(key, '(');
    proof {
        lemma_find_char_rec(key@, '(');
    }
    match rfind_char(head.as_str(), '@') {
        Some(a) => {
            proof {
                lemma_rfind_char_rec(head@, '@');
            }
            let part = key.substring_char(0, a);
            proof {
                assert(part@ =~= key@.take(a as int));
            }
            take_before_char(part, '(')
        },
        None => take_before_char(key, '('),
    }
}

/// The version encoded in a snapshot key: everything after the last `@`
/// of the annotation-free head, up to the first parenthesis; empty when
/// that head has no `@`.
pub open spec fn snapshot_version_spec(key: Seq<char>) -> Seq<char> {
    let head = before_char(key, '(');
    let a = rfind_char_rec(head, '@');
    if a >= 0 {
        head.subrange(a + 1, head.len() as int)
    } else {
        Seq::empty()
    }
}

/// The version out of a snapshot key, for example `"2.8.15"` out of
/// `"@ahooksjs/use-request@2.8.15(react@18.3.1)"`.
pub fn extract_version_from_snapshot_key(key: &str) -> (r: String)
    ensures
        r@ == snapshot_version_spec(key@),
{
    let head = take_before_char(key, '(');
    let hn: usize = head.as_str().unicode_len();
    match rfind_char(head.as_str(), '@') {
        Some(a) => {
            proof {
                lemma_rfind_char_rec(head@, '@');
            }
            head.as_str().substring_char(a + 1, hn).to_owned()
        },
        None => String::new(),
    }
}

} // verus!
