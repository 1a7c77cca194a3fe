//! Small verified helpers on user-supplied text.

use vstd::prelude::*;

verus! {

/// Character-for-character equality of two strings.
pub fn str_eq(a: &str, b: &str) -> (r: bool)
    ensures
        r == (a@ == b@),
{
    let n = a.unicode_len();
    let m = b.unicode_len();
    if n != m {
        return false;
    }
    let mut i: usize = 0;
    while i < n
        invariant
            n == a@.len(),
            n == b@.len(),
            0 <= i <= n,
            forall|k: int| 0 <= k < i ==> a@[k] == b@[k],
        decreases n - i,
    {
        if a.get_char(i) != b.get_char(i) {
            return false;
        }
        i = i + 1;
    }
    proof {
        assert(a@ =~= b@);
    }
    true
}

/// `s` ends with `suffix`.
pub fn str_ends_with(s: &str, suffix: &str) -> (r: bool)
    ensures
        r == suffix@.is_suffix_of(s@),
{
    let n = s.unicode_len();
    let m = suffix.unicode_len();
    if m > n {
        return false;
    }
    let mut i: usize = 0;
    while i < m
        invariant
            m <= n,
            n == s@.len(),
            m == suffix@.len(),
            0 <= i <= m,
            forall|k: int| 0 <= k < i ==> s@[n - m + k] == suffix@[k],
        decreases m - i,
    {
        if s.get_char(n - m + i) != suffix.get_char(i) {
            proof {
                if suffix@.is_suffix_of(s@) {
                    assert(s@.subrange((n - m) as int, n as int)[i as int] == s@[n - m + i]);
                }
            }
            return false;
        }
        i = i + 1;
    }
    proof {
        assert(suffix@ =~= s@.subrange((n - m) as int, n as int));
    }
    true
}

/// User-submitted free text, kept only when non-empty: an empty submission
/// means "none".
pub fn nonempty_text(text: String) -> (r: Option<String>)
    ensures
        r == (if text@.len() == 0 {
            Option::<String>::None
        } else {
            Option::Some(text)
        }),
{
    if text.as_str().is_empty() {
        None
    } else {
        Some(text)
    }
}

} // verus!
