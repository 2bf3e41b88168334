//! Searching a text for a pattern.

use vstd::prelude::*;

verus! {

/// Whether two texts are the same.
pub fn same_text(a: &str, b: &str) -> (same: bool)
    ensures
        same == (a@ == b@),
{
    let left = String::from_str(a);
    let right = String::from_str(b);
    left == right
}

/// Whether `pattern` stands in `text` at the place `at`.
pub open spec fn occurs_at(text: Seq<char>, pattern: Seq<char>, at: int) -> bool {
    &&& 0 <= at
    &&& at + pattern.len() <= text.len()
    &&& text.subrange(at, at + pattern.len()) == pattern
}

/// Whether `pattern` stands somewhere in `text`.
pub open spec fn occurs_in(text: Seq<char>, pattern: Seq<char>) -> bool {
    exists|at: int| occurs_at(text, pattern, at)
}

/// Whether `pattern` stands somewhere in `text`.
pub fn contains_text(text: &str, pattern: &str) -> (found: bool)
    ensures
        found == occurs_in(text@, pattern@),
{
    let n = text.unicode_len();
    let m = pattern.unicode_len();
    if m > n {
        return false;
    }
    let mut at: usize = 0;
    while at <= n - m
        invariant
            n == text@.len(),
            m == pattern@.len(),
            m <= n,
            at <= n - m + 1,
            forall|k: int| 0 <= k < at ==> !occurs_at(text@, pattern@, k),
        decreases n - m + 1 - at,
    {
        let mut j: usize = 0;
        let mut matching = true;
        while matching && j < m
            invariant
                n == text@.len(),
                m == pattern@.len(),
                at + m <= n,
                j <= m,
                matching ==> forall|k: int| 0 <= k < j ==> text@[at + k] == pattern@[k],
                !matching ==> j < m && text@[at + j] != pattern@[j as int],
            decreases m - j + (if matching { 1int } else { 0int }),
        {
            if text.get_char(at + j) == pattern.get_char(j) {
                j += 1;
            } else {
                matching = false;
            }
        }
        if matching {
            assert(text@.subrange(at as int, at + m) =~= pattern@);
            assert(occurs_at(text@, pattern@, at as int));
            return true;
        }
        assert(!occurs_at(text@, pattern@, at as int)) by {
            if text@.subrange(at as int, at + m) == pattern@ {
                assert(text@.subrange(at as int, at + m)[j as int] == text@[at + j]);
            }
        }
        at += 1;
    }
    false
}

} // verus!
