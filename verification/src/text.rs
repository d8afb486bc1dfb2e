use vstd::prelude::*;

verus! {

/// `suffix` ends `s`.
pub open spec fn ends_with_seq(s: Seq<char>, suffix: Seq<char>) -> bool {
    suffix.len() <= s.len() && s.subrange(s.len() - suffix.len(), s.len() as int) == suffix
}

/// `pattern` occurs in `s` at position `at`.
pub open spec fn occurs_at(s: Seq<char>, pattern: Seq<char>, at: int) -> bool {
    0 <= at && at + pattern.len() <= s.len() && s.subrange(at, at + pattern.len()) == pattern
}

/// `pattern` occurs somewhere in `s`.
pub open spec fn contains_seq(s: Seq<char>, pattern: Seq<char>) -> bool {
    exists|at: int| occurs_at(s, pattern, at)
}

/// Whether `pattern` occurs in `s` at position `at`.
fn matches_at(s: &str, s_len: usize, pattern: &str, pattern_len: usize, at: usize) -> (r: bool)
    requires
        s_len == s@.len(),
        pattern_len == pattern@.len(),
        at + pattern_len <= s_len,
    ensures
        r == occurs_at(s@, pattern@, at as int),
{
    let mut k: usize = 0;
    while k < pattern_len
        invariant
            s_len == s@.len(),
            pattern_len == pattern@.len(),
            at + pattern_len <= s_len,
            k <= pattern_len,
            forall|q: int| 0 <= q < k ==> s@[at + q] == pattern@[q],
        decreases pattern_len - k,
    {
        if s.get_char(at + k) != pattern.get_char(k) {
            assert(s@.subrange(at as int, at + pattern@.len())[k as int] != pattern@[k as int]);
            return false;
        }
        k += 1;
    }
    assert(s@.subrange(at as int, at + pattern@.len()) =~= pattern@);
    true
}

/// Whether two texts are equal.
pub fn text_equals(a: &str, b: &str) -> (r: bool)
    ensures
        r == (a@ == b@),
{
    let a_len = a.unicode_len();
    let b_len = b.unicode_len();
    if a_len != b_len {
        return false;
    }
    let r = matches_at(a, a_len, b, b_len, 0);
    proof {
        if r {
            assert(a@ =~= a@.subrange(0, b@.len() as int));
        } else {
            assert(a@.subrange(0, b@.len() as int) =~= a@);
        }
    }
    r
}

/// Whether `s` ends with `suffix`.
pub fn text_ends_with(s: &str, suffix: &str) -> (r: bool)
    ensures
        r == ends_with_seq(s@, suffix@),
{
    let s_len = s.unicode_len();
    let suffix_len = suffix.unicode_len();
    if suffix_len > s_len {
        return false;
    }
    matches_at(s, s_len, suffix, suffix_len, s_len - suffix_len)
}

/// Whether `pattern` occurs in `s`.
pub fn text_contains(s: &str, pattern: &str) -> (r: bool)
    ensures
        r == contains_seq(s@, pattern@),
{
    let s_len = s.unicode_len();
    let pattern_len = pattern.unicode_len();
    if pattern_len > s_len {
        return false;
    }
    let last = s_len - pattern_len;
    let mut at: usize = 0;
    while at < last
        invariant
            s_len == s@.len(),
            pattern_len == pattern@.len(),
            last == s_len - pattern_len,
            at <= last,
            forall|q: int| 0 <= q < at ==> !occurs_at(s@, pattern@, q),
        decreases last - at,
    {
        if matches_at(s, s_len, pattern, pattern_len, at) {
            return true;
        }
        at += 1;
    }
    if matches_at(s, s_len, pattern, pattern_len, last) {
        return true;
    }
    proof {
        assert forall|q: int| !occurs_at(s@, pattern@, q) by {
            if 0 <= q && q + pattern@.len() <= s@.len() {
                assert(q <= last);
            }
        }
    }
    false
}

} // verus!
