//! Character-level views of text: prefix, suffix and substring relations on
//! sequences of Unicode scalar values, and executable tests of them.
//!
//! All positions and lengths here count characters, never bytes, so no test
//! can look at half of a multi-byte character.
use vstd::prelude::*;

verus! {

/// `p` is the start of `s`.
pub open spec fn is_prefix(p: Seq<char>, s: Seq<char>) -> bool {
    p.len() <= s.len() && s.take(p.len() as int) == p
}

/// `p` is the end of `s`.
pub open spec fn is_suffix(p: Seq<char>, s: Seq<char>) -> bool {
    p.len() <= s.len() && s.skip(s.len() - p.len()) == p
}

/// `p` stands in `s` from position `i` on.
pub open spec fn occurs_at(p: Seq<char>, s: Seq<char>, i: int) -> bool {
    0 <= i && i + p.len() <= s.len() && s.subrange(i, i + p.len()) == p
}

/// `p` is a contiguous part of `s`.
pub open spec fn is_substring(p: Seq<char>, s: Seq<char>) -> bool {
    exists|i: int| occurs_at(p, s, i)
}

/// A prefix occurs at the start.
pub proof fn lemma_prefix_is_substring(p: Seq<char>, s: Seq<char>)
    requires
        is_prefix(p, s),
    ensures
        is_substring(p, s),
{
    assert(s.subrange(0, p.len() as int) == s.take(p.len() as int));
    assert(occurs_at(p, s, 0));
}

/// A suffix occurs at its own offset from the end.
pub proof fn lemma_suffix_is_substring(p: Seq<char>, s: Seq<char>)
    requires
        is_suffix(p, s),
    ensures
        is_substring(p, s),
{
    let i = s.len() - p.len();
    assert(s.subrange(i, i + p.len()) == s.skip(i));
    assert(occurs_at(p, s, i));
}

/// The characters of `s`, in order, one element per Unicode scalar value.
pub fn chars_of(s: &str) -> (v: Vec<char>)
    ensures
        v@ == s@,
{
    let mut v: Vec<char> = Vec::new();
    for c in iter: s.chars()
        invariant
            v@ == iter.seq().take(iter.index() as int),
    {
        v.push(c);
    }
    assert(v@ =~= s@);
    v
}

/// Whether `p` stands in `s` from position `at` on.
pub fn matches_at(s: &[char], p: &[char], at: usize) -> (r: bool)
    ensures
        r == occurs_at(p@, s@, at as int),
{
    if at > s.len() || p.len() > s.len() - at {
        return false;
    }
    let mut i: usize = 0;
    while i < p.len()
        invariant
            i <= p.len(),
            at + p.len() <= s.len(),
            forall|j: int| 0 <= j < i ==> s@[at + j] == p@[j],
        decreases p.len() - i,
    {
        if s[at + i] != p[i] {
            assert(s@.subrange(at as int, at + p.len())[i as int] != p@[i as int]);
            return false;
        }
        i += 1;
    }
    assert(s@.subrange(at as int, at + p.len()) =~= p@);
    true
}

/// Whether `s` starts with all of `p`.
pub fn starts_with_chars(s: &[char], p: &[char]) -> (r: bool)
    ensures
        r == is_prefix(p@, s@),
{
    let r = matches_at(s, p, 0);
    assert(s@.subrange(0, p@.len() as int) =~= s@.take(p@.len() as int));
    r
}

/// Whether `s` ends with all of `p`.
pub fn ends_with_chars(s: &[char], p: &[char]) -> (r: bool)
    ensures
        r == is_suffix(p@, s@),
{
    if p.len() > s.len() {
        return false;
    }
    let at = s.len() - p.len();
    let r = matches_at(s, p, at);
    assert(s@.subrange(at as int, s@.len() as int) =~= s@.skip(at as int));
    r
}

/// Whether `p` stands anywhere in `s`, tried from the left.
pub fn contains_chars(s: &[char], p: &[char]) -> (r: bool)
    ensures
        r == is_substring(p@, s@),
{
    if p.len() > s.len() {
        return false;
    }
    let last = s.len() - p.len();
    let mut at: usize = 0;
    while at < last
        invariant
            last == s.len() - p.len(),
            at <= last,
            forall|j: int| 0 <= j < at ==> !occurs_at(p@, s@, j),
        decreases last - at,
    {
        if matches_at(s, p, at) {
            return true;
        }
        at += 1;
    }
    if matches_at(s, p, last) {
        return true;
    }
    assert forall|j: int| !occurs_at(p@, s@, j) by {
        if 0 <= j && j + p@.len() <= s@.len() {
            assert(j <= at);
        }
    }
    false
}

} // verus!
