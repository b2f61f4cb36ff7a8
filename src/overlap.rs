//! Merging two texts along their largest overlap.
//!
//! Of the two inputs the one with fewer characters is the shorter one (the
//! first one when both have the same length). If the shorter one lies wholly
//! inside the longer one, the longer one is the merge. Otherwise the largest
//! bridge length `k`, with `1 <= k < len(shorter)`, is sought at which the
//! last `k` characters of one input are the first `k` of the other, and the
//! two inputs are spliced there so that the shared part appears once. When
//! both directions bridge at that `k`, the shorter input goes first.
use vstd::prelude::*;
use crate::text::{
    chars_of,
    contains_chars,
    ends_with_chars,
    is_prefix,
    is_substring,
    is_suffix,
    lemma_prefix_is_substring,
    lemma_suffix_is_substring,
    starts_with_chars,
};

verus! {

/// The outcome of a merge: the merged text, or the report that the two
/// inputs do not overlap.
#[derive(Debug, PartialEq, Eq)]
pub enum MergeResult {
    Merged(String),
    NoOverlap,
}

impl View for MergeResult {
    type V = Option<Seq<char>>;

    open spec fn view(&self) -> Option<Seq<char>> {
        match self {
            MergeResult::Merged(t) => Some(t@),
            MergeResult::NoOverlap => None,
        }
    }
}

/// The input that plays the shorter part: fewer characters, or the first on a tie.
pub open spec fn shorter_of(a: Seq<char>, b: Seq<char>) -> Seq<char> {
    if a.len() <= b.len() {
        a
    } else {
        b
    }
}

/// The input that plays the longer part.
pub open spec fn longer_of(a: Seq<char>, b: Seq<char>) -> Seq<char> {
    if a.len() <= b.len() {
        b
    } else {
        a
    }
}

/// The last `k` characters of `x` are the first `k` characters of `y`.
pub open spec fn glues(x: Seq<char>, y: Seq<char>, k: int) -> bool {
    0 <= k <= x.len() && k <= y.len() && x.skip(x.len() - k) == y.take(k)
}

/// `s` and `l` overlap by `k` characters across a boundary, in either direction.
pub open spec fn bridges(s: Seq<char>, l: Seq<char>, k: int) -> bool {
    glues(s, l, k) || glues(l, s, k)
}

/// The largest `j` with `1 <= j <= k` at which `s` and `l` bridge, or 0 if none does.
pub open spec fn largest_bridge(s: Seq<char>, l: Seq<char>, k: int) -> int
    decreases k,
{
    if k <= 0 {
        0
    } else if bridges(s, l, k) {
        k
    } else {
        largest_bridge(s, l, k - 1)
    }
}

/// `s` and `l` spliced at a bridge of length `k`: the head of `s` before `l`
/// when the tail of `s` glues to the head of `l`, otherwise `l` followed by the
/// rest of `s`.
pub open spec fn splice(s: Seq<char>, l: Seq<char>, k: int) -> Seq<char> {
    if glues(s, l, k) {
        s.take(s.len() - k) + l
    } else {
        l + s.skip(k)
    }
}

/// The merge of `a` and `b`, or `None` when they do not overlap.
pub open spec fn merged(a: Seq<char>, b: Seq<char>) -> Option<Seq<char>> {
    let s = shorter_of(a, b);
    let l = longer_of(a, b);
    if is_substring(s, l) {
        Some(l)
    } else {
        let k = largest_bridge(s, l, s.len() - 1);
        if k > 0 {
            Some(splice(s, l, k))
        } else {
            None
        }
    }
}

/// One immediate overlap test. `x` and `y` are ordered by length into a
/// shorter and a longer piece. Identical pieces give the longer piece,
/// whatever `prefix` and `suffix` are. Otherwise the shorter piece is what is
/// left of some text once `prefix` was cut from its front and `suffix` from
/// its back. If the longer piece starts with the shorter one and nothing was
/// cut from the back, the text glues before the longer piece:
/// `prefix + longer`. If it ends with the shorter one and nothing was cut from
/// the front, it glues after it: `longer + suffix`. If nothing was cut at all,
/// the shorter piece anywhere in the longer one gives the longer one.
pub open spec fn immediate_overlap(
    x: Seq<char>,
    y: Seq<char>,
    prefix: Seq<char>,
    suffix: Seq<char>,
) -> Option<Seq<char>> {
    let s = shorter_of(x, y);
    let l = longer_of(x, y);
    if s == l {
        Some(l)
    } else if suffix.len() == 0 && is_prefix(s, l) {
        Some(prefix + l)
    } else if prefix.len() == 0 && is_suffix(s, l) {
        Some(l + suffix)
    } else if prefix.len() == 0 && suffix.len() == 0 && is_substring(s, l) {
        Some(l)
    } else {
        None
    }
}

/// The immediate overlap test of `immediate_overlap`, on text.
pub fn check_for_immediate_overlap(
    shorter_string: &str,
    longer_string: &str,
    prefix: &str,
    suffix: &str,
) -> (r: Option<String>)
    ensures
        r.deep_view() == immediate_overlap(shorter_string@, longer_string@, prefix@, suffix@),
{
    let first = chars_of(shorter_string);
    let second = chars_of(longer_string);
    let (short_chars, long_chars, long_text) = if first.len() <= second.len() {
        (first, second, longer_string)
    } else {
        (second, first, shorter_string)
    };
    let prefix_len = prefix.unicode_len();
    let suffix_len = suffix.unicode_len();
    if short_chars.len() == long_chars.len() && starts_with_chars(
        long_chars.as_slice(),
        short_chars.as_slice(),
    ) {
        assert(long_chars@.take(long_chars@.len() as int) =~= long_chars@);
        return Some(String::from_str(long_text));
    }
    assert(short_chars@ == long_chars@ ==> long_chars@.take(long_chars@.len() as int)
        =~= short_chars@);
    if suffix_len == 0 && starts_with_chars(long_chars.as_slice(), short_chars.as_slice()) {
        let mut r = String::from_str(prefix);
        r.append(long_text);
        Some(r)
    } else if prefix_len == 0 && ends_with_chars(long_chars.as_slice(), short_chars.as_slice()) {
        let mut r = String::from_str(long_text);
        r.append(suffix);
        Some(r)
    } else if prefix_len == 0 && suffix_len == 0 && contains_chars(
        long_chars.as_slice(),
        short_chars.as_slice(),
    ) {
        Some(String::from_str(long_text))
    } else {
        None
    }
}

/// `largest_bridge` lands on the largest bridge below its bound.
pub proof fn lemma_largest_bridge_is(s: Seq<char>, l: Seq<char>, m: int, k: int)
    requires
        1 <= k <= m,
        bridges(s, l, k),
        forall|j: int| k < j <= m ==> !bridges(s, l, j),
    ensures
        largest_bridge(s, l, m) == k,
    decreases m - k,
{
    if m > k {
        lemma_largest_bridge_is(s, l, m - 1, k);
    }
}

/// Without any bridge up to its bound, `largest_bridge` is 0.
pub proof fn lemma_largest_bridge_none(s: Seq<char>, l: Seq<char>, m: int)
    requires
        forall|j: int| 1 <= j <= m ==> !bridges(s, l, j),
    ensures
        largest_bridge(s, l, m) == 0,
    decreases m,
{
    if m > 0 {
        lemma_largest_bridge_none(s, l, m - 1);
    }
}

/// Merges `a` and `b` along their largest overlap.
pub fn merge(a: &str, b: &str) -> (r: MergeResult)
    ensures
        r@ == merged(a@, b@),
{
    let a_len = a.unicode_len();
    let b_len = b.unicode_len();
    let (shorter, longer, n) = if a_len <= b_len {
        (a, b, a_len)
    } else {
        (b, a, b_len)
    };
    let ghost s = shorter@;
    let ghost l = longer@;
    assert(s == shorter_of(a@, b@) && l == longer_of(a@, b@));
    proof {
        reveal_strlit("");
    }
    // The shorter text lies wholly inside the longer one.
    match check_for_immediate_overlap(shorter, longer, "", "") {
        Some(t) => {
            proof {
                if s == l {
                    assert(l.take(l.len() as int) =~= l);
                }
                if is_prefix(s, l) {
                    lemma_prefix_is_substring(s, l);
                } else if is_suffix(s, l) {
                    lemma_suffix_is_substring(s, l);
                }
                assert(Seq::<char>::empty() + l =~= l);
                assert(l + Seq::<char>::empty() =~= l);
            }
            return MergeResult::Merged(t);
        },
        None => {},
    }
    proof {
        if n == 0 {
            assert(l.take(0) =~= s);
        }
    }
    // Bridge lengths from n - 1 down to 1; the first that bridges is the largest.
    let mut k: usize = n;
    while k > 1
        invariant
            1 <= k <= n,
            n == s.len(),
            s.len() <= l.len(),
            shorter@ == s,
            longer@ == l,
            !is_substring(s, l),
            forall|j: int| k <= j < n ==> !bridges(s, l, j),
            s == shorter_of(a@, b@),
            l == longer_of(a@, b@),
        decreases k,
    {
        k -= 1;
        proof {
            reveal_strlit("");
        }
        let head = shorter.substring_char(0, n - k);
        let tail = shorter.substring_char(n - k, n);
        assert(head@ =~= s.take(n - k));
        assert(tail@ =~= s.skip(n - k));
        // The tail of the shorter text glues to the head of the longer one;
        // tried first, so that it wins when both directions glue here.
        match check_for_immediate_overlap(tail, longer, head, "") {
            Some(t) => {
                proof {
                    assert(glues(s, l, k as int));
                    lemma_largest_bridge_is(s, l, n - 1, k as int);
                }
                return MergeResult::Merged(t);
            },
            None => {},
        }
        let front = shorter.substring_char(0, k);
        let rest = shorter.substring_char(k, n);
        assert(front@ =~= s.take(k as int));
        assert(rest@ =~= s.skip(k as int));
        // The tail of the longer text glues to the head of the shorter one.
        match check_for_immediate_overlap(front, longer, "", rest) {
            Some(t) => {
                proof {
                    assert(!glues(s, l, k as int));
                    assert(glues(l, s, k as int));
                    lemma_largest_bridge_is(s, l, n - 1, k as int);
                }
                return MergeResult::Merged(t);
            },
            None => {},
        }
        assert(!bridges(s, l, k as int));
    }
    proof {
        lemma_largest_bridge_none(s, l, n - 1);
    }
    MergeResult::NoOverlap
}

/// The merge of `a` and `b` as text, with no overlap written as the empty
/// text: what a caller that prints the result prints.
pub fn overlap_merge_two_string(a: &str, b: &str) -> (r: String)
    ensures
        r@ == match merged(a@, b@) {
            Some(t) => t,
            None => Seq::<char>::empty(),
        },
{
    match merge(a, b) {
        MergeResult::Merged(t) => t,
        MergeResult::NoOverlap => String::new(),
    }
}

} // verus!
