//! Laws of the merge, proved over its model `merged`.
use vstd::prelude::*;
use crate::overlap::{
    bridges,
    glues,
    largest_bridge,
    lemma_largest_bridge_is,
    longer_of,
    merged,
    shorter_of,
    splice,
};
use crate::text::{is_substring, occurs_at};

verus! {

/// Text that lies inside the other of the same length is that text.
proof fn lemma_same_length_substring(a: Seq<char>, b: Seq<char>)
    requires
        a.len() == b.len(),
        is_substring(a, b),
    ensures
        a == b,
{
    let i = choose|i: int| occurs_at(a, b, i);
    assert(i == 0);
    assert(b.subrange(0, b.len() as int) =~= b);
}

/// Text merged with itself gives itself.
pub proof fn merge_identity(s: Seq<char>)
    ensures
        merged(s, s) == Some(s),
{
    assert(s.subrange(0, s.len() as int) =~= s);
    assert(occurs_at(s, s, 0));
}

/// Text that lies inside the other input merges into that other input.
pub proof fn merge_containment(a: Seq<char>, b: Seq<char>)
    requires
        is_substring(a, b),
    ensures
        merged(a, b) == Some(b),
{
    let i = choose|i: int| occurs_at(a, b, i);
    assert(a.len() <= b.len());
}

/// The empty text merges into the other input.
pub proof fn merge_empty(x: Seq<char>)
    ensures
        merged(Seq::<char>::empty(), x) == Some(x),
        merged(Seq::<char>::empty(), Seq::<char>::empty()) == Some(Seq::<char>::empty()),
{
    assert(x.subrange(0, 0) =~= Seq::<char>::empty());
    assert(occurs_at(Seq::<char>::empty(), x, 0));
    merge_identity(Seq::<char>::empty());
}

/// `largest_bridge` lies within its bound, bridges when it is not 0, and no
/// larger length up to the bound bridges.
pub proof fn largest_bridge_is_largest(s: Seq<char>, l: Seq<char>, m: int)
    ensures
        0 <= largest_bridge(s, l, m),
        m >= 0 ==> largest_bridge(s, l, m) <= m,
        largest_bridge(s, l, m) > 0 ==> bridges(s, l, largest_bridge(s, l, m)),
        forall|j: int| largest_bridge(s, l, m) < j <= m ==> !bridges(s, l, j),
    decreases m,
{
    if m > 0 && !bridges(s, l, m) {
        largest_bridge_is_largest(s, l, m - 1);
    }
}

/// When neither input lies inside the other, the merge splices them at the
/// largest bridge length below the shorter input's length, and there is no
/// merge exactly when no length in that range bridges. The merge then has
/// the length of both inputs less the shared part.
pub proof fn merge_takes_largest_bridge(a: Seq<char>, b: Seq<char>)
    requires
        !is_substring(shorter_of(a, b), longer_of(a, b)),
    ensures
        ({
            let s = shorter_of(a, b);
            let l = longer_of(a, b);
            match merged(a, b) {
                Some(t) => exists|k: int|
                    1 <= k < s.len() && #[trigger] bridges(s, l, k) && t == splice(s, l, k)
                        && t.len() == s.len() + l.len() - k
                        && forall|j: int| k < j < s.len() ==> !bridges(s, l, j),
                None => forall|k: int| 1 <= k < s.len() ==> !bridges(s, l, k),
            }
        }),
{
    let s = shorter_of(a, b);
    let l = longer_of(a, b);
    let k = largest_bridge(s, l, s.len() - 1);
    largest_bridge_is_largest(s, l, s.len() - 1);
    if k > 0 {
        assert(bridges(s, l, k));
    }
}

/// The merge holds each input as a contiguous part.
pub proof fn merge_contains_both(a: Seq<char>, b: Seq<char>)
    requires
        merged(a, b) is Some,
    ensures
        is_substring(a, merged(a, b)->0),
        is_substring(b, merged(a, b)->0),
{
    let s = shorter_of(a, b);
    let l = longer_of(a, b);
    let t = merged(a, b)->0;
    if is_substring(s, l) {
        assert(t == l);
        assert(l.subrange(0, l.len() as int) =~= l);
        assert(occurs_at(l, t, 0));
    } else {
        let k = largest_bridge(s, l, s.len() - 1);
        largest_bridge_is_largest(s, l, s.len() - 1);
        if glues(s, l, k) {
            // t == s.take(n - k) + l, and s == s.take(n - k) + l.take(k)
            let h = s.len() - k;
            assert(t.subrange(h, h + l.len()) =~= l);
            assert(occurs_at(l, t, h));
            assert(t.subrange(0, s.len() as int) =~= s) by {
                assert forall|i: int| 0 <= i < s.len() implies t.subrange(0, s.len() as int)[i]
                    == s[i] by {
                    if i >= h {
                        assert(s.skip(h)[i - h] == l.take(k)[i - h]);
                    }
                }
            }
            assert(occurs_at(s, t, 0));
        } else {
            // t == l + s.skip(k), and s == l.skip(|l| - k) + s.skip(k)
            let h = l.len() - k;
            assert(t.subrange(0, l.len() as int) =~= l);
            assert(occurs_at(l, t, 0));
            assert(t.subrange(h, h + s.len()) =~= s) by {
                assert forall|i: int| 0 <= i < s.len() implies t.subrange(h, h + s.len())[i]
                    == s[i] by {
                    if i < k {
                        assert(l.skip(h)[i] == s.take(k)[i]);
                    }
                }
            }
            assert(occurs_at(s, t, h));
        }
    }
}

/// Bridging does not depend on which input is named first.
proof fn lemma_largest_bridge_symmetric(a: Seq<char>, b: Seq<char>, m: int)
    ensures
        largest_bridge(a, b, m) == largest_bridge(b, a, m),
    decreases m,
{
    if m > 0 {
        lemma_largest_bridge_symmetric(a, b, m - 1);
    }
}

/// Where the tail of `x` glues to the head of `y`, writing the head of `x`
/// before `y` and writing `x` before the rest of `y` give the same text.
proof fn lemma_glued_forms_agree(x: Seq<char>, y: Seq<char>, k: int)
    requires
        glues(x, y, k),
    ensures
        x.take(x.len() - k) + y == x + y.skip(k),
{
    let h = x.len() - k;
    assert forall|i: int| h <= i < x.len() implies x[i] == y[i - h] by {
        assert(x.skip(h)[i - h] == y.take(k)[i - h]);
    }
    assert(x.take(h) + y =~= x + y.skip(k));
}

/// Two inputs of the same length, neither inside the other, that bridge in
/// both directions at their largest bridge length: the one case where the
/// order of the arguments picks which of two merges is made.
pub open spec fn two_way_tie(a: Seq<char>, b: Seq<char>) -> bool {
    let k = largest_bridge(a, b, a.len() - 1);
    &&& a.len() == b.len()
    &&& !is_substring(a, b)
    &&& k > 0
    &&& glues(a, b, k)
    &&& glues(b, a, k)
}

/// Whether the inputs overlap does not depend on their order, and where
/// they do, both orders give merges of the same length.
pub proof fn merge_detection_symmetric(a: Seq<char>, b: Seq<char>)
    ensures
        merged(a, b) is Some <==> merged(b, a) is Some,
        merged(a, b) is Some ==> merged(a, b)->0.len() == merged(b, a)->0.len(),
{
    if a.len() == b.len() {
        if is_substring(a, b) {
            lemma_same_length_substring(a, b);
        } else if is_substring(b, a) {
            lemma_same_length_substring(b, a);
        } else {
            lemma_largest_bridge_symmetric(a, b, a.len() - 1);
            largest_bridge_is_largest(a, b, a.len() - 1);
        }
    }
}

/// Swapping the inputs gives the same merge, except in a two-way tie.
pub proof fn merge_symmetric(a: Seq<char>, b: Seq<char>)
    requires
        !two_way_tie(a, b),
    ensures
        merged(a, b) == merged(b, a),
{
    if a.len() == b.len() {
        if is_substring(a, b) {
            lemma_same_length_substring(a, b);
        } else if is_substring(b, a) {
            lemma_same_length_substring(b, a);
        } else {
            let k = largest_bridge(a, b, a.len() - 1);
            lemma_largest_bridge_symmetric(a, b, a.len() - 1);
            largest_bridge_is_largest(a, b, a.len() - 1);
            if k > 0 {
                if glues(a, b, k) {
                    lemma_glued_forms_agree(a, b, k);
                } else {
                    assert(glues(b, a, k));
                    lemma_glued_forms_agree(b, a, k);
                }
            }
        }
    }
}

} // verus!
