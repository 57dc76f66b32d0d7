//! The first element of a sequence that satisfies a predicate. The world's
//! lookups (by id, by cell, by player number) all return the earliest match
//! in storage order, which makes them deterministic even where several
//! elements would match.

use vstd::prelude::*;

verus! {

/// `i` is the position of the first element of `s` that satisfies `p`.
pub open spec fn is_first<T>(s: Seq<T>, p: spec_fn(T) -> bool, i: int) -> bool {
    &&& 0 <= i < s.len()
    &&& p(s[i])
    &&& forall|j: int| 0 <= j < i ==> !p(#[trigger] s[j])
}

/// Some element of `s` satisfies `p`.
pub open spec fn any_of<T>(s: Seq<T>, p: spec_fn(T) -> bool) -> bool {
    exists|i: int| 0 <= i < s.len() && p(#[trigger] s[i])
}

/// The position of the first element of `s` that satisfies `p`; meaningful
/// when `any_of(s, p)`.
pub open spec fn first_index<T>(s: Seq<T>, p: spec_fn(T) -> bool) -> int {
    choose|i: int| is_first(s, p, i)
}

/// The first element of `s` that satisfies `p`, if there is one.
pub open spec fn first_of<T>(s: Seq<T>, p: spec_fn(T) -> bool) -> Option<T> {
    if any_of(s, p) {
        Some(s[first_index(s, p)])
    } else {
        None
    }
}

/// Where some element matches, `first_index` is the first matching position.
pub proof fn lemma_first_index<T>(s: Seq<T>, p: spec_fn(T) -> bool)
    requires
        any_of(s, p),
    ensures
        is_first(s, p, first_index(s, p)),
    decreases s.len(),
{
    if p(s[0]) {
        assert(is_first(s, p, 0));
    } else {
        let t = s.drop_first();
        let i = choose|i: int| 0 <= i < s.len() && p(#[trigger] s[i]);
        assert(p(t[i - 1]));
        lemma_first_index(t, p);
        let k = first_index(t, p);
        assert forall|j: int| 0 <= j < k + 1 implies !p(#[trigger] s[j]) by {
            if j > 0 {
                assert(s[j] == t[j - 1]);
            }
        }
        assert(is_first(s, p, k + 1));
    }
}

/// A first matching position found by a scan is the one that `first_index`
/// names.
pub proof fn lemma_first_at<T>(s: Seq<T>, p: spec_fn(T) -> bool, i: int)
    requires
        is_first(s, p, i),
    ensures
        any_of(s, p),
        first_index(s, p) == i,
        first_of(s, p) == Some(s[i]),
{
    let k = first_index(s, p);
    assert(is_first(s, p, k));
    if k < i {
        assert(!p(s[k]));
    } else if k > i {
        assert(!p(s[i]));
    }
}

/// Where no element matches, there is no first match.
pub proof fn lemma_none_of<T>(s: Seq<T>, p: spec_fn(T) -> bool)
    requires
        forall|j: int| 0 <= j < s.len() ==> !p(#[trigger] s[j]),
    ensures
        !any_of(s, p),
        first_of(s, p) is None,
{
}

} // verus!
