use vstd::prelude::*;

verus! {

/// Index of the first element of `s` that satisfies `p`, or -1 when none does:
/// what `iter().position(p)` (and, by that index, `iter().find(p)`) returns.
pub open spec fn first_match<A>(s: Seq<A>, p: spec_fn(A) -> bool) -> int {
    if exists|i: int| 0 <= i < s.len() && p(s[i]) && forall|j: int| 0 <= j < i ==> !p(s[j]) {
        choose|i: int| 0 <= i < s.len() && p(s[i]) && forall|j: int| 0 <= j < i ==> !p(s[j])
    } else {
        -1
    }
}

/// The first match is the one index that matches with no match before it.
pub proof fn lemma_first_match_at<A>(s: Seq<A>, p: spec_fn(A) -> bool, i: int)
    requires
        0 <= i < s.len(),
        p(s[i]),
        forall|j: int| 0 <= j < i ==> !p(s[j]),
    ensures
        first_match(s, p) == i,
{
    let k = first_match(s, p);
    assert(0 <= k < s.len() && p(s[k]) && forall|j: int| 0 <= j < k ==> !p(s[j]));
    if k < i {
        assert(!p(s[k]));
    } else if k > i {
        assert(!p(s[i]));
    }
}

/// With no element matching, the first match is -1.
pub proof fn lemma_first_match_none<A>(s: Seq<A>, p: spec_fn(A) -> bool)
    requires
        forall|j: int| 0 <= j < s.len() ==> !p(s[j]),
    ensures
        first_match(s, p) == -1,
{
}

/// What `first_match` returns, spelled out.
pub proof fn lemma_first_match_props<A>(s: Seq<A>, p: spec_fn(A) -> bool)
    ensures
        -1 <= first_match(s, p) < s.len(),
        first_match(s, p) == -1 <==> forall|j: int| 0 <= j < s.len() ==> !p(s[j]),
        first_match(s, p) >= 0 ==> p(s[first_match(s, p)]) && forall|j: int|
            0 <= j < first_match(s, p) ==> !p(s[j]),
{
    if exists|i: int| 0 <= i < s.len() && p(s[i]) {
        let i0 = choose|i: int| 0 <= i < s.len() && p(s[i]);
        lemma_least_match(s, p, i0);
    }
}

/// Appending an element that does not match leaves the first match where it was.
pub proof fn lemma_first_match_push<A>(s: Seq<A>, p: spec_fn(A) -> bool, x: A)
    requires
        !p(x),
    ensures
        first_match(s.push(x), p) == first_match(s, p),
{
    lemma_first_match_props(s, p);
    let k = first_match(s, p);
    if k >= 0 {
        assert(s.push(x)[k] == s[k]);
        assert forall|j: int| 0 <= j < k implies !p(s.push(x)[j]) by {
            assert(s.push(x)[j] == s[j]);
        }
        lemma_first_match_at(s.push(x), p, k);
    } else {
        assert forall|j: int| 0 <= j < s.push(x).len() implies !p(s.push(x)[j]) by {
            if j < s.len() {
                assert(s.push(x)[j] == s[j]);
            }
        }
        lemma_first_match_none(s.push(x), p);
    }
}

proof fn lemma_least_match<A>(s: Seq<A>, p: spec_fn(A) -> bool, i: int)
    requires
        0 <= i < s.len(),
        p(s[i]),
    ensures
        exists|k: int| 0 <= k < s.len() && p(s[k]) && forall|j: int| 0 <= j < k ==> !p(s[j]),
    decreases i,
{
    if exists|j: int| 0 <= j < i && p(s[j]) {
        let j0 = choose|j: int| 0 <= j < i && p(s[j]);
        lemma_least_match(s, p, j0);
    } else {
        assert(forall|j: int| 0 <= j < i ==> !p(s[j]));
    }
}

} // verus!
