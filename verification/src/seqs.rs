//! First and last positions in a sequence where a predicate holds.
use vstd::prelude::*;

verus! {

/// The first index of `s` where `p` holds, or -1 when there is none.
pub open spec fn first_where<T>(s: Seq<T>, p: spec_fn(T) -> bool) -> int
    decreases s.len(),
{
    if s.len() == 0 {
        -1
    } else if p(s[0]) {
        0
    } else {
        let r = first_where(s.drop_first(), p);
        if r < 0 {
            -1
        } else {
            r + 1
        }
    }
}

pub proof fn lemma_first_where<T>(s: Seq<T>, p: spec_fn(T) -> bool)
    ensures
        -1 <= first_where(s, p) < s.len(),
        first_where(s, p) >= 0 ==> p(s[first_where(s, p)]),
        forall|j: int| 0 <= j < first_where(s, p) ==> !p(#[trigger] s[j]),
        first_where(s, p) == -1 ==> forall|j: int| 0 <= j < s.len() ==> !p(#[trigger] s[j]),
    decreases s.len(),
{
    if s.len() > 0 {
        lemma_first_where(s.drop_first(), p);
        if !p(s[0]) {
            assert forall|j: int| 0 < j < s.len() implies s[j] == s.drop_first()[j - 1] by {}
        }
    }
}

/// Any index with the defining property of `first_where` is `first_where`.
pub proof fn lemma_first_where_unique<T>(s: Seq<T>, p: spec_fn(T) -> bool, k: int)
    requires
        -1 <= k < s.len(),
        k >= 0 ==> p(s[k]),
        forall|j: int| 0 <= j < k ==> !p(#[trigger] s[j]),
        k == -1 ==> forall|j: int| 0 <= j < s.len() ==> !p(#[trigger] s[j]),
    ensures
        first_where(s, p) == k,
{
    lemma_first_where(s, p);
    let r = first_where(s, p);
    if r >= 0 && k >= 0 {
        if r < k {
            assert(!p(s[r]));
        } else if k < r {
            assert(!p(s[k]));
        }
    } else if r >= 0 {
        assert(!p(s[r]));
    } else if k >= 0 {
        assert(!p(s[k]));
    }
}

/// The last index of `s` where `p` holds, or -1 when there is none.
pub open spec fn last_where<T>(s: Seq<T>, p: spec_fn(T) -> bool) -> int
    decreases s.len(),
{
    if s.len() == 0 {
        -1
    } else if p(s.last()) {
        s.len() - 1
    } else {
        last_where(s.drop_last(), p)
    }
}

pub proof fn lemma_last_where<T>(s: Seq<T>, p: spec_fn(T) -> bool)
    ensures
        -1 <= last_where(s, p) < s.len(),
        last_where(s, p) >= 0 ==> p(s[last_where(s, p)]),
        forall|j: int| last_where(s, p) < j < s.len() ==> !p(#[trigger] s[j]),
    decreases s.len(),
{
    if s.len() > 0 && !p(s.last()) {
        lemma_last_where(s.drop_last(), p);
        assert forall|j: int| last_where(s, p) < j < s.len() implies !p(#[trigger] s[j]) by {
            if j < s.len() - 1 {
                assert(s[j] == s.drop_last()[j]);
            }
        }
    }
}

pub proof fn lemma_last_where_unique<T>(s: Seq<T>, p: spec_fn(T) -> bool, k: int)
    requires
        -1 <= k < s.len(),
        k >= 0 ==> p(s[k]),
        forall|j: int| k < j < s.len() ==> !p(#[trigger] s[j]),
    ensures
        last_where(s, p) == k,
{
    lemma_last_where(s, p);
    let r = last_where(s, p);
    if r > k {
        assert(!p(s[r]));
    } else if r < k {
        assert(!p(s[k]));
    }
}

} // verus!
