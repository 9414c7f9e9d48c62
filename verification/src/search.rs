//! First and last positions in a sequence at which a predicate holds.

use vstd::prelude::*;

verus! {

/// `p` holds at `i` and nowhere before it.
pub open spec fn is_first<T>(s: Seq<T>, p: spec_fn(T) -> bool, i: int) -> bool {
    &&& 0 <= i < s.len()
    &&& p(s[i])
    &&& forall|j: int| 0 <= j < i ==> !p(#[trigger] s[j])
}

/// `p` holds at `i` and nowhere after it.
pub open spec fn is_last<T>(s: Seq<T>, p: spec_fn(T) -> bool, i: int) -> bool {
    &&& 0 <= i < s.len()
    &&& p(s[i])
    &&& forall|j: int| i < j < s.len() ==> !p(#[trigger] s[j])
}

/// The first position at which `p` holds, if there is one.
pub open spec fn first_index<T>(s: Seq<T>, p: spec_fn(T) -> bool) -> Option<int> {
    if exists|i: int| is_first(s, p, i) {
        Some(choose|i: int| is_first(s, p, i))
    } else {
        None
    }
}

/// The last position at which `p` holds, if there is one.
pub open spec fn last_index<T>(s: Seq<T>, p: spec_fn(T) -> bool) -> Option<int> {
    if exists|i: int| is_last(s, p, i) {
        Some(choose|i: int| is_last(s, p, i))
    } else {
        None
    }
}

/// `p` holds nowhere in `s`.
pub open spec fn nowhere<T>(s: Seq<T>, p: spec_fn(T) -> bool) -> bool {
    forall|j: int| 0 <= j < s.len() ==> !p(#[trigger] s[j])
}

/// A first position is the first position.
pub proof fn lemma_first_index<T>(s: Seq<T>, p: spec_fn(T) -> bool, i: int)
    requires
        is_first(s, p, i),
    ensures
        first_index(s, p) == Some(i),
{
    let k = choose|k: int| is_first(s, p, k);
    if k < i {
        assert(!p(s[k]));
    } else if i < k {
        assert(!p(s[i]));
    }
}

/// A last position is the last position.
pub proof fn lemma_last_index<T>(s: Seq<T>, p: spec_fn(T) -> bool, i: int)
    requires
        is_last(s, p, i),
    ensures
        last_index(s, p) == Some(i),
{
    let k = choose|k: int| is_last(s, p, k);
    if k < i {
        assert(!p(s[i]));
    } else if i < k {
        assert(!p(s[k]));
    }
}

/// Where `p` holds nowhere there is neither a first nor a last position.
pub proof fn lemma_no_index<T>(s: Seq<T>, p: spec_fn(T) -> bool)
    requires
        nowhere(s, p),
    ensures
        first_index(s, p) is None,
        last_index(s, p) is None,
{
    assert forall|i: int| !is_first(s, p, i) by {
        if 0 <= i < s.len() {
            assert(!p(s[i]));
        }
    }
    assert forall|i: int| !is_last(s, p, i) by {
        if 0 <= i < s.len() {
            assert(!p(s[i]));
        }
    }
}

/// What `first_index` returns is a first position, and `None` means that `p` holds nowhere.
pub proof fn lemma_first_index_is_first<T>(s: Seq<T>, p: spec_fn(T) -> bool)
    ensures
        match first_index(s, p) {
            Some(i) => is_first(s, p, i),
            None => nowhere(s, p),
        },
{
    if first_index(s, p) is None {
        if !nowhere(s, p) {
            let j = choose|j: int| 0 <= j < s.len() && p(#[trigger] s[j]);
            lemma_some_first(s, p, j);
        }
    }
}

/// Where `p` holds at `j` there is a first position at or before `j`.
proof fn lemma_some_first<T>(s: Seq<T>, p: spec_fn(T) -> bool, j: int)
    requires
        0 <= j < s.len(),
        p(s[j]),
    ensures
        exists|i: int| is_first(s, p, i),
    decreases j,
{
    if exists|k: int| 0 <= k < j && p(#[trigger] s[k]) {
        let k = choose|k: int| 0 <= k < j && p(#[trigger] s[k]);
        lemma_some_first(s, p, k);
    } else {
        assert(is_first(s, p, j));
    }
}

} // verus!
