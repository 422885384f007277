//! First-match lookup over a sequence, as a reusable specification.
//!
//! Registries, price caches, pool lists and obligations all resolve keys
//! by scanning for the first element that satisfies a predicate; this
//! module gives that scan one spec-level meaning.

use vstd::prelude::*;

verus! {

/// Index of the first element of `s` satisfying `p`, or -1 when none does.
pub open spec fn spec_find_index<T>(s: Seq<T>, p: spec_fn(T) -> bool) -> int
    decreases s.len(),
{
    if s.len() == 0 {
        -1
    } else if p(s[0]) {
        0
    } else {
        let r = spec_find_index(s.drop_first(), p);
        if r == -1 {
            -1
        } else {
            r + 1
        }
    }
}

/// The first element of `s` satisfying `p`, when one exists.
pub open spec fn spec_find<T>(s: Seq<T>, p: spec_fn(T) -> bool) -> Option<T> {
    let i = spec_find_index(s, p);
    if i == -1 {
        None
    } else {
        Some(s[i])
    }
}

/// What a first-match index means: -1 exactly when nothing matches;
/// otherwise it is in range, its element matches, and nothing before it
/// does.
pub proof fn lemma_find_index_props<T>(s: Seq<T>, p: spec_fn(T) -> bool)
    ensures
        spec_find_index(s, p) == -1 ==> forall|k: int| 0 <= k < s.len() ==> !p(s[k]),
        spec_find_index(s, p) != -1 ==> {
            let i = spec_find_index(s, p);
            &&& 0 <= i < s.len()
            &&& p(s[i])
            &&& forall|k: int| 0 <= k < i ==> !p(s[k])
        },
    decreases s.len(),
{
    if s.len() == 0 {
    } else if p(s[0]) {
    } else {
        let t = s.drop_first();
        lemma_find_index_props(t, p);
        let r = spec_find_index(t, p);
        if r == -1 {
            assert(spec_find_index(s, p) == -1);
            assert forall|k: int| 0 <= k < s.len() implies !p(s[k]) by {
                if k > 0 {
                    assert(t[k - 1] == s[k]);
                    assert(!p(t[k - 1]));
                }
            }
        } else {
            assert(spec_find_index(s, p) == r + 1);
            assert(t[r] == s[r + 1]);
            assert forall|k: int| 0 <= k < r + 1 implies !p(s[k]) by {
                if k > 0 {
                    assert(t[k - 1] == s[k]);
                    assert(!p(t[k - 1]));
                }
            }
        }
    }
}

/// A matching element at `i` with no match before it pins the first-match
/// index to `i`.
pub proof fn lemma_find_index_of_witness<T>(s: Seq<T>, p: spec_fn(T) -> bool, i: int)
    requires
        0 <= i < s.len(),
        p(s[i]),
        forall|k: int| 0 <= k < i ==> !p(s[k]),
    ensures
        spec_find_index(s, p) == i,
    decreases i,
{
    if i == 0 {
    } else {
        assert(s.drop_first()[i - 1] == s[i]);
        assert forall|k: int| 0 <= k < i - 1 implies !p(s.drop_first()[k]) by {
            assert(s.drop_first()[k] == s[k + 1]);
        }
        lemma_find_index_of_witness(s.drop_first(), p, i - 1);
    }
}

/// When every match in a sequence is one and the same element, a
/// first-match lookup sees through any rearrangement of the sequence.
pub proof fn lemma_find_multiset<T>(s1: Seq<T>, s2: Seq<T>, p: spec_fn(T) -> bool)
    requires
        s1.to_multiset() == s2.to_multiset(),
        forall|i: int, j: int|
            0 <= i < s1.len() && 0 <= j < s1.len() && p(#[trigger] s1[i]) && p(#[trigger] s1[j])
                ==> s1[i] == s1[j],
    ensures
        spec_find(s1, p) == spec_find(s2, p),
{
    broadcast use vstd::seq_lib::group_to_multiset_ensures;

    lemma_find_index_props(s1, p);
    lemma_find_index_props(s2, p);
    let i1 = spec_find_index(s1, p);
    let i2 = spec_find_index(s2, p);
    if i1 == -1 && i2 != -1 {
        let x = s2[i2];
        assert(s2.contains(x));
        assert(s2.to_multiset().count(x) > 0);
        assert(s1.contains(x)) by {
            assert(s1.to_multiset().count(x) > 0);
        }
        let j = choose|j: int| 0 <= j < s1.len() && s1[j] == x;
        assert(p(s1[j]));
        assert(false);
    } else if i1 != -1 && i2 == -1 {
        let x = s1[i1];
        assert(s1.contains(x));
        assert(s1.to_multiset().count(x) > 0);
        assert(s2.contains(x)) by {
            assert(s2.to_multiset().count(x) > 0);
        }
        let j = choose|j: int| 0 <= j < s2.len() && s2[j] == x;
        assert(!p(s2[j]));
        assert(false);
    } else if i1 != -1 && i2 != -1 {
        let x = s2[i2];
        assert(s2.contains(x));
        assert(s2.to_multiset().count(x) > 0);
        assert(s1.contains(x)) by {
            assert(s1.to_multiset().count(x) > 0);
        }
        let j = choose|j: int| 0 <= j < s1.len() && s1[j] == x;
        assert(p(s1[j]));
        assert(s1[j] == s1[i1]);
    }
}

/// No match anywhere pins the first-match index to -1.
pub proof fn lemma_find_index_of_no_witness<T>(s: Seq<T>, p: spec_fn(T) -> bool)
    requires
        forall|k: int| 0 <= k < s.len() ==> !p(s[k]),
    ensures
        spec_find_index(s, p) == -1,
    decreases s.len(),
{
    if s.len() > 0 {
        assert forall|k: int| 0 <= k < s.drop_first().len() implies !p(s.drop_first()[k]) by {
            assert(s.drop_first()[k] == s[k + 1]);
        }
        lemma_find_index_of_no_witness(s.drop_first(), p);
    }
}

} // verus!
