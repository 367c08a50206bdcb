//! Order-independent folding. The reduction over collected results is a
//! component-wise sum, so its outcome cannot depend on the order in which
//! the collection is walked; this module states and proves that once, for
//! any element type and any three-component integer weighting.

use vstd::prelude::*;
use vstd::seq_lib::{to_multiset_contains, to_multiset_len, to_multiset_remove};

verus! {

/// The component-wise sum of `w` over a sequence.
pub open spec fn weighted_total<A>(s: Seq<A>, w: spec_fn(A) -> (int, int, int)) -> (int, int, int)
    decreases s.len(),
{
    if s.len() == 0 {
        (0, 0, 0)
    } else {
        let rest = weighted_total(s.drop_last(), w);
        let d = w(s.last());
        (rest.0 + d.0, rest.1 + d.1, rest.2 + d.2)
    }
}

/// Removing one element takes exactly its weight out of the total.
pub proof fn lemma_weighted_total_remove<A>(s: Seq<A>, j: int, w: spec_fn(A) -> (int, int, int))
    requires
        0 <= j < s.len(),
    ensures
        weighted_total(s, w).0 == weighted_total(s.remove(j), w).0 + w(s[j]).0,
        weighted_total(s, w).1 == weighted_total(s.remove(j), w).1 + w(s[j]).1,
        weighted_total(s, w).2 == weighted_total(s.remove(j), w).2 + w(s[j]).2,
    decreases s.len(),
{
    if j == s.len() - 1 {
        assert(s.remove(j) =~= s.drop_last());
    } else {
        lemma_weighted_total_remove(s.drop_last(), j, w);
        assert(s.remove(j).drop_last() =~= s.drop_last().remove(j));
        assert(s.remove(j).last() == s.last());
        assert(s.drop_last()[j] == s[j]);
    }
}

/// Two sequences holding the same multiset of elements have the same
/// weighted total: the fold is insensitive to order.
pub proof fn lemma_weighted_total_permutation<A>(
    s1: Seq<A>,
    s2: Seq<A>,
    w: spec_fn(A) -> (int, int, int),
)
    requires
        s1.to_multiset() == s2.to_multiset(),
    ensures
        weighted_total(s1, w) == weighted_total(s2, w),
    decreases s1.len(),
{
    to_multiset_len(s1);
    to_multiset_len(s2);
    if s1.len() == 0 {
    } else {
        let a = s1.last();
        assert(s1[s1.len() - 1] == a);
        assert(s1.contains(a));
        to_multiset_contains(s1, a);
        to_multiset_contains(s2, a);
        assert(s2.contains(a));
        let j = choose|j: int| 0 <= j < s2.len() && s2[j] == a;
        to_multiset_remove(s1, s1.len() - 1);
        to_multiset_remove(s2, j);
        assert(s1.remove(s1.len() - 1) =~= s1.drop_last());
        lemma_weighted_total_permutation(s1.drop_last(), s2.remove(j), w);
        lemma_weighted_total_remove(s2, j, w);
    }
}

/// With nowhere-negative weights, the total over a prefix is bounded by
/// the total over any longer prefix.
pub proof fn lemma_weighted_total_prefix<A>(
    s: Seq<A>,
    i: int,
    j: int,
    w: spec_fn(A) -> (int, int, int),
)
    requires
        0 <= i <= j <= s.len(),
        forall|a: A| {
            &&& (#[trigger] w(a)).0 >= 0
            &&& w(a).1 >= 0
            &&& w(a).2 >= 0
        },
    ensures
        weighted_total(s.subrange(0, i), w).0 <= weighted_total(s.subrange(0, j), w).0,
        weighted_total(s.subrange(0, i), w).1 <= weighted_total(s.subrange(0, j), w).1,
        weighted_total(s.subrange(0, i), w).2 <= weighted_total(s.subrange(0, j), w).2,
    decreases j - i,
{
    if i < j {
        lemma_weighted_total_prefix(s, i, j - 1, w);
        assert(s.subrange(0, j).drop_last() =~= s.subrange(0, j - 1));
    }
}

} // verus!
