//! Sums over sequences, and how they change with the sequence.

use vstd::prelude::*;

verus! {

/// The sum of the elements of `s`.
pub open spec fn sum(s: Seq<int>) -> int
    decreases s.len(),
{
    if s.len() == 0 {
        0
    } else {
        sum(s.drop_last()) + s.last()
    }
}

/// One more element adds itself.
pub proof fn lemma_sum_push(s: Seq<int>, x: int)
    ensures
        sum(s.push(x)) == sum(s) + x,
{
    assert(s.push(x).drop_last() =~= s);
}

/// One element less takes itself away.
pub proof fn lemma_sum_remove(s: Seq<int>, k: int)
    requires
        0 <= k < s.len(),
    ensures
        sum(s.remove(k)) == sum(s) - s[k],
    decreases s.len(),
{
    if k == s.len() - 1 {
        assert(s.remove(k) =~= s.drop_last());
    } else {
        lemma_sum_remove(s.drop_last(), k);
        assert(s.remove(k).drop_last() =~= s.drop_last().remove(k));
        assert(s.remove(k).last() == s.last());
    }
}

/// An element that changes changes the sum by as much.
pub proof fn lemma_sum_update(s: Seq<int>, k: int, x: int)
    requires
        0 <= k < s.len(),
    ensures
        sum(s.update(k, x)) == sum(s) - s[k] + x,
    decreases s.len(),
{
    if k == s.len() - 1 {
        assert(s.update(k, x).drop_last() =~= s.drop_last());
    } else {
        lemma_sum_update(s.drop_last(), k, x);
        assert(s.update(k, x).drop_last() =~= s.drop_last().update(k, x));
        assert(s.update(k, x).last() == s.last());
    }
}

/// Each element of a sum of natural numbers is at most the sum.
pub proof fn lemma_sum_covers(s: Seq<int>, k: int)
    requires
        forall|j: int| 0 <= j < s.len() ==> 0 <= #[trigger] s[j],
        0 <= k < s.len(),
    ensures
        0 <= s[k] <= sum(s),
    decreases s.len(),
{
    if k < s.len() - 1 {
        lemma_sum_covers(s.drop_last(), k);
    } else {
        lemma_sum_nonneg(s.drop_last());
    }
}

/// A sum of natural numbers is a natural number.
pub proof fn lemma_sum_nonneg(s: Seq<int>)
    requires
        forall|j: int| 0 <= j < s.len() ==> 0 <= #[trigger] s[j],
    ensures
        0 <= sum(s),
    decreases s.len(),
{
    if s.len() > 0 {
        lemma_sum_nonneg(s.drop_last());
    }
}

/// Of two sequences, the one that is smaller element by element has the
/// smaller sum.
pub proof fn lemma_sum_pointwise(a: Seq<int>, b: Seq<int>)
    requires
        a.len() == b.len(),
        forall|j: int| 0 <= j < a.len() ==> #[trigger] a[j] <= b[j],
    ensures
        sum(a) <= sum(b),
    decreases a.len(),
{
    if a.len() > 0 {
        lemma_sum_pointwise(a.drop_last(), b.drop_last());
    }
}

/// The first `k` elements of a sequence of natural numbers add up to no more
/// than all of them.
pub proof fn lemma_sum_prefix(s: Seq<int>, k: int)
    requires
        forall|j: int| 0 <= j < s.len() ==> 0 <= #[trigger] s[j],
        0 <= k <= s.len(),
    ensures
        0 <= sum(s.subrange(0, k)) <= sum(s),
    decreases s.len() - k,
{
    if k == s.len() {
        assert(s.subrange(0, k) =~= s);
        lemma_sum_nonneg(s);
    } else {
        lemma_sum_prefix(s, k + 1);
        assert(s.subrange(0, k + 1).drop_last() =~= s.subrange(0, k));
        lemma_sum_nonneg(s.subrange(0, k));
    }
}

} // verus!
