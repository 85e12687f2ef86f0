//! Sums over a range of a sequence of counters, and the facts the engine
//! needs about them: they are non-negative, they split at any midpoint,
//! updating one slot shifts the sum by the difference, and every slot is
//! bounded by the sum of any range that contains it.

use vstd::prelude::*;

verus! {

/// Sum of the counters `s[lo]`, ..., `s[hi - 1]`, as a mathematical integer.
pub open spec fn range_sum(s: Seq<u32>, lo: int, hi: int) -> int
    decreases hi - lo,
{
    if lo >= hi {
        0
    } else {
        s[lo] + range_sum(s, lo + 1, hi)
    }
}

pub proof fn lemma_range_sum_nonneg(s: Seq<u32>, lo: int, hi: int)
    requires
        0 <= lo,
        hi <= s.len(),
    ensures
        range_sum(s, lo, hi) >= 0,
    decreases hi - lo,
{
    if lo < hi {
        lemma_range_sum_nonneg(s, lo + 1, hi);
    }
}

pub proof fn lemma_range_sum_split(s: Seq<u32>, lo: int, mid: int, hi: int)
    requires
        lo <= mid <= hi,
    ensures
        range_sum(s, lo, hi) == range_sum(s, lo, mid) + range_sum(s, mid, hi),
    decreases mid - lo,
{
    if lo < mid {
        lemma_range_sum_split(s, lo + 1, mid, hi);
    }
}

/// Two sequences that agree on a range have the same sum over it.
pub proof fn lemma_range_sum_congruent(a: Seq<u32>, b: Seq<u32>, lo: int, hi: int)
    requires
        forall|j: int| lo <= j < hi ==> a[j] == b[j],
    ensures
        range_sum(a, lo, hi) == range_sum(b, lo, hi),
    decreases hi - lo,
{
    if lo < hi {
        lemma_range_sum_congruent(a, b, lo + 1, hi);
    }
}

/// Updating one slot inside the range shifts the sum by the difference.
pub proof fn lemma_range_sum_update(s: Seq<u32>, lo: int, hi: int, i: int, v: u32)
    requires
        0 <= lo <= i < hi,
        hi <= s.len(),
    ensures
        range_sum(s.update(i, v), lo, hi) == range_sum(s, lo, hi) - s[i] + v,
    decreases i - lo,
{
    if lo == i {
        lemma_range_sum_congruent(s.update(i, v), s, lo + 1, hi);
    } else {
        lemma_range_sum_update(s, lo + 1, hi, i, v);
    }
}

/// Every slot of a range is bounded by the sum over that range.
pub proof fn lemma_range_sum_elem(s: Seq<u32>, lo: int, hi: int, i: int)
    requires
        0 <= lo <= i < hi,
        hi <= s.len(),
    ensures
        s[i] <= range_sum(s, lo, hi),
{
    lemma_range_sum_split(s, lo, i, hi);
    lemma_range_sum_nonneg(s, lo, i);
    lemma_range_sum_nonneg(s, i + 1, hi);
    assert(range_sum(s, i, hi) == s[i] + range_sum(s, i + 1, hi));
}

/// A range of empty slots sums to zero.
pub proof fn lemma_range_sum_zero(s: Seq<u32>, lo: int, hi: int)
    requires
        forall|j: int| lo <= j < hi ==> s[j] == 0,
    ensures
        range_sum(s, lo, hi) == 0,
    decreases hi - lo,
{
    if lo < hi {
        lemma_range_sum_zero(s, lo + 1, hi);
    }
}

/// A range of byte-sized counters sums to at most 255 per slot.
pub proof fn lemma_range_sum_bounded_bytes(s: Seq<u32>, lo: int, hi: int)
    requires
        lo <= hi,
        forall|j: int| lo <= j < hi ==> s[j] < 256,
    ensures
        range_sum(s, lo, hi) <= 255 * (hi - lo),
    decreases hi - lo,
{
    if lo < hi {
        lemma_range_sum_bounded_bytes(s, lo + 1, hi);
    }
}

} // verus!
