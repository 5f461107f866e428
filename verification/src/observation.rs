use vstd::prelude::*;

verus! {

/// One value of a market-data series as the order-sensitive logic sees it:
/// `None` for a missing, NaN or infinite value, and `Some(key)` for a finite
/// value, where keys compare exactly as the values they stand for and the
/// key of zero is zero (so a key is positive exactly when its value is).
pub type Observation = Option<i64>;

/// The key of a finite observation.
pub open spec fn key(o: Observation) -> int {
    match o {
        Some(k) => k as int,
        None => 0,
    }
}

/// Number of finite observations in `s[lo..hi]`.
pub open spec fn count_finite(s: Seq<Observation>, lo: int, hi: int) -> nat
    decreases hi - lo,
{
    if hi <= lo {
        0
    } else {
        count_finite(s, lo, hi - 1) + if s[hi - 1] is Some { 1nat } else { 0nat }
    }
}

/// Every observation in `s[lo..hi]` is finite.
pub open spec fn all_finite(s: Seq<Observation>, lo: int, hi: int) -> bool {
    forall|j: int| lo <= j < hi ==> (#[trigger] s[j]) is Some
}

/// The trailing window of `period` observations ending at `index` lies inside
/// the series and holds only finite values.
pub open spec fn window_complete(s: Seq<Observation>, period: nat, index: int) -> bool {
    index + 1 >= period && all_finite(s, index + 1 - period, index + 1)
}

/// Counting from the low end gives the same count.
pub proof fn lemma_count_finite_front(s: Seq<Observation>, lo: int, hi: int)
    requires
        lo < hi,
    ensures
        count_finite(s, lo, hi) == count_finite(s, lo + 1, hi) + if s[lo] is Some { 1nat } else { 0nat },
    decreases hi - lo,
{
    assert(count_finite(s, lo, hi) == count_finite(s, lo, hi - 1) + if s[hi - 1] is Some { 1nat } else { 0nat });
    if hi - 1 > lo {
        lemma_count_finite_front(s, lo, hi - 1);
        assert(count_finite(s, lo + 1, hi) == count_finite(s, lo + 1, hi - 1) + if s[hi - 1] is Some { 1nat } else { 0nat });
    } else {
        assert(count_finite(s, lo, hi - 1) == 0);
        assert(count_finite(s, lo + 1, hi) == 0);
    }
}

/// The count is at most the length, and reaches it exactly when all values are finite.
pub proof fn lemma_count_finite_full(s: Seq<Observation>, lo: int, hi: int)
    requires
        lo <= hi,
    ensures
        count_finite(s, lo, hi) <= hi - lo,
        count_finite(s, lo, hi) == hi - lo <==> all_finite(s, lo, hi),
    decreases hi - lo,
{
    if hi > lo {
        lemma_count_finite_full(s, lo, hi - 1);
        if count_finite(s, lo, hi) == hi - lo {
            assert forall|j: int| lo <= j < hi implies (#[trigger] s[j]) is Some by {
                if j < hi - 1 {
                    assert(all_finite(s, lo, hi - 1));
                }
            }
        }
        if all_finite(s, lo, hi) {
            assert(s[hi - 1] is Some);
            assert(all_finite(s, lo, hi - 1));
        }
    }
}

} // verus!
