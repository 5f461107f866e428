use vstd::prelude::*;

use std::collections::VecDeque;

use crate::error::IndicatorError;
use crate::observation::{all_finite, count_finite, key, lemma_count_finite_front, lemma_count_finite_full, window_complete, Observation};
use crate::validation;

verus! {

/// Which end of the order a rolling extreme tracks.
#[derive(Clone, Copy, Debug, PartialEq, Eq)]
pub enum Extreme {
    /// The smallest value.
    Minimum,
    /// The largest value.
    Maximum,
}

/// Key `a` is at least as extreme as key `b`.
pub open spec fn prefers(kind: Extreme, a: int, b: int) -> bool {
    match kind {
        Extreme::Minimum => a <= b,
        Extreme::Maximum => a >= b,
    }
}

/// Key `a` is strictly more extreme than key `b`.
pub open spec fn strictly_prefers(kind: Extreme, a: int, b: int) -> bool {
    match kind {
        Extreme::Minimum => a < b,
        Extreme::Maximum => a > b,
    }
}

/// Which of several equally extreme values a rolling extreme reports.
#[derive(Clone, Copy, Debug, PartialEq, Eq)]
pub enum Tie {
    /// The earliest one.
    Earliest,
    /// The most recent one.
    Latest,
}

/// A queued candidate with key `a` stays queued when a value with key `b`
/// arrives after it.
pub open spec fn keeps(kind: Extreme, tie: Tie, a: int, b: int) -> bool {
    match tie {
        Tie::Earliest => prefers(kind, a, b),
        Tie::Latest => strictly_prefers(kind, a, b),
    }
}

/// A value with key `a` arriving after a queued candidate with key `b`
/// removes it.
pub open spec fn beats(kind: Extreme, tie: Tie, a: int, b: int) -> bool {
    !keeps(kind, tie, b, a)
}

/// `position` holds the most extreme finite value of `s[lo..hi]`, and is the
/// earliest (or latest, by `tie`) place that holds it.
pub open spec fn is_window_extreme(s: Seq<Observation>, kind: Extreme, tie: Tie, lo: int, hi: int, position: int) -> bool {
    &&& lo <= position < hi
    &&& s[position] is Some
    &&& forall|j: int| lo <= j < hi && (#[trigger] s[j]) is Some ==> prefers(kind, key(s[position]), key(s[j]))
    &&& match tie {
        Tie::Earliest => forall|j: int|
            lo <= j < position && (#[trigger] s[j]) is Some ==> strictly_prefers(kind, key(s[position]), key(s[j])),
        Tie::Latest => forall|j: int|
            position < j < hi && (#[trigger] s[j]) is Some ==> strictly_prefers(kind, key(s[position]), key(s[j])),
    }
}

/// First position of the trailing window of `period` observations that ends
/// just before `end`, clipped at the start of the series.
pub open spec fn window_start(period: nat, end: int) -> int {
    if end >= period { end - period } else { 0 }
}

/// What the monotone queue of candidate positions keeps true about the
/// observations `s[lo..hi]`.
#[verifier::opaque]
spec fn queue_invariant(s: Seq<Observation>, kind: Extreme, tie: Tie, d: Seq<usize>, lo: int, hi: int) -> bool {
    &&& forall|a: int| 0 <= a < d.len() ==> lo <= #[trigger] d[a] < hi && s[d[a] as int] is Some
    &&& forall|a: int, b: int| 0 <= a < b < d.len() ==> #[trigger] d[a] < #[trigger] d[b]
    &&& queue_ordered(s, kind, tie, d)
    &&& queue_kept(s, kind, tie, d, lo, hi)
    &&& queue_beaten(s, kind, tie, d, lo, hi)
    // the queue reaches the latest finite position
    &&& forall|k: int| lo <= k < hi && (#[trigger] s[k]) is Some ==> d.len() > 0 && d[d.len() - 1] >= k
}

/// Finds the first queued position at or after `k`, searching from `from`.
proof fn lemma_first_at_least(d: Seq<usize>, k: int, from: int) -> (c: int)
    requires
        0 <= from < d.len(),
        d[d.len() - 1] >= k,
        from == 0 || d[from - 1] < k,
    ensures
        from <= c < d.len(),
        d[c] >= k,
        c == 0 || d[c - 1] < k,
    decreases d.len() - from,
{
    if d[from] >= k {
        from
    } else {
        lemma_first_at_least(d, k, from + 1)
    }
}

proof fn lemma_queue_empty(s: Seq<Observation>, kind: Extreme, tie: Tie, lo: int)
    ensures
        queue_invariant(s, kind, tie, Seq::<usize>::empty(), lo, lo),
{
    reveal(queue_invariant);
}

proof fn lemma_queue_members(s: Seq<Observation>, kind: Extreme, tie: Tie, d: Seq<usize>, lo: int, hi: int)
    requires
        queue_invariant(s, kind, tie, d, lo, hi),
    ensures
        forall|a: int| 0 <= a < d.len() ==> lo <= #[trigger] d[a] < hi && s[d[a] as int] is Some,
{
    reveal(queue_invariant);
}

proof fn lemma_queue_skip(s: Seq<Observation>, kind: Extreme, tie: Tie, d: Seq<usize>, lo: int, hi: int)
    requires
        queue_invariant(s, kind, tie, d, lo, hi),
        0 <= hi < s.len(),
        s[hi] is None,
    ensures
        queue_invariant(s, kind, tie, d, lo, hi + 1),
{
    reveal(queue_invariant);
}

/// Queued candidates in order keep their places against each other.
spec fn queue_ordered(s: Seq<Observation>, kind: Extreme, tie: Tie, d: Seq<usize>) -> bool {
    forall|a: int, b: int| 0 <= a < b < d.len() ==>
        keeps(kind, tie, key(s[#[trigger] d[a] as int]), key(s[#[trigger] d[b] as int]))
}

/// Every queued candidate before a finite position of `s[lo..hi]` keeps its place against it.
spec fn queue_kept(s: Seq<Observation>, kind: Extreme, tie: Tie, d: Seq<usize>, lo: int, hi: int) -> bool {
    forall|j: int, b: int| #![trigger s[j], d[b]]
        lo <= j < hi && s[j] is Some && 0 <= b < d.len() && d[b] < j ==>
            keeps(kind, tie, key(s[d[b] as int]), key(s[j]))
}

/// The first queued candidate after a dropped finite position of `s[lo..hi]` beats it.
spec fn queue_beaten(s: Seq<Observation>, kind: Extreme, tie: Tie, d: Seq<usize>, lo: int, hi: int) -> bool {
    forall|k: int, b: int| #![trigger s[k], d[b]]
        lo <= k < hi && s[k] is Some && 0 <= b < d.len() && d[b] > k && (b == 0 || d[b - 1] < k) ==>
            beats(kind, tie, key(s[d[b] as int]), key(s[k]))
}

proof fn lemma_push_ordered(s: Seq<Observation>, kind: Extreme, tie: Tie, d: Seq<usize>, m: int, hi: int)
    requires
        queue_ordered(s, kind, tie, d),
        0 <= m <= d.len(),
        0 <= hi <= usize::MAX,
        m == 0 || keeps(kind, tie, key(s[d[m - 1] as int]), key(s[hi])),
    ensures
        queue_ordered(s, kind, tie, d.take(m).push(hi as usize)),
{
    let e = d.take(m).push(hi as usize);
    assert forall|a: int, b: int| 0 <= a < b < e.len() implies
        keeps(kind, tie, key(s[#[trigger] e[a] as int]), key(s[#[trigger] e[b] as int])) by {
        if b == m {
            assert(e[a] == d[a]);
            if a < m - 1 {
                assert(keeps(kind, tie, key(s[d[a] as int]), key(s[d[m - 1] as int])));
            }
        } else {
            assert(e[a] == d[a] && e[b] == d[b]);
        }
    }
}

proof fn lemma_push_kept(s: Seq<Observation>, kind: Extreme, tie: Tie, d: Seq<usize>, m: int, lo: int, hi: int)
    requires
        queue_ordered(s, kind, tie, d),
        queue_kept(s, kind, tie, d, lo, hi),
        0 <= m <= d.len(),
        0 <= hi <= usize::MAX,
        m == 0 || keeps(kind, tie, key(s[d[m - 1] as int]), key(s[hi])),
    ensures
        queue_kept(s, kind, tie, d.take(m).push(hi as usize), lo, hi + 1),
{
    let e = d.take(m).push(hi as usize);
    assert forall|j: int, b: int| #![trigger s[j], e[b]]
        lo <= j < hi + 1 && s[j] is Some && 0 <= b < e.len() && e[b] < j implies
            keeps(kind, tie, key(s[e[b] as int]), key(s[j])) by {
        assert(b < m);
        assert(e[b] == d[b]);
        if j == hi {
            if b < m - 1 {
                assert(keeps(kind, tie, key(s[d[b] as int]), key(s[d[m - 1] as int])));
            }
        }
    }
}

proof fn lemma_push_beaten(s: Seq<Observation>, kind: Extreme, tie: Tie, d: Seq<usize>, m: int, lo: int, hi: int)
    requires
        queue_beaten(s, kind, tie, d, lo, hi),
        forall|a: int| 0 <= a < d.len() ==> lo <= #[trigger] d[a] < hi,
        forall|a: int, b: int| 0 <= a < b < d.len() ==> #[trigger] d[a] < #[trigger] d[b],
        forall|k: int| lo <= k < hi && (#[trigger] s[k]) is Some ==> d.len() > 0 && d[d.len() - 1] >= k,
        0 <= m <= d.len(),
        0 <= hi <= usize::MAX,
        forall|a: int| m <= a < d.len() ==> beats(kind, tie, key(s[hi]), key(s[#[trigger] d[a] as int])),
    ensures
        queue_beaten(s, kind, tie, d.take(m).push(hi as usize), lo, hi + 1),
{
    let e = d.take(m).push(hi as usize);
    assert forall|k: int, b: int| #![trigger s[k], e[b]]
        lo <= k < hi + 1 && s[k] is Some && 0 <= b < e.len() && e[b] > k && (b == 0 || e[b - 1] < k) implies
            beats(kind, tie, key(s[e[b] as int]), key(s[k])) by {
        if b < m {
            assert(e[b] == d[b]);
            if b > 0 {
                assert(e[b - 1] == d[b - 1]);
            }
        } else {
            // the new candidate follows every kept one, all of which precede k
            assert(b == m && e[b] == hi);
            if m > 0 {
                assert(e[b - 1] == d[m - 1]);
            }
            assert(k < hi);
            let c = lemma_first_at_least(d, k, m);
            assert(beats(kind, tie, key(s[hi]), key(s[d[c] as int])));
            if d[c] as int != k {
                assert(beats(kind, tie, key(s[d[c] as int]), key(s[k])));
            }
        }
    }
}

proof fn lemma_queue_push(s: Seq<Observation>, kind: Extreme, tie: Tie, d: Seq<usize>, m: int, lo: int, hi: int)
    requires
        queue_invariant(s, kind, tie, d, lo, hi),
        0 <= lo <= hi < s.len(),
        0 <= hi <= usize::MAX,
        s[hi] is Some,
        0 <= m <= d.len(),
        forall|a: int| m <= a < d.len() ==> beats(kind, tie, key(s[hi]), key(s[#[trigger] d[a] as int])),
        m == 0 || keeps(kind, tie, key(s[d[m - 1] as int]), key(s[hi])),
    ensures
        queue_invariant(s, kind, tie, d.take(m).push(hi as usize), lo, hi + 1),
{
    reveal(queue_invariant);
    lemma_push_ordered(s, kind, tie, d, m, hi);
    lemma_push_kept(s, kind, tie, d, m, lo, hi);
    lemma_push_beaten(s, kind, tie, d, m, lo, hi);
    let e = d.take(m).push(hi as usize);
    assert forall|a: int| 0 <= a < e.len() implies lo <= #[trigger] e[a] < hi + 1 && s[e[a] as int] is Some by {
        if a < m {
            assert(e[a] == d[a]);
        }
    }
    assert forall|a: int, b: int| 0 <= a < b < e.len() implies #[trigger] e[a] < #[trigger] e[b] by {
        assert(e[a] == d[a]);
        if b < m {
            assert(e[b] == d[b]);
        }
    }
}

proof fn lemma_queue_expire(s: Seq<Observation>, kind: Extreme, tie: Tie, d: Seq<usize>, lo: int, hi: int)
    requires
        queue_invariant(s, kind, tie, d, lo, hi),
        lo < hi,
    ensures
        d.len() > 0 && d[0] == lo ==> queue_invariant(s, kind, tie, d.drop_first(), lo + 1, hi),
        !(d.len() > 0 && d[0] == lo) ==> queue_invariant(s, kind, tie, d, lo + 1, hi),
{
    reveal(queue_invariant);
    if d.len() > 0 && d[0] == lo {
        let e = d.drop_first();
        assert forall|a: int| 0 <= a < e.len() implies lo + 1 <= #[trigger] e[a] < hi && s[e[a] as int] is Some by {
            assert(e[a] == d[a + 1]);
            assert(d[0] < d[a + 1]);
        }
        assert forall|a: int, b: int| 0 <= a < b < e.len() implies #[trigger] e[a] < #[trigger] e[b] by {
            assert(e[a] == d[a + 1] && e[b] == d[b + 1]);
        }
        assert forall|a: int, b: int| 0 <= a < b < e.len() implies
            keeps(kind, tie, key(s[#[trigger] e[a] as int]), key(s[#[trigger] e[b] as int])) by {
            assert(e[a] == d[a + 1] && e[b] == d[b + 1]);
        }
        assert forall|j: int, b: int| #![trigger s[j], e[b]]
            lo + 1 <= j < hi && s[j] is Some && 0 <= b < e.len() && e[b] < j implies
                keeps(kind, tie, key(s[e[b] as int]), key(s[j])) by {
            assert(e[b] == d[b + 1]);
        }
        assert forall|k: int, b: int| #![trigger s[k], e[b]]
            lo + 1 <= k < hi && s[k] is Some && 0 <= b < e.len() && e[b] > k && (b == 0 || e[b - 1] < k) implies
                beats(kind, tie, key(s[e[b] as int]), key(s[k])) by {
            assert(e[b] == d[b + 1]);
            if b > 0 {
                assert(e[b - 1] == d[b]);
            }
        }
        assert forall|k: int| lo + 1 <= k < hi && (#[trigger] s[k]) is Some implies e.len() > 0 && e[e.len() - 1] >= k by {
            assert(d[d.len() - 1] >= k);
            assert(d.len() > 1);
            assert(e[e.len() - 1] == d[d.len() - 1]);
        }
    } else {
        assert forall|a: int| 0 <= a < d.len() implies lo + 1 <= #[trigger] d[a] < hi by {
            if a > 0 {
                assert(d[0] < d[a]);
            }
        }
    }
}

proof fn lemma_queue_front(s: Seq<Observation>, kind: Extreme, tie: Tie, d: Seq<usize>, lo: int, hi: int)
    requires
        queue_invariant(s, kind, tie, d, lo, hi),
        lo < hi,
        all_finite(s, lo, hi),
    ensures
        d.len() > 0,
        is_window_extreme(s, kind, tie, lo, hi, d[0] as int),
{
    reveal(queue_invariant);
    assert(s[lo] is Some);
    let f = d[0] as int;
    assert forall|j: int| lo <= j < hi && (#[trigger] s[j]) is Some implies prefers(kind, key(s[f]), key(s[j])) by {
        if d[0] > j {
            assert(beats(kind, tie, key(s[d[0] as int]), key(s[j])));
        } else if d[0] < j {
            assert(keeps(kind, tie, key(s[d[0] as int]), key(s[j])));
        }
    }
    match tie {
        Tie::Earliest => {
            assert forall|j: int| lo <= j < f && (#[trigger] s[j]) is Some implies strictly_prefers(kind, key(s[f]), key(s[j])) by {
                assert(d[0] > j);
                assert(beats(kind, tie, key(s[d[0] as int]), key(s[j])));
            }
        },
        Tie::Latest => {
            assert forall|j: int| f < j < hi && (#[trigger] s[j]) is Some implies strictly_prefers(kind, key(s[f]), key(s[j])) by {
                assert(keeps(kind, tie, key(s[d[0] as int]), key(s[j])));
            }
        },
    }
}

/// What a rolling extreme reports at `index`: the position of the earliest
/// (or latest) most extreme value when the trailing window is complete, else
/// nothing.
pub open spec fn extreme_position_ok(s: Seq<Observation>, kind: Extreme, tie: Tie, period: nat, index: int, result: Option<usize>) -> bool {
    &&& (result is Some <==> window_complete(s, period, index))
    &&& (result matches Some(p) ==> is_window_extreme(s, kind, tie, index + 1 - period, index + 1, p as int))
}

fn stays_queued(kind: Extreme, tie: Tie, old: i64, new: i64) -> (keep: bool)
    ensures
        keep == keeps(kind, tie, old as int, new as int),
{
    match (kind, tie) {
        (Extreme::Minimum, Tie::Earliest) => old <= new,
        (Extreme::Maximum, Tie::Earliest) => old >= new,
        (Extreme::Minimum, Tie::Latest) => old < new,
        (Extreme::Maximum, Tie::Latest) => old > new,
    }
}

/// Trailing minimum or maximum over windows of `period` finite observations,
/// reported as the position of the earliest or latest most extreme value,
/// using a monotone queue of candidate positions in a single pass.
pub fn rolling_extreme(input: &[Observation], period: usize, kind: Extreme, tie: Tie) -> (result: Result<
    Vec<Option<usize>>,
    IndicatorError,
>)
    ensures
        period == 0 ==> result == Err::<Vec<Option<usize>>, IndicatorError>(IndicatorError::InvalidPeriod),
        period != 0 ==> result is Ok,
        result matches Ok(out) ==> {
            &&& out.len() == input.len()
            &&& forall|i: int| 0 <= i < input.len() ==> extreme_position_ok(input@, kind, tie, period as nat, i, #[trigger] out@[i])
        },
{
    validation::period(period)?;
    let ghost s = input@;
    let mut output: Vec<Option<usize>> = Vec::new();
    let mut deque: VecDeque<usize> = VecDeque::new();
    let mut finite: usize = 0;
    let mut index: usize = 0;
    proof {
        lemma_queue_empty(s, kind, tie, 0);
    }
    while index < input.len()
        invariant
            s == input@,
            period > 0,
            index <= input.len(),
            output@.len() == index,
            forall|i: int| 0 <= i < index ==> extreme_position_ok(s, kind, tie, period as nat, i, #[trigger] output@[i]),
            finite == count_finite(s, window_start(period as nat, index as int), index as int),
            queue_invariant(s, kind, tie, deque@, window_start(period as nat, index as int), index as int),
        decreases input.len() - index,
    {
        let ghost lo = window_start(period as nat, index as int);
        proof {
            lemma_count_finite_full(s, lo, index as int);
        }
        match input[index] {
            Some(value) => {
                finite += 1;
                let ghost queued = deque@;
                proof {
                    lemma_queue_members(s, kind, tie, queued, lo, index as int);
                }
                let ghost mut m: int = deque@.len() as int;
                loop
                    invariant
                        s == input@,
                        index < input.len(),
                        s[index as int] == Some(value),
                        0 <= m <= queued.len(),
                        deque@ == queued.take(m),
                        queue_invariant(s, kind, tie, queued, lo, index as int),
                        forall|a: int| 0 <= a < queued.len() ==> lo <= #[trigger] queued[a] < index && s[queued[a] as int] is Some,
                        forall|a: int| m <= a < queued.len() ==>
                            beats(kind, tie, value as int, key(s[#[trigger] queued[a] as int])),
                    ensures
                        m == 0 || keeps(kind, tie, key(s[queued[m - 1] as int]), value as int),
                    decreases m,
                {
                    if deque.len() == 0 {
                        break;
                    }
                    let last = deque[deque.len() - 1];
                    assert(last == queued[m - 1]);
                    let old = input[last].unwrap();
                    if stays_queued(kind, tie, old, value) {
                        break;
                    }
                    deque.pop_back();
                    proof {
                        m = m - 1;
                        assert(deque@ =~= queued.take(m));
                    }
                }
                proof {
                    if m > 0 {
                        assert(deque@[m - 1] == queued[m - 1]);
                    }
                    lemma_queue_push(s, kind, tie, queued, m, lo, index as int);
                }
                deque.push_back(index);
            }
            None => {
                proof {
                    lemma_queue_skip(s, kind, tie, deque@, lo, index as int);
                }
            }
        }
        if index >= period {
            let expired = index - period;
            proof {
                lemma_count_finite_front(s, lo, index + 1);
                lemma_queue_expire(s, kind, tie, deque@, lo, index + 1);
            }
            if input[expired].is_some() {
                finite -= 1;
            }
            if deque.len() > 0 && deque[0] == expired {
                deque.pop_front();
            }
        }
        let ghost hi = index + 1;
        proof {
            lemma_count_finite_full(s, window_start(period as nat, hi as int), hi as int);
        }
        if index + 1 >= period && finite == period {
            proof {
                lemma_queue_front(s, kind, tie, deque@, hi - period, hi as int);
            }
            output.push(Some(deque[0]));
        } else {
            output.push(None);
        }
        index += 1;
    }
    Ok(output)
}

/// Marks each position whose trailing window of `period` observations is
/// complete: it lies inside the series and every value in it is finite.
/// Rolling sums, means, deviations, weighted averages and seeded
/// exponential averages report a value exactly at these positions.
pub fn complete_windows(input: &[Observation], period: usize) -> (result: Result<Vec<bool>, IndicatorError>)
    ensures
        period == 0 ==> result == Err::<Vec<bool>, IndicatorError>(IndicatorError::InvalidPeriod),
        period != 0 ==> result is Ok,
        result matches Ok(out) ==> {
            &&& out.len() == input.len()
            &&& forall|i: int| 0 <= i < input.len() ==> #[trigger] out@[i] == window_complete(input@, period as nat, i)
        },
{
    validation::period(period)?;
    let ghost s = input@;
    let mut output: Vec<bool> = Vec::new();
    let mut finite: usize = 0;
    let mut index: usize = 0;
    while index < input.len()
        invariant
            s == input@,
            period > 0,
            index <= input.len(),
            output@.len() == index,
            forall|i: int| 0 <= i < index ==> #[trigger] output@[i] == window_complete(s, period as nat, i),
            finite == count_finite(s, window_start(period as nat, index as int), index as int),
        decreases input.len() - index,
    {
        let ghost lo = window_start(period as nat, index as int);
        proof {
            lemma_count_finite_full(s, lo, index as int);
        }
        if input[index].is_some() {
            finite += 1;
        }
        if index >= period {
            proof {
                lemma_count_finite_front(s, lo, index + 1);
            }
            if input[index - period].is_some() {
                finite -= 1;
            }
        }
        proof {
            lemma_count_finite_full(s, window_start(period as nat, index + 1), index + 1);
        }
        output.push(index + 1 >= period && finite == period);
        index += 1;
    }
    Ok(output)
}

} // verus!
