//! Properties that relate several calls or hold of every output: causality
//! (appending data never changes what was already reported), channel
//! ordering, and the bounds of the DeMark counts.
use vstd::prelude::*;

use crate::observation::{key, window_complete, Observation};
use crate::transform::{
    aroon_offsets_ok, countdown_armed, countdown_before, countdown_counts, countdown_qualifies, countdown_value,
    setup_count, setup_direction, setup_run,
};
use crate::volume::obv_step;
use crate::volatility::{positive_price, usable_row, VolatilityEstimator};
use crate::error::{decimal, digit_char};
use crate::window::{extreme_position_ok, is_window_extreme, Extreme, Tie};

verus! {

/// At most one position of a window is its earliest (or latest) most
/// extreme value.
pub proof fn window_extreme_is_unique(s: Seq<Observation>, kind: Extreme, tie: Tie, lo: int, hi: int, p: int, q: int)
    requires
        is_window_extreme(s, kind, tie, lo, hi, p),
        is_window_extreme(s, kind, tie, lo, hi, q),
    ensures
        p == q,
{
    assert(s[p] is Some && s[q] is Some);
}

/// Window completeness at a position depends only on the observations up to it.
pub proof fn window_complete_is_causal(s: Seq<Observation>, n: int, period: nat, i: int)
    requires
        0 <= i < n <= s.len(),
    ensures
        window_complete(s, period, i) == window_complete(s.take(n), period, i),
{
    if i + 1 >= period {
        if window_complete(s, period, i) {
            assert forall|j: int| i + 1 - period <= j < i + 1 implies (#[trigger] s.take(n)[j]) is Some by {
                assert(s[j] is Some);
            }
        }
        if window_complete(s.take(n), period, i) {
            assert forall|j: int| i + 1 - period <= j < i + 1 implies (#[trigger] s[j]) is Some by {
                assert(s.take(n)[j] is Some);
            }
        }
    }
}

/// Rolling minima and maxima are causal: the position reported for bar `i`
/// is the same whether or not later observations are present.
pub proof fn rolling_extreme_is_causal(
    s: Seq<Observation>,
    n: int,
    kind: Extreme,
    tie: Tie,
    period: nat,
    i: int,
    full: Option<usize>,
    prefix: Option<usize>,
)
    requires
        0 <= i < n <= s.len(),
        extreme_position_ok(s, kind, tie, period, i, full),
        extreme_position_ok(s.take(n), kind, tie, period, i, prefix),
    ensures
        full == prefix,
{
    window_complete_is_causal(s, n, period, i);
    if let Some(p) = full {
        let q = prefix->0;
        let lo = i + 1 - period;
        let t = s.take(n);
        assert(is_window_extreme(s, kind, tie, lo, i + 1, q as int)) by {
            assert forall|j: int| lo <= j < i + 1 implies #[trigger] s[j] == t[j] by {}
        }
        window_extreme_is_unique(s, kind, tie, lo, i + 1, p as int, q as int);
    }
}

/// TD setup counts are causal: the count at bar `i` is the same whether or
/// not later closes are present.
pub proof fn td_setup_is_causal(close: Seq<Observation>, n: int, i: int)
    requires
        0 <= i < n <= close.len(),
    ensures
        setup_count(close, i) == setup_count(close.take(n), i),
    decreases i,
{
    let t = close.take(n);
    assert(setup_direction(close, i) == setup_direction(t, i)) by {
        if i >= 4 {
            assert(t[i] == close[i] && t[i - 4] == close[i - 4]);
        }
    }
    if i >= 1 {
        assert(setup_direction(close, i - 1) == setup_direction(t, i - 1)) by {
            if i - 1 >= 4 {
                assert(t[i - 1] == close[i - 1] && t[i - 5] == close[i - 5]);
            }
        }
    }
    if i >= 4 {
        td_setup_is_causal(close, n, i - 1);
        assert(setup_run(close, i) == setup_run(t, i));
    }
}

/// Every TD countdown state up to bar `i` is the same whether or not later
/// bars are present.
proof fn countdown_before_is_causal(high: Seq<Observation>, low: Seq<Observation>, close: Seq<Observation>, n: int, i: int)
    requires
        0 <= i <= n <= close.len(),
        high.len() == close.len(),
        low.len() == close.len(),
    ensures
        countdown_before(high, low, close, i) == countdown_before(high.take(n), low.take(n), close.take(n), i),
    decreases i,
{
    if i > 0 {
        countdown_before_is_causal(high, low, close, n, i - 1);
        countdown_step_is_causal(high, low, close, n, i - 1);
    }
}

proof fn countdown_step_is_causal(high: Seq<Observation>, low: Seq<Observation>, close: Seq<Observation>, n: int, i: int)
    requires
        0 <= i < n <= close.len(),
        high.len() == close.len(),
        low.len() == close.len(),
        countdown_before(high, low, close, i) == countdown_before(high.take(n), low.take(n), close.take(n), i),
    ensures
        countdown_armed(countdown_before(high, low, close, i), setup_count(close, i)) == countdown_armed(
            countdown_before(high.take(n), low.take(n), close.take(n), i),
            setup_count(close.take(n), i),
        ),
        forall|state: (int, int)|
            countdown_counts(high, low, close, state, i) == #[trigger] countdown_counts(
                high.take(n),
                low.take(n),
                close.take(n),
                state,
                i,
            ),
{
    td_setup_is_causal(close, n, i);
    assert(close.take(n)[i] == close[i]);
    if i >= 2 {
        assert(low.take(n)[i - 2] == low[i - 2]);
        assert(high.take(n)[i - 2] == high[i - 2]);
    }
    assert forall|state: (int, int)|
        countdown_counts(high, low, close, state, i) == #[trigger] countdown_counts(
            high.take(n),
            low.take(n),
            close.take(n),
            state,
            i,
        ) by {
        assert(countdown_qualifies(high, low, close, state.0, i) == countdown_qualifies(
            high.take(n),
            low.take(n),
            close.take(n),
            state.0,
            i,
        ));
    }
}

/// TD countdown values are causal: the value at bar `i` is the same whether
/// or not later bars are present.
pub proof fn td_countdown_is_causal(high: Seq<Observation>, low: Seq<Observation>, close: Seq<Observation>, n: int, i: int)
    requires
        0 <= i < n <= close.len(),
        high.len() == close.len(),
        low.len() == close.len(),
    ensures
        countdown_value(high, low, close, i) == countdown_value(high.take(n), low.take(n), close.take(n), i),
{
    countdown_before_is_causal(high, low, close, n, i);
    countdown_step_is_causal(high, low, close, n, i);
}

/// A setup count reached nine (in either direction) at or before bar `i`.
pub open spec fn setup_completed_by(close: Seq<Observation>, i: int) -> bool {
    exists|j: int| 0 <= j <= i && (#[trigger] setup_count(close, j) == 9 || setup_count(close, j) == -9)
}

proof fn countdown_armed_only_after_setup(high: Seq<Observation>, low: Seq<Observation>, close: Seq<Observation>, i: int)
    requires
        i >= 0,
        countdown_before(high, low, close, i).0 != 0,
    ensures
        setup_completed_by(close, i - 1),
    decreases i,
{
    if i > 0 {
        let previous = countdown_before(high, low, close, i - 1);
        let sc = setup_count(close, i - 1);
        if sc == 9 || sc == -9 {
            assert(setup_count(close, i - 1) == 9 || setup_count(close, i - 1) == -9);
        } else {
            assert(countdown_armed(previous, sc) == previous);
            countdown_armed_only_after_setup(high, low, close, i - 1);
            let j = choose|j: int| 0 <= j <= i - 2 && (#[trigger] setup_count(close, j) == 9 || setup_count(close, j) == -9);
            assert(setup_count(close, j) == 9 || setup_count(close, j) == -9);
        }
    }
}

/// A TD countdown only counts after a nine-bar setup has completed, and its
/// values never exceed thirteen in magnitude.
pub proof fn td_countdown_follows_a_setup_and_stops_at_thirteen(
    high: Seq<Observation>,
    low: Seq<Observation>,
    close: Seq<Observation>,
    i: int,
)
    requires
        0 <= i,
    ensures
        -13 <= countdown_value(high, low, close, i) <= 13,
        countdown_value(high, low, close, i) != 0 ==> setup_completed_by(close, i),
{
    crate::transform::lemma_countdown_value_bounds(high, low, close, i);
    if countdown_value(high, low, close, i) != 0 {
        let previous = countdown_before(high, low, close, i);
        let sc = setup_count(close, i);
        if sc == 9 || sc == -9 {
            assert(setup_count(close, i) == 9 || setup_count(close, i) == -9);
        } else {
            countdown_armed_only_after_setup(high, low, close, i);
            let j = choose|j: int| 0 <= j <= i - 1 && (#[trigger] setup_count(close, j) == 9 || setup_count(close, j) == -9);
            assert(setup_count(close, j) == 9 || setup_count(close, j) == -9);
        }
    }
}

/// Trailing support never exceeds trailing resistance: when each bar's low is
/// at most its high, the lowest low of a window is at most its highest high.
pub proof fn support_never_exceeds_resistance(
    high: Seq<Observation>,
    low: Seq<Observation>,
    period: nat,
    i: int,
    resistance: Option<usize>,
    support: Option<usize>,
)
    requires
        0 <= i < high.len(),
        high.len() == low.len(),
        extreme_position_ok(high, Extreme::Maximum, Tie::Earliest, period, i, resistance),
        extreme_position_ok(low, Extreme::Minimum, Tie::Earliest, period, i, support),
        forall|j: int| 0 <= j <= i && (#[trigger] high[j]) is Some && low[j] is Some ==> key(low[j]) <= key(high[j]),
    ensures
        resistance is Some && support is Some ==> key(low[support->0 as int]) <= key(high[resistance->0 as int]),
{
    if let (Some(r), Some(s)) = (resistance, support) {
        let lo = i + 1 - period;
        assert(high[s as int] is Some);
        assert(key(low[s as int]) <= key(high[s as int]));
        assert(is_window_extreme(high, Extreme::Maximum, Tie::Earliest, lo, i + 1, r as int));
        assert(lo <= s < i + 1);
        assert(crate::window::prefers(Extreme::Maximum, key(high[r as int]), key(high[s as int])));
    }
}

/// Aroon offsets are causal: the offsets reported for bar `i` are the same
/// whether or not later bars are present.
pub proof fn aroon_offsets_are_causal(
    high: Seq<Observation>,
    low: Seq<Observation>,
    n: int,
    period: nat,
    i: int,
    full: Option<(usize, usize)>,
    prefix: Option<(usize, usize)>,
)
    requires
        0 <= i < n <= high.len(),
        low.len() == high.len(),
        aroon_offsets_ok(high, low, period, i, full),
        aroon_offsets_ok(high.take(n), low.take(n), period, i, prefix),
    ensures
        full == prefix,
{
    window_complete_is_causal(high, n, period, i);
    window_complete_is_causal(low, n, period, i);
    if let Some((up, down)) = full {
        let (up2, down2) = prefix->0;
        let lo = i + 1 - period;
        let th = high.take(n);
        let tl = low.take(n);
        assert(is_window_extreme(high, Extreme::Maximum, Tie::Latest, lo, i + 1, lo + up2)) by {
            assert forall|j: int| lo <= j < i + 1 implies #[trigger] high[j] == th[j] by {}
        }
        assert(is_window_extreme(low, Extreme::Minimum, Tie::Latest, lo, i + 1, lo + down2)) by {
            assert forall|j: int| lo <= j < i + 1 implies #[trigger] low[j] == tl[j] by {}
        }
        window_extreme_is_unique(high, Extreme::Maximum, Tie::Latest, lo, i + 1, lo + up, lo + up2);
        window_extreme_is_unique(low, Extreme::Minimum, Tie::Latest, lo, i + 1, lo + down, lo + down2);
    }
}

/// Lags are causal: the value shifted into bar `i` comes from an earlier bar,
/// so it is the same whether or not later values are present.
pub proof fn lags_are_causal<T>(s: Seq<T>, n: int, period: nat, full: Seq<Option<T>>, prefix: Seq<Option<T>>)
    requires
        0 <= n <= s.len(),
        full.len() == s.len(),
        prefix.len() == n,
        forall|i: int| 0 <= i < s.len() ==> #[trigger] full[i] == if i >= period { Some(s[i - period]) } else { None::<T> },
        forall|i: int| 0 <= i < n ==> #[trigger] prefix[i] == if i >= period { Some(s.take(n)[i - period]) } else { None::<T> },
    ensures
        full.take(n) == prefix,
{
    assert forall|i: int| 0 <= i < n implies #[trigger] full.take(n)[i] == prefix[i] by {
        assert(full[i] == full.take(n)[i]);
        assert(prefix[i] == if i >= period { Some(s.take(n)[i - period]) } else { None::<T> });
    }
    assert(full.take(n) =~= prefix);
}

/// The missing-value mask is causal: each entry depends only on its own bar.
pub proof fn na_check_is_causal(s: Seq<Observation>, n: int, full: Seq<bool>, prefix: Seq<bool>)
    requires
        0 <= n <= s.len(),
        full.len() == s.len(),
        prefix.len() == n,
        forall|i: int| 0 <= i < s.len() ==> #[trigger] full[i] == (s[i] is None),
        forall|i: int| 0 <= i < n ==> #[trigger] prefix[i] == (s.take(n)[i] is None),
    ensures
        full.take(n) == prefix,
{
    assert forall|i: int| 0 <= i < n implies #[trigger] full.take(n)[i] == prefix[i] by {
        assert(full[i] == full.take(n)[i]);
        assert(prefix[i] == (s.take(n)[i] is None));
    }
    assert(full.take(n) =~= prefix);
}

/// On-Balance Volume of a series whose close never changes stays at zero:
/// no bar adds or subtracts its volume.
pub proof fn flat_close_keeps_obv_at_zero(close: Seq<Observation>, volume: Seq<Observation>, i: int)
    requires
        0 <= i < close.len(),
        forall|j: int, k: int|
            0 <= j < close.len() && 0 <= k < close.len() && (#[trigger] close[j]) is Some && (#[trigger] close[k]) is Some
                ==> key(close[j]) == key(close[k]),
    ensures
        obv_step(close, volume, i) is None || obv_step(close, volume, i) == Some(0i8),
{
    if i > 0 && close[i] is Some && close[i - 1] is Some {
        assert(key(close[i]) == key(close[i - 1]));
    }
}

/// On-Balance Volume steps are causal: the step at bar `i` is the same
/// whether or not later bars are present.
pub proof fn obv_steps_are_causal(close: Seq<Observation>, volume: Seq<Observation>, n: int, i: int)
    requires
        0 <= i < n <= close.len(),
        volume.len() == close.len(),
    ensures
        obv_step(close, volume, i) == obv_step(close.take(n), volume.take(n), i),
{
    assert(close.take(n)[i] == close[i] && volume.take(n)[i] == volume[i]);
    if i > 0 {
        assert(close.take(n)[i - 1] == close[i - 1] && volume.take(n)[i - 1] == volume[i - 1]);
    }
}

/// Warmup: no window of `period` observations is complete before the
/// series holds `period` values.
pub proof fn warmup_positions_are_incomplete(s: Seq<Observation>, period: nat, i: int)
    requires
        0 <= i,
        i + 1 < period,
    ensures
        !window_complete(s, period, i),
{
}

/// A missing value invalidates every window that contains it: the `period`
/// positions from it onwards report nothing, and reporting resumes only once
/// `period` finite values follow it.
pub proof fn missing_value_invalidates_its_windows(s: Seq<Observation>, period: nat, j: int, i: int)
    requires
        0 <= j < s.len(),
        s[j] is None,
        j <= i < j + period,
    ensures
        !window_complete(s, period, i),
{
    if i + 1 >= period {
        assert(i + 1 - period <= j < i + 1);
    }
}

/// Number of bars in `[from, to)` at which the TD countdown reported a count.
pub open spec fn counted_since(high: Seq<Observation>, low: Seq<Observation>, close: Seq<Observation>, from: int, to: int) -> nat
    decreases to - from,
{
    if to <= from {
        0
    } else {
        counted_since(high, low, close, from, to - 1) + if countdown_value(high, low, close, to - 1) != 0 {
            1nat
        } else {
            0nat
        }
    }
}

/// Bar `i` qualifies for a countdown in direction `d`, stated on the prices:
/// a buy bar (`d == 1`) closes at or below the low two bars earlier, a sell
/// bar (`d == -1`) closes at or above the high two bars earlier.
pub open spec fn countdown_bar(high: Seq<Observation>, low: Seq<Observation>, close: Seq<Observation>, d: int, i: int) -> bool {
    &&& i >= 2
    &&& close[i] is Some
    &&& if d == 1 {
        low[i - 2] is Some && key(close[i]) <= key(low[i - 2])
    } else {
        high[i - 2] is Some && key(close[i]) >= key(high[i - 2])
    }
}

proof fn countdown_state_since_setup(high: Seq<Observation>, low: Seq<Observation>, close: Seq<Observation>, d: int, j: int, i: int)
    requires
        d == 1 || d == -1,
        0 <= j <= i,
        setup_count(close, j) == 9 * d,
        forall|m: int| j < m <= i ==> #[trigger] setup_count(close, m) != 9 && setup_count(close, m) != -9,
    ensures
        counted_since(high, low, close, j, i) <= 13,
        countdown_armed(countdown_before(high, low, close, i), setup_count(close, i)) == (
            if counted_since(high, low, close, j, i) < 13 { d } else { 0 },
            d * counted_since(high, low, close, j, i),
        ),
    decreases i - j,
{
    if i > j {
        countdown_state_since_setup(high, low, close, d, j, i - 1);
        let k = counted_since(high, low, close, j, i - 1);
        let armed = countdown_armed(countdown_before(high, low, close, i - 1), setup_count(close, i - 1));
        assert(setup_count(close, i) != 9 && setup_count(close, i) != -9);
        if d == 1 {
            assert(armed.1 == k);
        } else {
            assert(armed.1 == -k);
        }
    }
}

/// How a TD countdown counts once armed. Let a setup count reach `9 * d` at
/// bar `j` (`d == 1` buy, `d == -1` sell) with no setup count of nine in
/// either direction after it up to bar `i`. While fewer than thirteen bars
/// have counted since `j`, bar `i` reports `d` times one more than that
/// number exactly when it qualifies on the prices (a buy bar closes at or
/// below the low two bars earlier, a sell bar at or above the high two bars
/// earlier), and reports zero otherwise; after thirteen it reports zero.
pub proof fn td_countdown_counts_qualifying_bars(
    high: Seq<Observation>,
    low: Seq<Observation>,
    close: Seq<Observation>,
    d: int,
    j: int,
    i: int,
)
    requires
        d == 1 || d == -1,
        0 <= j <= i,
        setup_count(close, j) == 9 * d,
        forall|m: int| j < m <= i ==> #[trigger] setup_count(close, m) != 9 && setup_count(close, m) != -9,
    ensures
        counted_since(high, low, close, j, i) <= 13,
        countdown_value(high, low, close, i) == if counted_since(high, low, close, j, i) < 13 && countdown_bar(
            high,
            low,
            close,
            d,
            i,
        ) {
            d * (counted_since(high, low, close, j, i) + 1)
        } else {
            0
        },
{
    countdown_state_since_setup(high, low, close, d, j, i);
    let k = counted_since(high, low, close, j, i);
    if d == 1 {
        assert(d * (k + 1) == k + 1);
    } else {
        assert(d * (k + 1) == -(k + 1));
    }
}

/// On-Balance Volume steps depend on the volume only through its presence:
/// a bar with no traded volume is as valid as any other.
pub proof fn obv_steps_ignore_volume_size(close: Seq<Observation>, volume: Seq<Observation>, other: Seq<Observation>, i: int)
    requires
        1 <= i < close.len(),
        volume.len() == close.len(),
        other.len() == close.len(),
        forall|m: int| 0 <= m < close.len() ==> (#[trigger] volume[m] is Some) == (other[m] is Some),
    ensures
        obv_step(close, volume, i) == obv_step(close, other, i),
        obv_step(close, volume, 0) == obv_step(close, other, 0),
{
    assert(volume[i] is Some == other[i] is Some);
    assert(volume[i - 1] is Some == other[i - 1] is Some);
    assert(volume[0] is Some == other[0] is Some);
}

/// What an On-Balance Volume step is, stated on the prices: nothing exactly
/// when the close or the volume of the bar is missing; zero at the first bar
/// and after a missing bar; otherwise the sign of the change of the close,
/// whatever the (present) volumes are.
pub proof fn obv_step_is_the_sign_of_the_close_change(close: Seq<Observation>, volume: Seq<Observation>, i: int)
    requires
        0 <= i < close.len(),
        volume.len() == close.len(),
    ensures
        obv_step(close, volume, i) is None <==> (close[i] is None || volume[i] is None),
        close[i] is Some && volume[i] is Some && (i == 0 || close[i - 1] is None || volume[i - 1] is None)
            ==> obv_step(close, volume, i) == Some(0i8),
        i >= 1 && close[i] is Some && volume[i] is Some && close[i - 1] is Some && volume[i - 1] is Some
            ==> obv_step(close, volume, i) == Some(
            if key(close[i]) > key(close[i - 1]) {
                1i8
            } else if key(close[i]) < key(close[i - 1]) {
                -1i8
            } else {
                0i8
            },
        ),
{
}

/// What a TD setup count is, stated on the closes: zero unless the close and
/// the close four bars earlier are present and differ; otherwise positive
/// (buy) when the close is below the close four bars earlier and negative
/// (sell) when above, one further from zero than the previous bar's count when
/// that count has the same sign, and `1` or `-1` when it does not.
pub proof fn td_setup_counts_consecutive_bars(close: Seq<Observation>, i: int)
    requires
        0 <= i < close.len(),
    ensures
        (i < 4 || close[i] is None || close[i - 4] is None || key(close[i]) == key(close[i - 4])) ==> setup_count(close, i) == 0,
        i >= 4 && close[i] is Some && close[i - 4] is Some && key(close[i]) < key(close[i - 4]) ==> setup_count(close, i) == if setup_count(close, i - 1) > 0 {
            setup_count(close, i - 1) + 1
        } else {
            1
        },
        i >= 4 && close[i] is Some && close[i - 4] is Some && key(close[i]) > key(close[i - 4]) ==> setup_count(close, i) == if setup_count(close, i - 1) < 0 {
            setup_count(close, i - 1) - 1
        } else {
            -1
        },
{
    let d = setup_direction(close, i);
    if i >= 1 {
        let p = setup_direction(close, i - 1);
        if p == 1 {
            assert(setup_count(close, i - 1) == setup_run(close, i - 1));
            if i - 1 >= 4 {
                assert(setup_run(close, i - 1) > 0);
            }
        } else if p == -1 {
            assert(setup_count(close, i - 1) == -setup_run(close, i - 1));
            if i - 1 >= 4 {
                assert(setup_run(close, i - 1) > 0);
            }
        } else {
            assert(setup_count(close, i - 1) == 0);
        }
        if d == 1 {
            assert(setup_count(close, i) == setup_run(close, i));
        } else if d == -1 {
            assert(setup_count(close, i) == -setup_run(close, i));
        }
    }
}

/// Each volatility estimator reads exactly the prices of its formula, from
/// the second bar on: close-to-close the close and previous close, Parkinson
/// the high and low, Garman-Klass and Rogers-Satchell the bar's open, high,
/// low and close, and Yang-Zhang those and the previous close; each must be
/// finite and positive.
pub proof fn estimators_read_their_formula_prices(
    open: Seq<Observation>,
    high: Seq<Observation>,
    low: Seq<Observation>,
    close: Seq<Observation>,
    i: int,
)
    ensures
        usable_row(open, high, low, close, VolatilityEstimator::CloseToClose, i) <==> (i >= 1 && positive_price(close[i])
            && positive_price(close[i - 1])),
        usable_row(open, high, low, close, VolatilityEstimator::Parkinson, i) <==> (i >= 1 && positive_price(high[i])
            && positive_price(low[i])),
        usable_row(open, high, low, close, VolatilityEstimator::GarmanKlass, i) <==> (i >= 1 && positive_price(open[i])
            && positive_price(high[i]) && positive_price(low[i]) && positive_price(close[i])),
        usable_row(open, high, low, close, VolatilityEstimator::RogersSatchell, i) <==> (i >= 1 && positive_price(
            open[i],
        ) && positive_price(high[i]) && positive_price(low[i]) && positive_price(close[i])),
        usable_row(open, high, low, close, VolatilityEstimator::YangZhang, i) <==> (i >= 1 && positive_price(open[i])
            && positive_price(high[i]) && positive_price(low[i]) && positive_price(close[i]) && positive_price(
            close[i - 1],
        )),
{
}

/// The number a sequence of decimal digit characters denotes.
pub open spec fn digits_value(digits: Seq<char>) -> int
    decreases digits.len(),
{
    if digits.len() == 0 {
        0
    } else {
        digits_value(digits.drop_last()) * 10 + (digits.last() as int - 48)
    }
}

/// Error messages write lengths in ordinary decimal: only the digits `0` to
/// `9`, no leading zero, and reading the digits back gives the length.
pub proof fn lengths_are_written_in_decimal(n: nat)
    ensures
        decimal(n).len() >= 1,
        forall|k: int| 0 <= k < decimal(n).len() ==> '0' <= #[trigger] decimal(n)[k] <= '9',
        decimal(n)[0] != '0' || n == 0,
        digits_value(decimal(n)) == n,
    decreases n,
{
    assert(digit_char(n % 10) as int == 48 + n % 10);
    if n >= 10 {
        lengths_are_written_in_decimal(n / 10);
        let d = decimal(n);
        assert(d.drop_last() =~= decimal(n / 10));
        assert(d.last() == digit_char(n % 10));
        assert(digits_value(d) == digits_value(d.drop_last()) * 10 + (d.last() as int - 48));
        assert(digits_value(d) == (n / 10) * 10 + n % 10);
        assert forall|k: int| 0 <= k < d.len() implies '0' <= #[trigger] d[k] <= '9' by {
            if k < d.len() - 1 {
                assert(d[k] == decimal(n / 10)[k]);
            }
        }
        assert(d[0] == decimal(n / 10)[0]);
    } else {
        assert(decimal(n).drop_last() =~= Seq::<char>::empty());
        assert(digits_value(decimal(n)) == digits_value(decimal(n).drop_last()) * 10 + (decimal(n).last() as int - 48));
    }
}

} // verus!
