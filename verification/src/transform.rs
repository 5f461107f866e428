use vstd::prelude::*;

use crate::error::IndicatorError;
use crate::observation::{key, window_complete, Observation};
use crate::validation;
use crate::window::{extreme_position_ok, is_window_extreme, rolling_extreme, Extreme, Tie};

verus! {

/// Direction of the DeMark setup comparison at bar `i`: `1` when the close is
/// below the close four bars earlier (buy setup), `-1` when it is above (sell
/// setup), and `0` when they are equal, either is missing, or `i < 4`.
pub open spec fn setup_direction(close: Seq<Observation>, i: int) -> int {
    if i < 4 || i >= close.len() || close[i] is None || close[i - 4] is None {
        0
    } else if key(close[i]) < key(close[i - 4]) {
        1
    } else if key(close[i]) > key(close[i - 4]) {
        -1
    } else {
        0
    }
}

/// Length of the run of consecutive bars ending at `i` that share bar `i`'s
/// non-zero setup direction.
pub open spec fn setup_run(close: Seq<Observation>, i: int) -> nat
    decreases i,
{
    if i < 4 || setup_direction(close, i) == 0 {
        0
    } else if setup_direction(close, i - 1) == setup_direction(close, i) {
        setup_run(close, i - 1) + 1
    } else {
        1
    }
}

/// The signed setup count at bar `i`.
pub open spec fn setup_count(close: Seq<Observation>, i: int) -> int {
    setup_direction(close, i) * setup_run(close, i)
}

proof fn lemma_setup_run_bound(close: Seq<Observation>, i: int)
    ensures
        setup_run(close, i) <= if i < 3 { 0 } else { i - 3 },
    decreases i,
{
    if i >= 4 {
        lemma_setup_run_bound(close, i - 1);
    }
}

/// Tom DeMark Setup counts.
///
/// Positive values count consecutive buy setup bars, where the close is below
/// the close four bars earlier; negative values count the analogous sell
/// setup. A missing value or an unchanged close ends the run.
pub fn td_setup(close: &[Observation]) -> (result: Result<Vec<i32>, IndicatorError>)
    requires
        close.len() <= i32::MAX,
    ensures
        result matches Ok(out) && out.len() == close.len()
            && forall|i: int| 0 <= i < close.len() ==> #[trigger] out@[i] as int == setup_count(close@, i),
{
    let ghost s = close@;
    let mut output: Vec<i32> = Vec::new();
    let mut direction: i8 = 0;
    let mut count: i32 = 0;
    let mut index: usize = 0;
    while index < close.len()
        invariant
            s == close@,
            close.len() <= i32::MAX,
            index <= close.len(),
            output@.len() == index,
            forall|i: int| 0 <= i < index ==> #[trigger] output@[i] as int == setup_count(s, i),
            direction as int == setup_direction(s, index - 1),
            count as int == setup_count(s, index - 1),
        decreases close.len() - index,
    {
        proof {
            lemma_setup_run_bound(s, index as int);
            lemma_setup_run_bound(s, index - 1);
            if direction == 1 {
                assert(count as int == setup_run(s, index - 1));
            } else if direction == -1 {
                assert(count as int == -setup_run(s, index - 1));
            }
        }
        if index < 4 {
            output.push(0);
        } else {
            match (close[index], close[index - 4]) {
                (Some(now), Some(before)) => {
                    let next_direction: i8 = if now < before {
                        1
                    } else if now > before {
                        -1
                    } else {
                        0
                    };
                    if next_direction == 0 {
                        direction = 0;
                        count = 0;
                    } else if next_direction == direction {
                        if next_direction > 0 {
                            count = count + 1;
                        } else {
                            count = count - 1;
                        }
                    } else {
                        direction = next_direction;
                        count = next_direction as i32;
                    }
                }
                _ => {
                    direction = 0;
                    count = 0;
                }
            }
            proof {
                let d = setup_direction(s, index as int);
                assert(direction as int == d);
                if d == 1 {
                    assert(setup_count(s, index as int) == setup_run(s, index as int));
                } else if d == -1 {
                    assert(setup_count(s, index as int) == -setup_run(s, index as int));
                }
            }
            output.push(count);
        }
        index += 1;
    }
    Ok(output)
}

/// Arms the countdown, with a fresh count, at the bar where a setup count
/// reaches nine in either direction.
pub open spec fn countdown_armed(previous: (int, int), setup: int) -> (int, int) {
    if setup == 9 {
        (1, 0)
    } else if setup == -9 {
        (-1, 0)
    } else {
        previous
    }
}

/// Bar `i` qualifies for a countdown in `direction`: a buy countdown needs
/// the close at or below the low two bars earlier, a sell countdown the close
/// at or above the high two bars earlier.
pub open spec fn countdown_qualifies(
    high: Seq<Observation>,
    low: Seq<Observation>,
    close: Seq<Observation>,
    direction: int,
    i: int,
) -> bool {
    &&& i >= 2
    &&& close[i] is Some
    &&& if direction > 0 {
        low[i - 2] is Some && key(close[i]) <= key(low[i - 2])
    } else if direction < 0 {
        high[i - 2] is Some && key(close[i]) >= key(high[i - 2])
    } else {
        false
    }
}

/// The armed countdown `state` advances at bar `i`.
pub open spec fn countdown_counts(
    high: Seq<Observation>,
    low: Seq<Observation>,
    close: Seq<Observation>,
    state: (int, int),
    i: int,
) -> bool {
    countdown_qualifies(high, low, close, state.0, i) && -13 < state.1 < 13
}

/// Countdown state before bar `i` is examined: `(direction, count)`.
pub open spec fn countdown_before(high: Seq<Observation>, low: Seq<Observation>, close: Seq<Observation>, i: int) -> (int, int)
    decreases i,
{
    if i <= 0 {
        (0, 0)
    } else {
        let armed = countdown_armed(countdown_before(high, low, close, i - 1), setup_count(close, i - 1));
        if countdown_counts(high, low, close, armed, i - 1) {
            let next = armed.1 + armed.0;
            (if next == 13 || next == -13 { 0 } else { armed.0 }, next)
        } else {
            armed
        }
    }
}

/// The countdown value reported at bar `i`: the new signed count when the
/// bar advances the countdown, else zero.
pub open spec fn countdown_value(high: Seq<Observation>, low: Seq<Observation>, close: Seq<Observation>, i: int) -> int {
    let armed = countdown_armed(countdown_before(high, low, close, i), setup_count(close, i));
    if countdown_counts(high, low, close, armed, i) {
        armed.1 + armed.0
    } else {
        0
    }
}

proof fn lemma_countdown_bounds(high: Seq<Observation>, low: Seq<Observation>, close: Seq<Observation>, i: int)
    ensures
        -1 <= countdown_before(high, low, close, i).0 <= 1,
        -13 <= countdown_before(high, low, close, i).1 <= 13,
    decreases i,
{
    if i > 0 {
        lemma_countdown_bounds(high, low, close, i - 1);
    }
}

/// Reported countdown values never exceed thirteen in magnitude.
pub proof fn lemma_countdown_value_bounds(high: Seq<Observation>, low: Seq<Observation>, close: Seq<Observation>, i: int)
    ensures
        -13 <= countdown_value(high, low, close, i) <= 13,
{
    lemma_countdown_bounds(high, low, close, i);
}

/// The error for a mismatched named input.
pub open spec fn length_mismatch(input: &'static str, expected: usize, actual: usize) -> IndicatorError {
    IndicatorError::LengthMismatch { input, expected, actual }
}

/// Tom DeMark Countdown counts following a completed nine-bar setup.
///
/// A countdown begins at the bar where a setup count first reaches nine;
/// later bars of the same setup run do not restart it.
/// Buy countdown bars require the close at or below the low two bars earlier;
/// sell countdown bars require the close at or above the high two bars
/// earlier. Counts need not occur on consecutive bars and stop at thirteen.
pub fn td_countdown(high: &[Observation], low: &[Observation], close: &[Observation]) -> (result: Result<Vec<i32>, IndicatorError>)
    requires
        close.len() <= i32::MAX,
    ensures
        low.len() != high.len() ==> result == Err::<Vec<i32>, IndicatorError>(length_mismatch("low", high.len(), low.len())),
        low.len() == high.len() && close.len() != high.len() ==> result == Err::<Vec<i32>, IndicatorError>(
            length_mismatch("close", high.len(), close.len()),
        ),
        low.len() == high.len() && close.len() == high.len() ==> (result matches Ok(out) && out.len() == close.len()
            && forall|i: int| 0 <= i < close.len() ==> #[trigger] out@[i] as int == countdown_value(high@, low@, close@, i)),
{
    let lengths = [("low", low.len()), ("close", close.len())];
    validation::same_length(high.len(), &lengths)?;
    let setup = td_setup(close)?;
    let mut output: Vec<i32> = Vec::new();
    let mut direction: i8 = 0;
    let mut count: i32 = 0;
    let mut index: usize = 0;
    while index < close.len()
        invariant
            low.len() == high.len() && close.len() == high.len(),
            setup.len() == close.len(),
            forall|i: int| 0 <= i < close.len() ==> #[trigger] setup@[i] as int == setup_count(close@, i),
            index <= close.len(),
            output@.len() == index,
            forall|i: int| 0 <= i < index ==> #[trigger] output@[i] as int == countdown_value(high@, low@, close@, i),
            (direction as int, count as int) == countdown_before(high@, low@, close@, index as int),
        decreases close.len() - index,
    {
        proof {
            lemma_countdown_bounds(high@, low@, close@, index as int);
        }
        if setup[index] == 9 {
            direction = 1;
            count = 0;
        } else if setup[index] == -9 {
            direction = -1;
            count = 0;
        }
        let mut value: i32 = 0;
        if direction != 0 && index >= 2 && close[index].is_some() {
            let now = close[index].unwrap();
            let qualifies = if direction > 0 {
                match low[index - 2] {
                    Some(bound) => now <= bound,
                    None => false,
                }
            } else {
                match high[index - 2] {
                    Some(bound) => now >= bound,
                    None => false,
                }
            };
            if qualifies && -13 < count && count < 13 {
                count = count + direction as i32;
                value = count;
                if count == 13 || count == -13 {
                    direction = 0;
                }
            }
        }
        output.push(value);
        index += 1;
    }
    Ok(output)
}

/// What Aroon reports at bar `i`: when the trailing windows of `period` highs
/// and lows are complete, the offsets within the window of the latest highest
/// high and the latest lowest low; else nothing.
pub open spec fn aroon_offsets_ok(
    high: Seq<Observation>,
    low: Seq<Observation>,
    period: nat,
    i: int,
    result: Option<(usize, usize)>,
) -> bool {
    &&& (result is Some <==> window_complete(high, period, i) && window_complete(low, period, i))
    &&& (result matches Some((up, down)) ==> {
        &&& up < period && down < period
        &&& is_window_extreme(high, Extreme::Maximum, Tie::Latest, i + 1 - period, i + 1, i + 1 - period + up)
        &&& is_window_extreme(low, Extreme::Minimum, Tie::Latest, i + 1 - period, i + 1, i + 1 - period + down)
    })
}

/// Aroon recency offsets: for each complete window, how many bars after the
/// window start the latest highest high and latest lowest low occur, found
/// in a single pass by two monotone queues. Aroon up
/// and down are these offsets scaled by `100 / (period - 1)`, so they lie
/// between 0 and 100.
pub fn aroon_offsets(high: &[Observation], low: &[Observation], period: usize) -> (result: Result<
    Vec<Option<(usize, usize)>>,
    IndicatorError,
>)
    ensures
        low.len() != high.len() ==> result == Err::<Vec<Option<(usize, usize)>>, IndicatorError>(
            length_mismatch("low", high.len(), low.len()),
        ),
        low.len() == high.len() && period == 0 ==> result == Err::<Vec<Option<(usize, usize)>>, IndicatorError>(
            IndicatorError::InvalidPeriod,
        ),
        low.len() == high.len() && period == 1 ==> result == Err::<Vec<Option<(usize, usize)>>, IndicatorError>(
            IndicatorError::InvalidParameter("aroon period"),
        ),
        low.len() == high.len() && period >= 2 ==> (result matches Ok(out) && out.len() == high.len()
            && forall|i: int| 0 <= i < high.len() ==> aroon_offsets_ok(high@, low@, period as nat, i, #[trigger] out@[i])),
{
    let lengths = [("low", low.len())];
    validation::same_length(high.len(), &lengths)?;
    validation::period(period)?;
    if period < 2 {
        return Err(IndicatorError::InvalidParameter("aroon period"));
    }
    let highest = rolling_extreme(high, period, Extreme::Maximum, Tie::Latest)?;
    let lowest = rolling_extreme(low, period, Extreme::Minimum, Tie::Latest)?;
    let mut output: Vec<Option<(usize, usize)>> = Vec::new();
    let mut index: usize = 0;
    while index < high.len()
        invariant
            low.len() == high.len(),
            period >= 2,
            highest.len() == high.len(),
            lowest.len() == high.len(),
            forall|i: int| 0 <= i < high.len() ==> extreme_position_ok(high@, Extreme::Maximum, Tie::Latest, period as nat, i, #[trigger] highest@[i]),
            forall|i: int| 0 <= i < high.len() ==> extreme_position_ok(low@, Extreme::Minimum, Tie::Latest, period as nat, i, #[trigger] lowest@[i]),
            index <= high.len(),
            output@.len() == index,
            forall|i: int| 0 <= i < index ==> aroon_offsets_ok(high@, low@, period as nat, i, #[trigger] output@[i]),
        decreases high.len() - index,
    {
        assert(extreme_position_ok(high@, Extreme::Maximum, Tie::Latest, period as nat, index as int, highest@[index as int]));
        assert(extreme_position_ok(low@, Extreme::Minimum, Tie::Latest, period as nat, index as int, lowest@[index as int]));
        match (highest[index], lowest[index]) {
            (Some(top), Some(bottom)) => {
                let start = index + 1 - period;
                output.push(Some((top - start, bottom - start)));
            },
            _ => output.push(None),
        }
        index += 1;
    }
    Ok(output)
}

/// A mask that is true exactly at the missing (NaN or infinite) observations.
pub fn na_check(input: &[Observation]) -> (result: Result<Vec<bool>, IndicatorError>)
    ensures
        result matches Ok(out) && out.len() == input.len()
            && forall|i: int| 0 <= i < input.len() ==> #[trigger] out@[i] == (input@[i] is None),
{
    let mut output: Vec<bool> = Vec::new();
    let mut index: usize = 0;
    while index < input.len()
        invariant
            index <= input.len(),
            output@.len() == index,
            forall|i: int| 0 <= i < index ==> #[trigger] output@[i] == (input@[i] is None),
        decreases input.len() - index,
    {
        output.push(input[index].is_none());
        index += 1;
    }
    Ok(output)
}

/// Shifts a series back by `period` positions; the leading `period`
/// positions have no value.
pub fn lags<T: Copy>(input: &[T], period: usize) -> (result: Result<Vec<Option<T>>, IndicatorError>)
    ensures
        period == 0 ==> result == Err::<Vec<Option<T>>, IndicatorError>(IndicatorError::InvalidPeriod),
        period != 0 ==> (result matches Ok(out) && out.len() == input.len()
            && forall|i: int| 0 <= i < input.len() ==> #[trigger] out@[i] == if i >= period {
                Some(input@[i - period])
            } else {
                None::<T>
            }),
{
    validation::period(period)?;
    let mut output: Vec<Option<T>> = Vec::new();
    let mut index: usize = 0;
    while index < input.len()
        invariant
            index <= input.len(),
            output@.len() == index,
            forall|i: int| 0 <= i < index ==> #[trigger] output@[i] == if i >= period {
                Some(input@[i - period])
            } else {
                None::<T>
            },
        decreases input.len() - index,
    {
        if index >= period {
            output.push(Some(input[index - period]));
        } else {
            output.push(None);
        }
        index += 1;
    }
    Ok(output)
}

} // verus!
