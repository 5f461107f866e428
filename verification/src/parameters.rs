//! Parameter rules of the operators: which integer configurations are
//! accepted, and which error each rejected one reports first.
use vstd::prelude::*;

use crate::error::IndicatorError;
use crate::validation;

verus! {

/// Rejects any zero among `periods`.
pub fn positive_periods(periods: &[usize]) -> (result: Result<(), IndicatorError>)
    ensures
        (forall|i: int| 0 <= i < periods.len() ==> #[trigger] periods@[i] > 0) ==> result is Ok,
        !(forall|i: int| 0 <= i < periods.len() ==> #[trigger] periods@[i] > 0) ==> result == Err::<(), IndicatorError>(
            IndicatorError::InvalidPeriod,
        ),
{
    let mut index: usize = 0;
    while index < periods.len()
        invariant
            index <= periods.len(),
            forall|i: int| 0 <= i < index ==> #[trigger] periods@[i] > 0,
        decreases periods.len() - index,
    {
        validation::period(periods[index])?;
        index += 1;
    }
    Ok(())
}

/// MACD periods: each must be positive, and the fast period shorter than the slow one.
pub fn macd_periods(fast_period: usize, slow_period: usize, signal_period: usize) -> (result: Result<(), IndicatorError>)
    ensures
        fast_period == 0 || slow_period == 0 || signal_period == 0 ==> result == Err::<(), IndicatorError>(
            IndicatorError::InvalidPeriod,
        ),
        fast_period > 0 && slow_period > 0 && signal_period > 0 && fast_period >= slow_period ==> result == Err::<
            (),
            IndicatorError,
        >(IndicatorError::InvalidParameter("fast_period")),
        0 < fast_period < slow_period && signal_period > 0 ==> result is Ok,
{
    validation::period(fast_period)?;
    validation::period(slow_period)?;
    validation::period(signal_period)?;
    if fast_period >= slow_period {
        return Err(IndicatorError::InvalidParameter("fast_period"));
    }
    Ok(())
}

/// Percentage Price Oscillator periods: the fast period must be shorter than
/// the slow one, and positive.
pub fn po_periods(fast_period: usize, slow_period: usize) -> (result: Result<(), IndicatorError>)
    ensures
        fast_period >= slow_period ==> result == Err::<(), IndicatorError>(IndicatorError::InvalidParameter("fast_period")),
        fast_period < slow_period && fast_period == 0 ==> result == Err::<(), IndicatorError>(
            IndicatorError::InvalidPeriod,
        ),
        0 < fast_period < slow_period ==> result is Ok,
{
    if fast_period >= slow_period {
        return Err(IndicatorError::InvalidParameter("fast_period"));
    }
    validation::period(fast_period)
}

/// Trend Detection Index periods: both positive, the long one at least the short one.
pub fn tdi_periods(period: usize, long_period: usize) -> (result: Result<(), IndicatorError>)
    ensures
        period == 0 || long_period == 0 ==> result == Err::<(), IndicatorError>(IndicatorError::InvalidPeriod),
        period > 0 && long_period > 0 && long_period < period ==> result == Err::<(), IndicatorError>(
            IndicatorError::InvalidParameter("long_period"),
        ),
        0 < period <= long_period ==> result is Ok,
{
    validation::period(period)?;
    validation::period(long_period)?;
    if long_period < period {
        return Err(IndicatorError::InvalidParameter("long_period"));
    }
    Ok(())
}

/// Ultimate Oscillator periods: strictly increasing short, medium and long
/// periods, the short one positive.
pub fn ultimate_periods(short_period: usize, medium_period: usize, long_period: usize) -> (result: Result<
    (),
    IndicatorError,
>)
    ensures
        !(short_period < medium_period < long_period) ==> result == Err::<(), IndicatorError>(
            IndicatorError::InvalidParameter("oscillator periods"),
        ),
        short_period < medium_period < long_period && short_period == 0 ==> result == Err::<(), IndicatorError>(
            IndicatorError::InvalidPeriod,
        ),
        0 < short_period < medium_period < long_period ==> result is Ok,
{
    if !(short_period < medium_period && medium_period < long_period) {
        return Err(IndicatorError::InvalidParameter("oscillator periods"));
    }
    validation::period(short_period)
}

/// A window for a sample standard deviation must hold at least two values.
pub fn deviation_period(period: usize, sample: bool) -> (result: Result<(), IndicatorError>)
    ensures
        period == 0 ==> result == Err::<(), IndicatorError>(IndicatorError::InvalidPeriod),
        period == 1 && sample ==> result == Err::<(), IndicatorError>(IndicatorError::InvalidParameter("sample period")),
        period >= 2 || (period == 1 && !sample) ==> result is Ok,
{
    validation::period(period)?;
    if sample && period < 2 {
        return Err(IndicatorError::InvalidParameter("sample period"));
    }
    Ok(())
}

/// Dynamic Volatility Index periods: the short period below the long one,
/// and long enough for a sample deviation.
pub fn dvi_periods(long_period: usize, short_period: usize) -> (result: Result<(), IndicatorError>)
    ensures
        short_period >= long_period ==> result == Err::<(), IndicatorError>(IndicatorError::InvalidParameter("short_period")),
        short_period < long_period && short_period == 0 ==> result == Err::<(), IndicatorError>(
            IndicatorError::InvalidPeriod,
        ),
        short_period < long_period && short_period == 1 ==> result == Err::<(), IndicatorError>(
            IndicatorError::InvalidParameter("sample period"),
        ),
        2 <= short_period < long_period ==> result is Ok,
{
    if short_period >= long_period {
        return Err(IndicatorError::InvalidParameter("short_period"));
    }
    deviation_period(short_period, true)
}

/// A window fitted against time must hold at least two values; `name` names
/// the parameter in the error.
pub fn fit_period(period: usize, name: &'static str) -> (result: Result<(), IndicatorError>)
    ensures
        period == 0 ==> result == Err::<(), IndicatorError>(IndicatorError::InvalidPeriod),
        period == 1 ==> result == Err::<(), IndicatorError>(IndicatorError::InvalidParameter(name)),
        period >= 2 ==> result is Ok,
{
    validation::period(period)?;
    if period < 2 {
        return Err(IndicatorError::InvalidParameter(name));
    }
    Ok(())
}

/// `root` is `sqrt(n)` rounded to the nearest integer: `(root - 1/2)^2 <= n < (root + 1/2)^2`.
pub open spec fn is_rounded_root(n: int, root: int) -> bool {
    root >= 0 && 4 * root * root - 4 * root + 1 <= 4 * n < 4 * root * root + 4 * root + 1
}

/// The three weighted-average periods of the Hull moving average for
/// `period`: half the period (at least one), the period itself, and its
/// square root rounded to the nearest integer (at least one).
pub fn hull_periods(period: usize) -> (result: Result<(usize, usize, usize), IndicatorError>)
    ensures
        period == 0 ==> result == Err::<(usize, usize, usize), IndicatorError>(IndicatorError::InvalidPeriod),
        period > 0 ==> (result matches Ok((half, full, root)) && {
            &&& half == if period / 2 >= 1 { period / 2 } else { 1 }
            &&& full == period
            &&& root >= 1
            &&& is_rounded_root(period as int, root as int)
        }),
{
    validation::period(period)?;
    let half = if period / 2 >= 1 { period / 2 } else { 1 };
    let target = period as u128;
    // the largest root with (root - 1/2)^2 <= period, found by bisection
    let mut low: u128 = 1;
    let mut high: u128 = if target < 4294967296 { target + 1 } else { 4294967297 };
    assert(4 * high * high - 4 * high + 1 > 4 * target) by (nonlinear_arith)
        requires
            high == if target < 4294967296 { target + 1 } else { 4294967297 },
            target >= 1,
            target <= 18446744073709551615,
    ;
    while low + 1 < high
        invariant
            target == period,
            1 <= low < high <= 4294967297,
            4 * low * low - 4 * low + 1 <= 4 * target,
            4 * high * high - 4 * high + 1 > 4 * target,
        decreases high - low,
    {
        let middle = low + (high - low) / 2;
        assert(middle * middle <= 18446744082299486209) by (nonlinear_arith)
            requires
                middle <= 4294967297,
        ;
        let square = middle * middle;
        assert(square >= middle) by (nonlinear_arith)
            requires
                square == middle * middle,
                middle >= 1,
        ;
        if square - middle < target {
            assert(4 * middle * middle - 4 * middle + 1 <= 4 * target) by (nonlinear_arith)
                requires
                    middle * middle - middle < target,
            ;
            low = middle;
        } else {
            assert(4 * middle * middle - 4 * middle + 1 > 4 * target) by (nonlinear_arith)
                requires
                    middle * middle - middle >= target,
            ;
            high = middle;
        }
    }
    assert(4 * low * low + 4 * low + 1 > 4 * target) by (nonlinear_arith)
        requires
            high == low + 1,
            4 * high * high - 4 * high + 1 > 4 * target,
    ;
    assert(low <= target) by (nonlinear_arith)
        requires
            low >= 1,
            4 * low * low - 4 * low + 1 <= 4 * target,
    ;
    let root = low as usize;
    Ok((half, period, root))
}

} // verus!
