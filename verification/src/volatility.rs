use vstd::prelude::*;

use crate::error::IndicatorError;
use crate::observation::{key, Observation};

verus! {

/// Supported historical volatility estimators.
#[derive(Clone, Copy, Debug, PartialEq, Eq)]
pub enum VolatilityEstimator {
    /// Standard deviation of close-to-close log returns.
    CloseToClose,
    /// Parkinson high-low estimator.
    Parkinson,
    /// Garman-Klass OHLC estimator.
    GarmanKlass,
    /// Rogers-Satchell OHLC estimator.
    RogersSatchell,
    /// Yang-Zhang overnight and intraday estimator.
    YangZhang,
}

/// Which inputs an estimator's formula reads at a bar: the open, high, low
/// and close of the bar, and the previous close.
pub open spec fn formula_inputs(estimator: VolatilityEstimator) -> (bool, bool, bool, bool, bool) {
    match estimator {
        VolatilityEstimator::CloseToClose => (false, false, false, true, true),
        VolatilityEstimator::Parkinson => (false, true, true, false, false),
        VolatilityEstimator::GarmanKlass => (true, true, true, true, false),
        VolatilityEstimator::RogersSatchell => (true, true, true, true, false),
        VolatilityEstimator::YangZhang => (true, true, true, true, true),
    }
}

/// A finite, strictly positive price.
pub open spec fn positive_price(o: Observation) -> bool {
    o is Some && key(o) > 0
}

/// Bar `i` contributes to the estimator: it is not the first bar, and every
/// price the formula reads there is finite and positive. Prices the formula
/// does not read are ignored.
pub open spec fn usable_row(
    open: Seq<Observation>,
    high: Seq<Observation>,
    low: Seq<Observation>,
    close: Seq<Observation>,
    estimator: VolatilityEstimator,
    i: int,
) -> bool {
    let (o, h, l, c, p) = formula_inputs(estimator);
    &&& i >= 1
    &&& o ==> positive_price(open[i])
    &&& h ==> positive_price(high[i])
    &&& l ==> positive_price(low[i])
    &&& c ==> positive_price(close[i])
    &&& p ==> positive_price(close[i - 1])
}

fn positive(o: Observation) -> (result: bool)
    ensures
        result == positive_price(o),
{
    match o {
        Some(k) => k > 0,
        None => false,
    }
}

/// Marks the bars that contribute to the estimator. Observation keys of
/// positive prices are positive, as the key of zero is zero.
pub fn usable_rows(
    open: &[Observation],
    high: &[Observation],
    low: &[Observation],
    close: &[Observation],
    estimator: VolatilityEstimator,
) -> (result: Vec<bool>)
    requires
        open.len() == close.len(),
        high.len() == close.len(),
        low.len() == close.len(),
    ensures
        result.len() == close.len(),
        forall|i: int| 0 <= i < close.len() ==> #[trigger] result@[i] == usable_row(open@, high@, low@, close@, estimator, i),
{
    let (needs_open, needs_high, needs_low, needs_close, needs_previous) = match estimator {
        VolatilityEstimator::CloseToClose => (false, false, false, true, true),
        VolatilityEstimator::Parkinson => (false, true, true, false, false),
        VolatilityEstimator::GarmanKlass => (true, true, true, true, false),
        VolatilityEstimator::RogersSatchell => (true, true, true, true, false),
        VolatilityEstimator::YangZhang => (true, true, true, true, true),
    };
    let mut output: Vec<bool> = Vec::new();
    let mut index: usize = 0;
    while index < close.len()
        invariant
            open.len() == close.len(),
            high.len() == close.len(),
            low.len() == close.len(),
            (needs_open, needs_high, needs_low, needs_close, needs_previous) == formula_inputs(estimator),
            index <= close.len(),
            output@.len() == index,
            forall|i: int| 0 <= i < index ==> #[trigger] output@[i] == usable_row(open@, high@, low@, close@, estimator, i),
        decreases close.len() - index,
    {
        let usable = index >= 1 && (!needs_open || positive(open[index])) && (!needs_high || positive(high[index]))
            && (!needs_low || positive(low[index])) && (!needs_close || positive(close[index])) && (!needs_previous
            || positive(close[index - 1]));
        output.push(usable);
        index += 1;
    }
    output
}

/// The Yang-Zhang estimator combines window sample variances, so its window
/// must hold at least two bars.
pub fn estimator_period(estimator: VolatilityEstimator, period: usize) -> (result: Result<(), IndicatorError>)
    ensures
        estimator == VolatilityEstimator::YangZhang && period < 2 ==> result == Err::<(), IndicatorError>(
            IndicatorError::InvalidParameter("yang_zhang period"),
        ),
        !(estimator == VolatilityEstimator::YangZhang && period < 2) ==> result is Ok,
{
    match estimator {
        VolatilityEstimator::YangZhang => if period < 2 {
            Err(IndicatorError::InvalidParameter("yang_zhang period"))
        } else {
            Ok(())
        },
        _ => Ok(()),
    }
}

} // verus!
