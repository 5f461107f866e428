use equant::volatility::{estimator_period, usable_rows};
use equant::{IndicatorError, VolatilityEstimator};

#[test]
fn estimators_only_require_their_formula_inputs() {
    let close = [Some(100), Some(101), Some(102), Some(103)];
    let missing = [None; 4];
    let rows = usable_rows(&missing, &missing, &missing, &close, VolatilityEstimator::CloseToClose);
    assert_eq!(rows, vec![false, true, true, true]);

    assert_eq!(
        estimator_period(VolatilityEstimator::YangZhang, 1),
        Err(IndicatorError::InvalidParameter("yang_zhang period"))
    );
}

#[test]
fn each_estimator_reads_its_own_prices() {
    let open = [Some(10), Some(10), None, Some(10)];
    let high = [Some(12), Some(12), Some(12), Some(0)];
    let low = [Some(9), Some(9), Some(9), Some(9)];
    let close = [Some(11), Some(11), Some(11), Some(11)];
    assert_eq!(usable_rows(&open, &high, &low, &close, VolatilityEstimator::Parkinson), vec![false, true, true, false]);
    assert_eq!(usable_rows(&open, &high, &low, &close, VolatilityEstimator::GarmanKlass), vec![false, true, false, false]);
    assert_eq!(usable_rows(&open, &high, &low, &close, VolatilityEstimator::YangZhang), vec![false, true, false, false]);
    assert_eq!(usable_rows(&open, &high, &low, &close, VolatilityEstimator::CloseToClose), vec![false, true, true, true]);
}

#[test]
fn only_yang_zhang_needs_two_bars() {
    assert_eq!(estimator_period(VolatilityEstimator::YangZhang, 2), Ok(()));
    assert_eq!(estimator_period(VolatilityEstimator::CloseToClose, 1), Ok(()));
    assert_eq!(estimator_period(VolatilityEstimator::Parkinson, 0), Ok(()));
}
