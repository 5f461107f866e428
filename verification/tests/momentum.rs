use equant::parameters::{deviation_period, dvi_periods, fit_period, positive_periods, ultimate_periods};
use equant::IndicatorError;

#[test]
fn ultimate_oscillator_periods_must_increase() {
    assert_eq!(ultimate_periods(7, 14, 28), Ok(()));
    assert_eq!(ultimate_periods(14, 14, 28), Err(IndicatorError::InvalidParameter("oscillator periods")));
    assert_eq!(ultimate_periods(0, 14, 28), Err(IndicatorError::InvalidPeriod));
}

#[test]
fn dvi_needs_a_sample_short_window_below_the_long_one() {
    assert_eq!(dvi_periods(252, 10), Ok(()));
    assert_eq!(dvi_periods(10, 10), Err(IndicatorError::InvalidParameter("short_period")));
    assert_eq!(dvi_periods(10, 0), Err(IndicatorError::InvalidPeriod));
    assert_eq!(dvi_periods(10, 1), Err(IndicatorError::InvalidParameter("sample period")));
}

#[test]
fn deviation_and_fit_windows() {
    assert_eq!(deviation_period(1, false), Ok(()));
    assert_eq!(deviation_period(1, true), Err(IndicatorError::InvalidParameter("sample period")));
    assert_eq!(deviation_period(0, false), Err(IndicatorError::InvalidPeriod));
    assert_eq!(fit_period(1, "cti period"), Err(IndicatorError::InvalidParameter("cti period")));
    assert_eq!(fit_period(0, "cti period"), Err(IndicatorError::InvalidPeriod));
    assert_eq!(fit_period(2, "cti period"), Ok(()));
}

#[test]
fn every_period_must_be_positive() {
    assert_eq!(positive_periods(&[14, 3, 3]), Ok(()));
    assert_eq!(positive_periods(&[14, 0, 3]), Err(IndicatorError::InvalidPeriod));
    assert_eq!(positive_periods(&[]), Ok(()));
}
