use equant::parameters::{hull_periods, macd_periods, po_periods, tdi_periods};
use equant::{IndicatorError, KstConfig};

#[test]
fn kst_default_is_the_standard_configuration() {
    let config = KstConfig::default();
    assert_eq!(config.roc_periods, [10, 15, 20, 30]);
    assert_eq!(config.sma_periods, [10, 10, 10, 15]);
    assert_eq!(config.weights, [1, 2, 3, 4]);
    assert_eq!(config.signal_period, 9);
    assert_eq!(config.validate(), Ok(()));
}

#[test]
fn kst_rejects_any_zero_period() {
    let mut config = KstConfig::default();
    config.sma_periods[3] = 0;
    assert_eq!(config.validate(), Err(IndicatorError::InvalidPeriod));
    let mut config = KstConfig::default();
    config.signal_period = 0;
    assert_eq!(config.validate(), Err(IndicatorError::InvalidPeriod));
    let mut config = KstConfig::default();
    config.roc_periods[0] = 0;
    assert_eq!(config.validate(), Err(IndicatorError::InvalidPeriod));
}

#[test]
fn hull_periods_use_half_full_and_rounded_root() {
    assert_eq!(hull_periods(0), Err(IndicatorError::InvalidPeriod));
    assert_eq!(hull_periods(1), Ok((1, 1, 1)));
    assert_eq!(hull_periods(2), Ok((1, 2, 1)));
    assert_eq!(hull_periods(3), Ok((1, 3, 2)));
    assert_eq!(hull_periods(9), Ok((4, 9, 3)));
    assert_eq!(hull_periods(12), Ok((6, 12, 3)));
    assert_eq!(hull_periods(13), Ok((6, 13, 4)));
    assert_eq!(hull_periods(20), Ok((10, 20, 4)));
    for period in 1..2000usize {
        let (_, _, root) = hull_periods(period).unwrap();
        assert_eq!(root, ((period as f64).sqrt().round().max(1.0)) as usize);
    }
}

#[test]
fn macd_and_po_periods_follow_the_documented_rules() {
    assert_eq!(macd_periods(12, 26, 9), Ok(()));
    assert_eq!(macd_periods(0, 26, 9), Err(IndicatorError::InvalidPeriod));
    assert_eq!(macd_periods(26, 26, 9), Err(IndicatorError::InvalidParameter("fast_period")));
    assert_eq!(macd_periods(30, 26, 0), Err(IndicatorError::InvalidPeriod));
    assert_eq!(po_periods(26, 12), Err(IndicatorError::InvalidParameter("fast_period")));
    assert_eq!(po_periods(0, 12), Err(IndicatorError::InvalidPeriod));
    assert_eq!(po_periods(12, 26), Ok(()));
}

#[test]
fn tdi_requires_a_long_period_at_least_the_short_one() {
    assert_eq!(tdi_periods(20, 40), Ok(()));
    assert_eq!(tdi_periods(20, 20), Ok(()));
    assert_eq!(tdi_periods(20, 10), Err(IndicatorError::InvalidParameter("long_period")));
    assert_eq!(tdi_periods(0, 10), Err(IndicatorError::InvalidPeriod));
}
