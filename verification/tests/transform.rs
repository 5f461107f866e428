use equant::transform::{aroon_offsets, lags, na_check, td_countdown, td_setup};
use equant::IndicatorError;

/// Order keys for prices quoted in quarters: the key is four times the price.
fn quarters(price: f64) -> Option<i64> {
    Some((price * 4.0).round() as i64)
}

#[test]
fn missing_mask_and_lag_have_domain_types() {
    let values = [1.0, f64::NAN, 3.0];
    let observations = [Some(1), None, Some(3)];
    assert_eq!(na_check(&observations).unwrap(), vec![false, true, false]);
    let lag = lags(&values, 1).unwrap();
    assert!(lag[0].is_none());
    assert_eq!(lag[1], Some(1.0));
}

#[test]
fn td_countdown_reaches_thirteen_in_a_qualifying_decline() {
    let close: Vec<f64> = (0..30).map(|index| 100.0 - index as f64).collect();
    let high: Vec<f64> = close.iter().map(|value| value + 0.25).collect();
    let low: Vec<f64> = close.iter().map(|value| value - 0.25).collect();
    let close: Vec<Option<i64>> = close.into_iter().map(quarters).collect();
    let high: Vec<Option<i64>> = high.into_iter().map(quarters).collect();
    let low: Vec<Option<i64>> = low.into_iter().map(quarters).collect();
    let out = td_countdown(&high, &low, &close).unwrap();
    assert!(out.contains(&13));
}

#[test]
fn aroon_zero_period_uses_the_common_period_error() {
    assert_eq!(aroon_offsets(&[Some(1)], &[Some(1)], 0), Err(IndicatorError::InvalidPeriod));
}

#[test]
fn aroon_single_bar_period_is_an_invalid_parameter() {
    assert_eq!(
        aroon_offsets(&[Some(1)], &[Some(1)], 1),
        Err(IndicatorError::InvalidParameter("aroon period"))
    );
}

#[test]
fn aroon_reports_mismatched_low_before_the_period() {
    assert_eq!(
        aroon_offsets(&[Some(1), Some(2)], &[Some(1)], 0),
        Err(IndicatorError::LengthMismatch { input: "low", expected: 2, actual: 1 })
    );
}

#[test]
fn aroon_uses_the_most_recent_extreme() {
    let high = [Some(5), Some(7), Some(7), Some(6), None, Some(1)];
    let low = [Some(1), Some(0), Some(2), Some(0), Some(3), Some(4)];
    let out = aroon_offsets(&high, &low, 3).unwrap();
    assert_eq!(out, vec![None, None, Some((2, 1)), Some((1, 2)), None, None]);
}

#[test]
fn td_setup_counts_consecutive_bars_against_four_bars_earlier() {
    let close: Vec<Option<i64>> = (0..8).map(|index| Some(100 - index)).collect();
    assert_eq!(td_setup(&close).unwrap(), vec![0, 0, 0, 0, 1, 2, 3, 4]);

    let close = [Some(5), Some(5), Some(5), Some(5), Some(9), Some(9), Some(1), None, Some(5), Some(9), Some(9)];
    assert_eq!(td_setup(&close).unwrap(), vec![0, 0, 0, 0, -1, -2, 1, 0, 1, 0, -1]);
}

#[test]
fn td_countdown_rejects_mismatched_inputs() {
    let two = [Some(1), Some(2)];
    let one = [Some(1)];
    assert_eq!(
        td_countdown(&two, &one, &two),
        Err(IndicatorError::LengthMismatch { input: "low", expected: 2, actual: 1 })
    );
    assert_eq!(
        td_countdown(&two, &two, &one),
        Err(IndicatorError::LengthMismatch { input: "close", expected: 2, actual: 1 })
    );
}

#[test]
fn td_countdown_stops_at_thirteen_and_needs_a_setup() {
    let close: Vec<Option<i64>> = (0..40).map(|index| Some(400 - 4 * index)).collect();
    let high: Vec<Option<i64>> = close.iter().map(|value| value.map(|key| key + 1)).collect();
    let low: Vec<Option<i64>> = close.iter().map(|value| value.map(|key| key - 1)).collect();
    let out = td_countdown(&high, &low, &close).unwrap();
    // the setup reaches nine at bar 12, which also starts the countdown
    assert!(out[..12].iter().all(|value| *value == 0));
    assert_eq!(out[12..25].to_vec(), (1..=13).collect::<Vec<i32>>());
    assert!(out[25..].iter().all(|value| *value == 0));
    assert!(out.iter().all(|value| value.abs() <= 13));
}

#[test]
fn lags_reject_a_zero_period_and_pad_the_start() {
    assert_eq!(lags(&[1, 2, 3], 0), Err(IndicatorError::InvalidPeriod));
    assert_eq!(lags(&[1, 2, 3], 2).unwrap(), vec![None, None, Some(1)]);
    assert_eq!(lags(&[1, 2, 3], 5).unwrap(), vec![None, None, None]);
}
