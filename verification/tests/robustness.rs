use equant::transform::{aroon_offsets, na_check, td_countdown, td_setup};
use equant::window::{complete_windows, rolling_extreme, Extreme, Tie};
use equant::{period, same_length, IndicatorError};

#[test]
fn empty_inputs_are_valid_and_empty() {
    assert!(complete_windows(&[], 5).unwrap().is_empty());
    assert!(rolling_extreme(&[], 14, Extreme::Maximum, Tie::Earliest).unwrap().is_empty());
    assert!(td_setup(&[]).unwrap().is_empty());
    assert!(td_countdown(&[], &[], &[]).unwrap().is_empty());
    assert!(aroon_offsets(&[], &[], 14).unwrap().is_empty());
    assert!(na_check(&[]).unwrap().is_empty());
}

#[test]
fn length_mismatch_reports_the_named_input() {
    assert_eq!(
        same_length(2, &[("low", 1), ("close", 2)]),
        Err(IndicatorError::LengthMismatch { input: "low", expected: 2, actual: 1 })
    );
    assert_eq!(
        same_length(2, &[("low", 2), ("close", 3), ("volume", 1)]),
        Err(IndicatorError::LengthMismatch { input: "close", expected: 2, actual: 3 })
    );
    assert_eq!(same_length(2, &[("low", 2), ("close", 2)]), Ok(()));
    assert_eq!(same_length(0, &[]), Ok(()));
}

#[test]
fn period_rejects_only_zero() {
    assert_eq!(period(0), Err(IndicatorError::InvalidPeriod));
    assert_eq!(period(1), Ok(()));
}

#[test]
fn errors_describe_themselves() {
    assert_eq!(IndicatorError::InvalidPeriod.message(), "period must be greater than zero");
    assert_eq!(
        IndicatorError::InvalidParameter("aroon period").message(),
        "invalid parameter: aroon period"
    );
    assert_eq!(
        IndicatorError::LengthMismatch { input: "low", expected: 2, actual: 1 }.message(),
        "input 'low' has length 1, expected 2"
    );
    assert_eq!(
        IndicatorError::LengthMismatch { input: "volume", expected: 1024, actual: 0 }.message(),
        "input 'volume' has length 0, expected 1024"
    );
}

#[test]
fn missing_values_never_fail_the_order_operators() {
    let values = [Some(1), None, None, None, Some(5)];
    assert_eq!(complete_windows(&values, 2).unwrap(), vec![false, false, false, false, false]);
    assert_eq!(rolling_extreme(&values, 1, Extreme::Minimum, Tie::Earliest).unwrap(), vec![Some(0), None, None, None, Some(4)]);
    assert_eq!(td_setup(&values).unwrap(), vec![0, 0, 0, 0, -1]);
}

#[test]
fn mismatched_volume_is_rejected() {
    let error = same_length(2, &[("volume", 1)]).unwrap_err();
    assert!(error.message().contains("volume"));
}
