use equant::window::{complete_windows, rolling_extreme, Extreme, Tie};
use equant::IndicatorError;

#[test]
fn rolling_extrema_track_the_current_window() {
    let input = [Some(3), Some(1), Some(4), Some(2), Some(5)];
    let min = rolling_extreme(&input, 3, Extreme::Minimum, Tie::Earliest).unwrap();
    let max = rolling_extreme(&input, 3, Extreme::Maximum, Tie::Earliest).unwrap();
    let value = |position: &Option<usize>| position.map(|index| input[index].unwrap());

    assert_eq!(min[..2].to_vec(), vec![None, None]);
    assert_eq!(min[2..].iter().map(value).collect::<Vec<_>>(), vec![Some(1), Some(1), Some(2)]);
    assert_eq!(max[2..].iter().map(value).collect::<Vec<_>>(), vec![Some(4), Some(4), Some(5)]);
}

#[test]
fn rolling_extreme_reports_the_earliest_tie_and_skips_incomplete_windows() {
    let input = [Some(2), Some(1), Some(1), Some(3), None, Some(0), Some(0), Some(0)];
    let min = rolling_extreme(&input, 3, Extreme::Minimum, Tie::Earliest).unwrap();
    assert_eq!(min, vec![None, None, Some(1), Some(1), None, None, None, Some(5)]);
    let max = rolling_extreme(&input, 2, Extreme::Maximum, Tie::Earliest).unwrap();
    assert_eq!(max, vec![None, Some(0), Some(1), Some(3), None, None, Some(5), Some(6)]);
}

#[test]
fn rolling_mean_rewarms_after_nan() {
    let input = [Some(1), Some(2), Some(3), None, Some(5), Some(6), Some(7)];
    let complete = complete_windows(&input, 3).unwrap();
    assert_eq!(complete, vec![false, false, true, false, false, false, true]);
}

#[test]
fn ema_uses_sma_seed_and_resets_after_missing_data() {
    let input = [Some(1), Some(2), Some(3), Some(4), None, Some(6), Some(7), Some(8)];
    let complete = complete_windows(&input, 3).unwrap();
    assert_eq!(complete, vec![false, false, true, true, false, false, false, true]);
}

#[test]
fn zero_period_is_an_actionable_error() {
    assert_eq!(complete_windows(&[Some(1)], 0), Err(IndicatorError::InvalidPeriod));
    assert_eq!(rolling_extreme(&[Some(1)], 0, Extreme::Minimum, Tie::Earliest), Err(IndicatorError::InvalidPeriod));
}

#[test]
fn a_period_longer_than_the_series_never_completes() {
    let input = [Some(1), Some(2)];
    assert_eq!(complete_windows(&input, 3).unwrap(), vec![false, false]);
    assert_eq!(rolling_extreme(&input, 3, Extreme::Maximum, Tie::Earliest).unwrap(), vec![None, None]);
}

#[test]
fn rolling_extreme_can_report_the_latest_tie() {
    let input = [Some(2), Some(1), Some(1), Some(3), Some(3)];
    let min = rolling_extreme(&input, 3, Extreme::Minimum, Tie::Latest).unwrap();
    assert_eq!(min, vec![None, None, Some(2), Some(2), Some(2)]);
    let max = rolling_extreme(&input, 3, Extreme::Maximum, Tie::Latest).unwrap();
    assert_eq!(max, vec![None, None, Some(0), Some(3), Some(4)]);
}
