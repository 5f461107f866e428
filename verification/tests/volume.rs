use equant::volume::obv_steps;
use equant::IndicatorError;

#[test]
fn flat_close_keeps_obv_at_zero() {
    let close = vec![Some(100); 10];
    let volume: Vec<Option<i64>> = (0..10).map(|index| Some(100 + index)).collect();
    let steps = obv_steps(&close, &volume).unwrap();
    assert!(steps.iter().all(|step| *step == Some(0)));
}

#[test]
fn obv_steps_follow_the_close_and_restart_after_missing_rows() {
    let close = [Some(10), Some(11), Some(11), Some(9), None, Some(8), Some(12), Some(13)];
    let volume = [Some(1), Some(1), Some(1), Some(1), Some(1), Some(1), None, Some(1)];
    assert_eq!(
        obv_steps(&close, &volume).unwrap(),
        vec![Some(0), Some(1), Some(0), Some(-1), None, Some(0), None, Some(0)]
    );
}

#[test]
fn obv_rejects_mismatched_volume() {
    assert_eq!(
        obv_steps(&[Some(1), Some(2)], &[Some(1)]),
        Err(IndicatorError::LengthMismatch { input: "volume", expected: 2, actual: 1 })
    );
}
