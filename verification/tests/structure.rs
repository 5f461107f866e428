use equant::window::{rolling_extreme, Extreme, Tie};

#[test]
fn rolling_support_never_exceeds_resistance() {
    let high = [Some(5), Some(6), Some(4), Some(8)];
    let low = [Some(3), Some(2), Some(1), Some(6)];
    let resistance = rolling_extreme(&high, 3, Extreme::Maximum, Tie::Earliest).unwrap();
    let support = rolling_extreme(&low, 3, Extreme::Minimum, Tie::Earliest).unwrap();
    for index in 0..high.len() {
        if let (Some(top), Some(bottom)) = (resistance[index], support[index]) {
            assert!(low[bottom].unwrap() <= high[top].unwrap());
        }
    }
    assert_eq!(resistance, vec![None, None, Some(1), Some(3)]);
    assert_eq!(support, vec![None, None, Some(2), Some(2)]);
}
