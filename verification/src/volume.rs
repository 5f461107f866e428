use vstd::prelude::*;

use crate::error::IndicatorError;
use crate::observation::{key, Observation};
use crate::validation;

verus! {

/// The On-Balance Volume step at bar `i`: nothing when the close or volume is
/// missing (the running total restarts after it); `0` at the first bar of a
/// run of complete bars; otherwise `1` when the close rose, `-1` when it fell
/// and `0` when it was unchanged from the previous bar.
pub open spec fn obv_step(close: Seq<Observation>, volume: Seq<Observation>, i: int) -> Option<i8> {
    if close[i] is None || volume[i] is None {
        None
    } else if i == 0 || close[i - 1] is None || volume[i - 1] is None {
        Some(0i8)
    } else if key(close[i]) > key(close[i - 1]) {
        Some(1i8)
    } else if key(close[i]) < key(close[i - 1]) {
        Some(-1i8)
    } else {
        Some(0i8)
    }
}

/// Signed On-Balance Volume steps: On-Balance Volume adds the bar's volume
/// for a step of `1`, subtracts it for `-1`, and restarts from zero after a
/// bar without a step.
pub fn obv_steps(close: &[Observation], volume: &[Observation]) -> (result: Result<Vec<Option<i8>>, IndicatorError>)
    ensures
        volume.len() != close.len() ==> result == Err::<Vec<Option<i8>>, IndicatorError>(
            IndicatorError::LengthMismatch { input: "volume", expected: close.len(), actual: volume.len() },
        ),
        volume.len() == close.len() ==> (result matches Ok(out) && out.len() == close.len()
            && forall|i: int| 0 <= i < close.len() ==> #[trigger] out@[i] == obv_step(close@, volume@, i)),
{
    let lengths = [("volume", volume.len())];
    validation::same_length(close.len(), &lengths)?;
    let mut output: Vec<Option<i8>> = Vec::new();
    let mut previous: Option<i64> = None;
    let mut index: usize = 0;
    while index < close.len()
        invariant
            volume.len() == close.len(),
            index <= close.len(),
            output@.len() == index,
            forall|i: int| 0 <= i < index ==> #[trigger] output@[i] == obv_step(close@, volume@, i),
            index == 0 ==> previous is None,
            index > 0 ==> previous == if close@[index - 1] is None || volume@[index - 1] is None {
                None::<i64>
            } else {
                close@[index - 1]
            },
        decreases close.len() - index,
    {
        match (close[index], volume[index]) {
            (Some(now), Some(_)) => {
                let step: i8 = match previous {
                    Some(prior) => if now > prior {
                        1
                    } else if now < prior {
                        -1
                    } else {
                        0
                    },
                    None => 0,
                };
                output.push(Some(step));
                previous = Some(now);
            },
            _ => {
                output.push(None);
                previous = None;
            },
        }
        index += 1;
    }
    Ok(output)
}

} // verus!
