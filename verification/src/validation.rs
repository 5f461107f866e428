use vstd::prelude::*;

use crate::error::IndicatorError;

verus! {

/// Rejects a zero period.
pub fn period(value: usize) -> (result: Result<(), IndicatorError>)
    ensures
        value == 0 ==> result == Err::<(), IndicatorError>(IndicatorError::InvalidPeriod),
        value != 0 ==> result is Ok,
{
    if value == 0 {
        Err(IndicatorError::InvalidPeriod)
    } else {
        Ok(())
    }
}

} // verus!

verus! {

/// The error that reports the named length at `index` against the primary length.
pub open spec fn mismatch_error(expected: usize, values: Seq<(&'static str, usize)>, index: int) -> IndicatorError {
    IndicatorError::LengthMismatch { input: values[index].0, expected, actual: values[index].1 }
}

/// Checks each named length against the primary input length, reporting the
/// first one that differs.
pub fn same_length(expected: usize, values: &[(&'static str, usize)]) -> (result: Result<(), IndicatorError>)
    ensures
        result is Ok <==> forall|i: int| 0 <= i < values@.len() ==> (#[trigger] values@[i]).1 == expected,
        result matches Err(e) ==> exists|i: int|
            0 <= i < values@.len() && (#[trigger] values@[i]).1 != expected
                && (forall|j: int| 0 <= j < i ==> (#[trigger] values@[j]).1 == expected)
                && e == mismatch_error(expected, values@, i),
{
    let mut index: usize = 0;
    while index < values.len()
        invariant
            index <= values@.len(),
            forall|j: int| 0 <= j < index ==> (#[trigger] values@[j]).1 == expected,
        decreases values@.len() - index,
    {
        let (name, actual) = values[index];
        if actual != expected {
            assert(values@[index as int].1 != expected);
            return Err(IndicatorError::LengthMismatch { input: name, expected, actual });
        }
        index += 1;
    }
    Ok(())
}

} // verus!
