use vstd::prelude::*;

use crate::error::IndicatorError;

verus! {

/// Know Sure Thing configuration.
#[derive(Clone, Copy, Debug, PartialEq, Eq)]
pub struct KstConfig {
    /// Rate-of-change periods.
    pub roc_periods: [usize; 4],
    /// Moving-average periods applied to each rate of change.
    pub sma_periods: [usize; 4],
    /// Integer component weights.
    pub weights: [u32; 4],
    /// Signal moving-average period.
    pub signal_period: usize,
}

impl Default for KstConfig {
    /// The standard configuration: rate-of-change periods 10, 15, 20 and 30,
    /// averaged over 10, 10, 10 and 15 bars, weighted 1 to 4, with a 9-bar
    /// signal line.
    fn default() -> (config: Self)
        ensures
            config.roc_periods@ == seq![10usize, 15, 20, 30],
            config.sma_periods@ == seq![10usize, 10, 10, 15],
            config.weights@ == seq![1u32, 2, 3, 4],
            config.signal_period == 9,
    {
        let config = KstConfig {
            roc_periods: [10, 15, 20, 30],
            sma_periods: [10, 10, 10, 15],
            weights: [1, 2, 3, 4],
            signal_period: 9,
        };
        assert(config.roc_periods@ =~= seq![10usize, 15, 20, 30]);
        assert(config.sma_periods@ =~= seq![10usize, 10, 10, 15]);
        assert(config.weights@ =~= seq![1u32, 2, 3, 4]);
        config
    }
}

impl KstConfig {
    /// Every period of the configuration is positive.
    pub open spec fn periods_valid(&self) -> bool {
        &&& forall|i: int| 0 <= i < 4 ==> #[trigger] self.roc_periods@[i] > 0
        &&& forall|i: int| 0 <= i < 4 ==> #[trigger] self.sma_periods@[i] > 0
        &&& self.signal_period > 0
    }

    /// Rejects a configuration with a zero period, as the Know Sure Thing
    /// does before any calculation.
    pub fn validate(&self) -> (result: Result<(), IndicatorError>)
        ensures
            self.periods_valid() ==> result is Ok,
            !self.periods_valid() ==> result == Err::<(), IndicatorError>(IndicatorError::InvalidPeriod),
    {
        let mut index: usize = 0;
        while index < 4
            invariant
                index <= 4,
                forall|i: int| 0 <= i < index ==> #[trigger] self.roc_periods@[i] > 0,
            decreases 4 - index,
        {
            if self.roc_periods[index] == 0 {
                return Err(IndicatorError::InvalidPeriod);
            }
            index += 1;
        }
        let mut index: usize = 0;
        while index < 4
            invariant
                index <= 4,
                forall|i: int| 0 <= i < 4 ==> #[trigger] self.roc_periods@[i] > 0,
                forall|i: int| 0 <= i < index ==> #[trigger] self.sma_periods@[i] > 0,
            decreases 4 - index,
        {
            if self.sma_periods[index] == 0 {
                return Err(IndicatorError::InvalidPeriod);
            }
            index += 1;
        }
        if self.signal_period == 0 {
            return Err(IndicatorError::InvalidPeriod);
        }
        Ok(())
    }
}

} // verus!
