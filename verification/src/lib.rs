//! Batch technical-analysis operators over ordered market-data series.
//!
//! The verified core works on series of [`observation::Observation`]s: a
//! missing or non-finite value is `None`, and a finite value is an integer
//! key that orders the series exactly as the underlying prices are ordered.
//! Everything an operator decides from the order and presence of values
//! (validation, warmup, window completeness, extremes, setup counts, lags)
//! is stated and proved here.

pub mod error;
pub mod laws;
pub mod observation;
pub mod parameters;
pub mod transform;
pub mod trend;
pub mod validation;
pub mod volatility;
pub mod volume;
pub mod window;

pub use error::IndicatorError;
pub use validation::{period, same_length};
pub use trend::KstConfig;
pub use volatility::VolatilityEstimator;
