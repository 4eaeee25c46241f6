//! Technical indicators over a price series: the exponential moving average,
//! the relative strength index, and moving average convergence divergence.
//!
//! The functions are generic in the number type. A number type supplies its
//! own arithmetic through [`scalar::Scalar`]; every contract is stated in terms
//! of what that arithmetic promises, so it holds for any number type.

pub mod ema;
pub mod error;
pub mod macd;
pub mod rsi;
pub mod scalar;

pub use ema::calculate_ema;
pub use error::IndicatorError;
pub use macd::calculate_macd;
pub use rsi::calculate_rsi;
pub use scalar::Scalar;
