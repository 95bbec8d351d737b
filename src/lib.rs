//! Market tick history, trend and cycle indicators, and signal scoring.
//!
//! Prices are fixed-point integers in the instrument's minor unit; oscillator
//! readings and confidences are expressed in basis points (10_000 = 100%).

pub mod series;
pub mod indicators;
pub mod signal_detector;
pub mod tick_processor;

pub use tick_processor::{OHLC, Tick, TickBuffer};
pub use indicators::{IchimokuCalculator, IndicatorError, STCCalculator};
pub use signal_detector::{SignalDetector, SignalType};
