//! Moving-average crossover backtesting on fixed-point price series.
//!
//! Prices are whole numbers of ticks. Returns and growth factors are
//! fixed-point integers with `SCALE` units per 1.0. An undefined cell of a
//! column is `None`.

pub mod rolling;
pub mod signal;
pub mod backtest;
pub mod metrics;
pub mod pipeline;
