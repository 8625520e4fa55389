//! Deterministic decision engine for a grid/trailing trading strategy, with a
//! multi-symbol backtest simulator that replays historical price series
//! through the engine.
//!
//! All quantities, prices and balances are integers in caller-chosen base
//! units; fractional parameters (spacing percentages, fees, multipliers) are
//! fixed-point integers scaled by `FRAC_DENOM`. Every order the engine emits
//! is rounded to the exchange's step sizes and feasibility-checked, and the
//! contracts below pin those facts down.

pub mod analysis;
pub mod backtest;
pub mod closes;
pub mod entries;
pub mod laws;
pub mod maths;
pub mod ranking;
pub mod types;
