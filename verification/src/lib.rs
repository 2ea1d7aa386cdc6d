//! Incremental Wilder Relative Strength Index (RSI) over a stream of
//! timestamped fixed-point prices.
//!
//! The engine holds O(period) state: each incoming `(timestamp, price)` pair
//! either revises the currently open bar, closes it and opens a new one, or is
//! ignored as stale. Prices and the derived oscillator are plain integers in a
//! fixed-point encoding, so every state transition is exact and fully
//! specified.

pub mod engine;
pub mod laws;
pub mod model;
