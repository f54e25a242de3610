//! A sliding-window weighted moving-average engine.
//!
//! History is compressed into time-bucketed aggregates ("divisions"); a pure
//! algorithm reconstructs an approximate time-weighted average over a trailing
//! window, with partial weighting at the window's edges. All arithmetic is
//! checked fixed-point arithmetic: overflow, underflow and division by zero
//! are surfaced as typed errors, never wrapped or clamped.

pub mod compressed_division;
pub mod decimal;
pub mod division;
pub mod error;
pub mod timestamp;
