//! The core of the BBR v3 congestion controller, with what it does proved.
//!
//! - `state` and `congestion` hold the constants and the data of a controller.
//! - `controller` has the hooks that a connection calls.
//! - `per_loss`, `per_ack` and `per_transmit` have the steps behind them, and `steps` names
//!   those that the user of the crate supplies.
//! - `debug` and `text` put a controller into words.
//! - `time`, `float64`, `rounding` and `nearest` are the arithmetic underneath: spans of
//!   time in nanoseconds, and binary64 numbers in integers.
//! - `rules`, `laws`, `ecn_laws`, `text_laws`, `threshold_laws`, `time_laws` and
//!   `volume_laws` state what holds of all of it.

pub mod congestion;
pub mod controller;
pub mod debug;
pub mod ecn_laws;
pub mod float64;
pub mod laws;
pub mod nearest;
pub mod per_ack;
pub mod per_loss;
pub mod per_transmit;
pub mod rounding;
pub mod rules;
pub mod state;
pub mod steps;
pub mod text;
pub mod text_laws;
pub mod threshold_laws;
pub mod time;
pub mod time_laws;
pub mod volume_laws;
