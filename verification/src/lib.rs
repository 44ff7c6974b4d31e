//! ADtune: the portable rules of a system-wide audio calibration tool.

pub mod apo;
pub mod arith;
pub mod bignat;
pub mod catalog;
pub mod cli;
pub mod decimal;
pub mod double;
pub mod dsp;
pub mod laws;
pub mod order;
pub mod parametric_eq;
pub mod pipewire;
pub mod profile;
pub mod round_trip;
pub mod rounding;
pub mod state;
pub mod store;
pub mod text;
pub mod ui;
pub mod windows;
