//! The maximization step of expectation-maximization for Gaussian mixtures.
//!
//! `shape` derives and checks the dimensions of an M-step call; `exact` carries
//! out the M-step in exact rational arithmetic on integer observations and
//! integer responsibility weights; `laws` proves what every result of that step
//! satisfies.

pub mod exact;
pub mod laws;
pub mod shape;
