//! A stochastic simulator for two-dimensional tile self-assembly (aTAM and
//! kTAM), with a forward-flux-sampling driver for estimating nucleation
//! rates.
//!
//! Rates are exact fixed-point values: a `Rate` is a `u64` in caller-chosen
//! rate units, so every sum in the event-rate index and every sampling
//! decision is exact integer arithmetic. Callers that want thermodynamic
//! parameters (`gse`, `gmc`, ...) convert them to rate units once, at model
//! construction.

pub mod base;
pub mod grid;
pub mod canvas;
pub mod system;
pub mod atam;
pub mod ktam;
pub mod ratetree;
pub mod rng;
pub mod state;
pub mod ffs;
pub mod tileset;
pub mod sim;
