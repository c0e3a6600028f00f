//! Boarding-combat capture odds: a dynamic-programming table of capture
//! probabilities and expected casualties for two crews, a strength-profile
//! builder, a countdown work distributor, and a Monte Carlo combat simulator.
//!
//! All probabilities and expected casualties are fixed-point numbers scaled
//! by `SCALE` (2^32); combat strengths are plain integer strength units.

pub mod capture_odds;
pub mod doomsday_clock;
pub mod invocation;
pub mod power_level;
pub mod profile;
pub mod simulate;
