//! Estimates probabilities of selections from a finite population by
//! repeated random simulation.

pub mod bag;
pub mod config;
mod draw;
pub mod laws;

pub use bag::{Bag, BagError, Estimate};
pub use config::{default_max_sims, DEFAULT_MAX_SIMS};
