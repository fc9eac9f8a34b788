//! A small round-based combat simulation: a roster of participants takes
//! probabilistic damage each round, participants whose health reaches zero
//! are removed, and the run ends when zero or one participant remains.

pub mod rng;
pub mod sim;
