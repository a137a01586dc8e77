//! A 2D physics core for a population of rigid circular bodies: per-tick
//! integration with wall reflection, sweep-and-prune broad-phase culling,
//! exact circle-overlap narrow phase, and elastic collision resolution.
//!
//! All scalar quantities are exact rationals (`rat::Rat`), so conservation of
//! momentum and kinetic energy in a resolved collision are mathematical
//! identities rather than approximations.

pub mod rat;
pub mod v2;
pub mod body;
pub mod sweep;
pub mod sim;
pub mod laws;
