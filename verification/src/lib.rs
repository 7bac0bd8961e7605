//! A verified core for a world of evolving creatures.
//!
//! The crate holds the discrete heart of the simulation, every rule of it
//! stated as a contract and proved:
//!
//! - [`board`]: the clock, the seasons, the population and the steps of a
//!   tick, in their fixed order;
//! - [`sbip`] and [`softbody`]: the grid index that finds the creatures by
//!   the cell on which they stand, and the record of a creature;
//! - [`population`]: what it means for population and index to agree;
//! - [`terrain`]: the tiles and the food on them;
//! - [`genome`]: genomes, the registry of innovation numbers, mutation,
//!   crossover, and the distance between genomes.
//!
//! Continuous quantities are kept in fixed point, in millionths, so that
//! every rule can be stated over the integers. What needs real numbers, the
//! climate, the bodies and the brains, lives with the caller, who hands the
//! board what it has decided.

pub mod board;
pub mod genome;
pub mod population;
mod random;
pub mod sbip;
pub mod softbody;
pub mod terrain;
