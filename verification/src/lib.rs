//! A Barnes-Hut quadtree over an integer lattice.
//!
//! The tree takes point masses in one at a time and then answers, for any
//! particle, what force the whole collection exerts on it: exactly for the
//! particles nearby, and for a distant cluster by the force of one particle
//! of the cluster's mass at its centre of mass.

pub mod aggregate;
pub mod cell;
pub mod distribution;
pub mod laws;
pub mod numeric;
pub mod tree;
pub mod types;

pub use cell::Cell;
pub use distribution::{get_distribution, pair_coordinates};
pub use tree::{BHTree, THETA_DEN, THETA_NUM};
pub use types::{Particle, Position, Quadrant, G};
