//! Integer bookkeeping of a Monte Carlo radiative transfer code for a clumpy plane-parallel slab.

pub mod config;
pub mod slab;
pub mod photon;
pub mod tally;
