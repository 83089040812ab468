//! Sampling algorithms and the data structures that serve them.
pub mod grid;
pub mod poisson_disc;
