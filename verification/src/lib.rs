//! Helper library of the doodles.
//!
//! Its core is Bridson's Poisson-disc sampling together with the uniform
//! grid that keeps its neighbour tests short: see [`algorithms::poisson_disc`]
//! and [`algorithms::grid`]. Beside it stand tilings by subdivision, a palette
//! of named colors and a few helpers.
//!
//! All positions are whole numbers: the library samples the points of a
//! lattice. What one step of the lattice is worth is up to the caller, who
//! scales the coordinates before handing them over and after getting them
//! back. The offsets from an active point to its candidates are the caller's
//! too: the sampler asks a function for each of them.
pub mod algorithms;
pub mod collections;
pub mod color;
pub mod geometry;
pub mod numeric;
pub mod random;
pub mod tilings;
