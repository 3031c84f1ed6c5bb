//! Spectral collocation on one-dimensional Lagrange grids: the bookkeeping
//! that turns differentiation operators into a solvable problem.
//!
//! The library is generic in the scalar type. It never adds or multiplies
//! scalars itself; it decides *where* values go: which degree is admissible,
//! whether a list of nodes fits its grid, which nodes carry a Dirichlet
//! condition, which rows of an operator are replaced by identity rows, which
//! entries of a time derivative are pinned, and in which order a basis is
//! sampled for a figure. Every such decision is stated as a contract over
//! sequences and sets and proved.

pub mod error;
pub mod grid;
pub mod nodes;
pub mod boundary;
pub mod constraints;
pub mod assembler;
pub mod solution;
pub mod curves;
