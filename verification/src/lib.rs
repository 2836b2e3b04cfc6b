//! Building blocks for evolutionary optimisation over byte-encoded genotypes.
//!
//! Scalars are encoded as fixed-width big-endian genes, genes are assembled
//! into fixed-size chromosomes, and the genetic operators (uniform crossover,
//! inversion mutation, tournament selection) work on that byte form alone.
//! Randomness always comes from a source handed in by the caller.

pub mod bits;
pub mod chromosome;
pub mod crossover;
pub mod fitness;
pub mod fraction;
pub mod gene;
pub mod mutation;
pub mod random;
pub mod selection;
