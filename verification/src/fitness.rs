//! The fitness score that selection ranks individuals by.

use vstd::prelude::*;

verus! {

/// An individual with a fitness score. A higher score is a better
/// individual; scores are compared as whole numbers.
pub trait Fitness {
    /// The score of the individual.
    fn fitness(&self) -> (score: i64);
}

} // verus!
