//! A small genetic-algorithm toolkit for two combinatorial problems:
//! 0/1 knapsack over binary chromosomes and Euclidean traveling-salesman
//! over permutation genomes.  The evolutionary core — fitness evaluation,
//! fitness-proportional selection, encoding-aware crossover, mutation and
//! the generational replacement loop — is verified; randomness is drawn
//! through an injected, seedable entropy source so that every run can be
//! replayed deterministically.

use vstd::prelude::*;

pub mod entropy;
pub mod sampling;
pub mod items;
pub mod population;
pub mod knapsack;
pub mod layout;
pub mod genomes;
pub mod world;

verus! {

/// One part in a million: the denominator of every probability the
/// library takes (crossover rate, mutation rate).
pub const PPM_ONE: u64 = 1000000;

/// The two failures the toolkit can report: selection cannot find two
/// distinct positive-fitness parents, or a configuration value is out
/// of range (a rate above one, a population too small to breed).
#[derive(Debug, Clone, Copy, PartialEq, Eq, Structural)]
pub enum GaError {
    InsufficientDiversity,
    InvalidConfiguration,
}

/// A probability stored in fixed point as parts per million, so that
/// chance decisions stay in integer arithmetic.
#[derive(Debug, Clone, Copy, PartialEq, Eq, Structural)]
pub struct Probability {
    pub ppm: u64,
}

impl Probability {
    /// A probability is well formed when it does not exceed one.
    pub open spec fn wf(self) -> bool {
        self.ppm <= PPM_ONE
    }

    /// Accepts a rate in parts per million; anything above one is
    /// rejected as an invalid configuration.
    pub fn new(ppm: u64) -> (r: Result<Probability, GaError>)
        ensures
            ppm <= PPM_ONE ==> r == Ok::<Probability, GaError>(Probability { ppm }),
            ppm > PPM_ONE ==> r == Err::<Probability, GaError>(GaError::InvalidConfiguration),
    {
        if ppm <= PPM_ONE {
            Ok(Probability { ppm })
        } else {
            Err(GaError::InvalidConfiguration)
        }
    }
}

} // verus!
