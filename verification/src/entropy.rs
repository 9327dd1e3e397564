//! The randomness capability: every operation that consumes entropy takes
//! an explicit source, so seeded runs replay bit for bit.

use vstd::prelude::*;

verus! {

/// A stream of raw 64-bit draws.  Nothing is promised of the values:
/// callers state what holds of every possible draw.
pub trait EntropySource {
    fn next_u64(&mut self) -> u64;
}

/// A seedable arithmetic stream for deterministic runs and tests: each
/// draw returns the current value and advances it by a fixed step,
/// wrapping on overflow.
pub struct StepEntropy {
    pub value: u64,
    pub step: u64,
}

impl StepEntropy {
    pub fn new(value: u64, step: u64) -> (r: StepEntropy)
        ensures
            r.value == value,
            r.step == step,
    {
        StepEntropy { value, step }
    }
}

impl EntropySource for StepEntropy {
    fn next_u64(&mut self) -> u64 {
        let r = self.value;
        self.value = self.value.wrapping_add(self.step);
        r
    }
}

/// Relies on rand::random: one value drawn from the thread-local
/// generator.  Nothing can be promised of a random draw.
pub assume_specification<T>[ rand::random::<T> ]() -> (r: T)
    where rand::distributions::Standard: rand::distributions::Distribution<T>,
;

/// Entropy from the process-wide generator of the `rand` crate, for
/// callers that do not need reproducibility.
pub struct ThreadEntropy;

impl EntropySource for ThreadEntropy {
    fn next_u64(&mut self) -> u64 {
        rand::random::<u64>()
    }
}

/// One draw reduced below a positive bound by a modulus.
pub fn draw_below<E: EntropySource>(src: &mut E, bound: u64) -> (r: u64)
    requires
        bound >= 1,
    ensures
        r < bound,
{
    src.next_u64() % bound
}

/// Decides a chance event: true with probability `p` under a uniform
/// draw.  A zero rate never fires; a rate of one always fires.
pub fn happens<E: EntropySource>(p: crate::Probability, src: &mut E) -> (r: bool)
    requires
        p.wf(),
    ensures
        p.ppm == 0 ==> !r,
        p.ppm == crate::PPM_ONE ==> r,
{
    draw_below(src, crate::PPM_ONE) < p.ppm
}

} // verus!
