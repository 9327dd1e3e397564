//! Initial populations of binary chromosones: each gene drawn uniformly
//! from {0, 1}.

use vstd::prelude::*;
use crate::entropy::EntropySource;
use crate::entropy::draw_below;

verus! {

/// Every gene of a binary chromosone is a zero or a one.
pub open spec fn is_binary(g: Seq<u8>) -> bool {
    forall|i: int| 0 <= i < g.len() ==> #[trigger] g[i] <= 1
}

/// Generates `size` chromosones of `chromosone_length` independently
/// uniform binary genes.
pub fn generate<E: EntropySource>(size: usize, chromosone_length: usize, src: &mut E) -> (population:
    Vec<Vec<u8>>)
    ensures
        population@.len() == size,
        forall|i: int|
            0 <= i < size ==> {
                &&& (#[trigger] population@[i])@.len() == chromosone_length
                &&& is_binary(population@[i]@)
            },
{
    let mut population: Vec<Vec<u8>> = Vec::new();
    let mut k: usize = 0;
    while k < size
        invariant
            0 <= k <= size,
            population@.len() == k,
            forall|i: int|
                0 <= i < k ==> {
                    &&& (#[trigger] population@[i])@.len() == chromosone_length
                    &&& is_binary(population@[i]@)
                },
        decreases size - k,
    {
        let mut chromosone: Vec<u8> = Vec::new();
        let mut g: usize = 0;
        while g < chromosone_length
            invariant
                0 <= g <= chromosone_length,
                chromosone@.len() == g,
                is_binary(chromosone@),
            decreases chromosone_length - g,
        {
            chromosone.push(draw_below(src, 2) as u8);
            g = g + 1;
        }
        population.push(chromosone);
        k = k + 1;
    }
    population
}

} // verus!
