//! The knapsack domain: items with a weight and a value, generated once
//! per run and immutable afterwards.

use vstd::prelude::*;
use crate::entropy::EntropySource;
use crate::entropy::draw_below;

verus! {

/// One knapsack item.
#[derive(Debug, Clone, Copy, PartialEq, Eq, Structural)]
pub struct Item {
    pub weight: u32,
    pub value: u32,
}

/// Generates `item_count` items with weights and values drawn uniformly
/// from `[2, 32)`.
pub fn generate<E: EntropySource>(item_count: usize, src: &mut E) -> (items: Vec<Item>)
    ensures
        items@.len() == item_count,
        forall|i: int|
            0 <= i < item_count ==> {
                &&& 2 <= #[trigger] items@[i].weight < 32
                &&& 2 <= items@[i].value < 32
            },
{
    let mut items: Vec<Item> = Vec::new();
    let mut k: usize = 0;
    while k < item_count
        invariant
            0 <= k <= item_count,
            items@.len() == k,
            forall|i: int|
                0 <= i < k ==> {
                    &&& 2 <= #[trigger] items@[i].weight < 32
                    &&& 2 <= items@[i].value < 32
                },
        decreases item_count - k,
    {
        let weight = (draw_below(src, 30) + 2) as u32;
        let value = (draw_below(src, 30) + 2) as u32;
        items.push(Item { weight, value });
        k = k + 1;
    }
    items
}

} // verus!
