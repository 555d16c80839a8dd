//! Choosing from lists whose entries have weights.

use crate::block::BlockKey;
use crate::sorted::{is_sorted_order, sorted_order};
use vstd::prelude::*;

verus! {

/// A block that a road may be made of.
#[derive(Copy, Clone)]
pub struct RoadPlacementEntry {
    pub weight: i32,
    pub weight_center_distance_bias: i32,
    pub block: Option<BlockKey>,
}

impl RoadPlacementEntry {
    /// The weight of the entry at a distance from the middle of the road.
    pub open spec fn weight_at(self, distance: u32) -> int {
        let weight = self.weight + self.weight_center_distance_bias * distance;
        if weight < 0 {
            0
        } else {
            weight
        }
    }

    /// The weight of the entry at a distance from the middle of the road.
    pub fn get_weight(&self, distance: u32) -> (r: i32)
        requires
            distance <= i32::MAX,
            i32::MIN <= self.weight_center_distance_bias * distance <= i32::MAX,
            i32::MIN <= self.weight + self.weight_center_distance_bias * distance <= i32::MAX,
        ensures
            r == self.weight_at(distance),
    {
        let weight: i32 = self.weight + self.weight_center_distance_bias * distance as i32;
        if weight < 0 {
            0
        } else {
            weight
        }
    }
}

/// The sum of the first `n` weights.
pub open spec fn weight_sum(weights: Seq<u32>, n: int) -> int
    decreases n,
{
    if n <= 0 {
        0
    } else {
        weight_sum(weights, n - 1) + weights[n - 1]
    }
}

/// Whether a number falls to the entry at place `i`: it lies between the sums of the weights before
/// and after the entry.
pub open spec fn falls_to(weights: Seq<u32>, selection: int, i: int) -> bool {
    &&& 0 <= i < weights.len()
    &&& weight_sum(weights, i) <= selection < weight_sum(weights, i + 1)
}

/// The entry to which a number falls, which is below the sum of the weights if it is to fall to one.
pub fn get_random(weights: &Vec<u32>, selection: u64) -> (r: Option<usize>)
    ensures
        match r {
            Some(i) => falls_to(weights@, selection as int, i as int),
            None => selection >= weight_sum(weights@, weights@.len() as int),
        },
{
    let mut left: u64 = selection;
    let mut i: usize = 0;
    while i < weights.len()
        invariant
            i <= weights@.len(),
            left == selection - weight_sum(weights@, i as int),
        decreases weights@.len() - i,
    {
        let weight = weights[i];
        if left < weight as u64 {
            return Some(i);
        }
        left -= weight as u64;
        i += 1;
    }
    None
}

/// A number falls to one entry at most, and to one of as many numbers as its weight says.
pub proof fn law_numbers_fall_by_weight(weights: Seq<u32>, selection: int, i: int, j: int)
    requires
        falls_to(weights, selection, i),
        falls_to(weights, selection, j),
    ensures
        i == j,
        weight_sum(weights, i + 1) - weight_sum(weights, i) == weights[i],
{
    if i < j {
        lemma_sums_grow(weights, i + 1, j);
    } else if j < i {
        lemma_sums_grow(weights, j + 1, i);
    }
}

proof fn lemma_sums_grow(weights: Seq<u32>, n: int, m: int)
    requires
        0 <= n <= m,
    ensures
        weight_sum(weights, n) <= weight_sum(weights, m),
    decreases m,
{
    if n < m {
        lemma_sums_grow(weights, n, m - 1);
    }
}

/// The entries of a list in the order of the numbers that were drawn for them, the greatest first.
/// The numbers are given by others that are ordered as they are.
pub fn get_random_weighted_list(drawn: &Vec<i64>) -> (r: Vec<usize>)
    ensures
        is_sorted_order(drawn@, true, drawn@.len() as int, r@),
{
    sorted_order(drawn, true)
}

/// The weight in the middle is the entry's own. One further out it has the bias more, and it is never
/// negative: what would be is nothing.
pub proof fn law_weight_by_distance(entry: RoadPlacementEntry, distance: u32)
    requires
        distance < u32::MAX,
    ensures
        entry.weight_at(0) == if entry.weight > 0 {
            entry.weight as int
        } else {
            0
        },
        entry.weight_at(distance) >= 0,
        entry.weight_at(distance) > 0 && entry.weight_at((distance + 1) as u32) > 0
            ==> entry.weight_at((distance + 1) as u32) - entry.weight_at(distance)
            == entry.weight_center_distance_bias,
        entry.weight_center_distance_bias <= 0 && entry.weight_at(distance) == 0
            ==> entry.weight_at((distance + 1) as u32) == 0,
{
    let bias = entry.weight_center_distance_bias as int;
    let d = distance as int;
    assert(bias * 0 == 0 && bias * (d + 1) == bias * d + bias) by (nonlinear_arith);
}

/// Every number below the sum of the weights falls to an entry.
pub proof fn law_every_number_falls(weights: Seq<u32>, selection: int)
    requires
        0 <= selection < weight_sum(weights, weights.len() as int),
    ensures
        exists|i: int| #[trigger] falls_to(weights, selection, i),
{
    lemma_falls_below(weights, selection, weights.len() as int);
}

proof fn lemma_falls_below(weights: Seq<u32>, selection: int, n: int)
    requires
        0 <= n <= weights.len(),
        0 <= selection < weight_sum(weights, n),
    ensures
        exists|i: int| #[trigger] falls_to(weights, selection, i),
    decreases n,
{
    if n > 0 {
        if selection < weight_sum(weights, n - 1) {
            lemma_falls_below(weights, selection, n - 1);
        } else {
            assert(falls_to(weights, selection, n - 1));
        }
    }
}

} // verus!
