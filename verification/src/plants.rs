//! The plants that grow on a block.

use crate::registry::{Key, PlantKey};
use smallvec::SmallVec;
use vstd::prelude::*;

verus! {

/// Plants, each with the stage that it is in, in a vector of `smallvec` that holds one of them
/// without an allocation.
#[verifier::external_body]
pub struct PlantList {
    list: SmallVec<[(u32, u8); 1]>,
}

/// The numbers of the plants of a list and their stages, in order.
pub uninterp spec fn plant_entries(plants: PlantList) -> Seq<(u32, u8)>;

/// An empty list.
///
/// `SmallVec::new`: the vector holds nothing.
#[verifier::external_body]
fn entries_new() -> (r: PlantList)
    ensures
        plant_entries(r) == Seq::<(u32, u8)>::empty(),
{
    PlantList { list: SmallVec::new() }
}

/// How many entries a list has.
///
/// `SmallVec::len`: the number of the values that the vector holds.
#[verifier::external_body]
fn entries_len(plants: &PlantList) -> (r: usize)
    ensures
        r == plant_entries(*plants).len(),
{
    plants.list.len()
}

/// The entry at a place.
///
/// `SmallVec::index`, which is that of the slice of its values: the value at the place.
#[verifier::external_body]
fn entries_at(plants: &PlantList, i: usize) -> (r: (u32, u8))
    requires
        i < plant_entries(*plants).len(),
    ensures
        r == plant_entries(*plants)[i as int],
{
    plants.list[i]
}

/// Appends an entry.
///
/// `SmallVec::push`: the value comes last, those before it stay.
#[verifier::external_body]
fn entries_push(plants: &mut PlantList, plant: u32, stage: u8)
    ensures
        plant_entries(*final(plants)) == plant_entries(*old(plants)).push((plant, stage)),
{
    plants.list.push((plant, stage));
}

impl View for PlantList {
    type V = Seq<(PlantKey, u8)>;

    open spec fn view(&self) -> Seq<(PlantKey, u8)> {
        plant_entries(*self).map_values(|entry: (u32, u8)| (Key::of_index(entry.0), entry.1))
    }
}

impl PlantList {
    /// No plants.
    pub fn new() -> (r: PlantList)
        ensures
            r@ == Seq::<(PlantKey, u8)>::empty(),
    {
        let r = entries_new();
        assert(r@ =~= Seq::<(PlantKey, u8)>::empty());
        r
    }

    /// How many plants there are.
    pub fn len(&self) -> (r: usize)
        ensures
            r == self@.len(),
    {
        entries_len(self)
    }

    /// A plant and its stage.
    pub fn at(&self, i: usize) -> (r: (PlantKey, u8))
        requires
            i < self@.len(),
        ensures
            r == self@[i as int],
    {
        let (plant, stage) = entries_at(self, i);
        (Key::from_index(plant), stage)
    }

    /// Adds a plant.
    pub fn push(&mut self, plant: PlantKey, stage: u8)
        ensures
            final(self)@ == old(self)@.push((plant, stage)),
    {
        entries_push(self, plant.index_number(), stage);
        assert(self@ =~= old(self)@.push((plant, stage)));
    }
}

}
