//! Moving items and the slots of inventories that a screen or a machine sees.

use crate::registry::{ItemData, KeyGroup};
use vstd::prelude::*;

verus! {

#[derive(Copy, Clone, PartialEq, Eq, Structural, Debug)]
pub enum ItemMoveMode {
    Stack,
    Single,
    Half,
    KeepOne,
}

impl ItemMoveMode {
    /// How many of `count` items are moved.
    pub open spec fn count_spec(self, count: int) -> int {
        match self {
            ItemMoveMode::Stack => count,
            ItemMoveMode::Single => 1,
            ItemMoveMode::Half => (count + 1) / 2,
            ItemMoveMode::KeepOne => if count > 1 {
                count - 1
            } else {
                0
            },
        }
    }

    /// How many of `count` items are moved.
    pub fn get_count(self, count: u16) -> (r: u16)
        ensures
            r == self.count_spec(count as int),
    {
        match self {
            ItemMoveMode::Stack => count,
            ItemMoveMode::Single => 1,
            ItemMoveMode::Half => count / 2 + count % 2,
            ItemMoveMode::KeepOne => {
                if count > 1 {
                    count - 1
                } else {
                    0
                }
            },
        }
    }

    /// Whether items of another kind may take the place of the moved ones.
    pub fn can_swap(self) -> (r: bool)
        ensures
            r == (self == ItemMoveMode::Stack),
    {
        match self {
            ItemMoveMode::Stack => true,
            _ => false,
        }
    }
}

/// Moving never takes more items than there are, as long as there are any.
pub proof fn law_move_count(mode: ItemMoveMode, count: int)
    requires
        count >= 1,
    ensures
        0 <= mode.count_spec(count) <= count,
{
}

/// One slot of an inventory as it is seen.
#[derive(Clone, Copy)]
pub struct ViewSlot {
    pub slot: usize,
    pub stack_size_override: Option<u16>,
    pub filter: Option<KeyGroup<ItemData>>,
    pub input: bool,
    pub output: bool,
}

/// The slots of an inventory that are seen, in order.
pub struct InventoryView {
    pub slots: Vec<ViewSlot>,
}

/// A slot without restrictions.
pub open spec fn plain_slot(slot: usize) -> ViewSlot {
    ViewSlot { slot, stack_size_override: None, filter: None, input: true, output: true }
}

impl InventoryView {
    /// The slots from `start` up to `end`, without restrictions.
    pub fn from_range(start: usize, end: usize) -> (r: InventoryView)
        ensures
            r.slots@ == Seq::new(
                if start <= end {
                    (end - start) as nat
                } else {
                    0
                },
                |i: int| plain_slot((start + i) as usize),
            ),
    {
        let mut slots: Vec<ViewSlot> = Vec::new();
        let mut slot: usize = start;
        while slot < end
            invariant
                start <= slot,
                start <= end ==> slot <= end,
                start > end ==> slot == start,
                slots@ == Seq::new((slot - start) as nat, |i: int| plain_slot((start + i) as usize)),
            decreases end - slot,
        {
            slots.push(
                ViewSlot { slot, stack_size_override: None, filter: None, input: true, output: true },
            );
            assert(slots@ =~= Seq::new(
                (slot + 1 - start) as nat,
                |i: int| plain_slot((start + i) as usize),
            ));
            slot += 1;
        }
        InventoryView { slots }
    }

    /// How many slots are seen.
    pub fn size(&self) -> (r: usize)
        ensures
            r == self.slots@.len(),
    {
        self.slots.len()
    }
}

impl Default for InventoryView {
    fn default() -> (r: InventoryView)
        ensures
            r.slots@ == Seq::<ViewSlot>::empty(),
    {
        InventoryView { slots: Vec::new() }
    }
}

/// The whole stack leaves nothing, a single item is one, half of a stack is as much as the rest or one
/// more, and of a stack of which one is kept one is left.
pub proof fn law_move_leaves(count: int)
    requires
        count >= 1,
    ensures
        count - ItemMoveMode::Stack.count_spec(count) == 0,
        ItemMoveMode::Single.count_spec(count) == 1,
        0 <= ItemMoveMode::Half.count_spec(count) - (count - ItemMoveMode::Half.count_spec(count))
            <= 1,
        count - ItemMoveMode::KeepOne.count_spec(count) == 1,
{
}

/// A slot without restrictions is the slot of that number: items go in and out, of every kind and in
/// stacks of their own size.
pub proof fn law_plain_slot(slot: usize)
    ensures
        plain_slot(slot).slot == slot,
        plain_slot(slot).input,
        plain_slot(slot).output,
        plain_slot(slot).filter is None,
        plain_slot(slot).stack_size_override is None,
{
}

} // verus!
