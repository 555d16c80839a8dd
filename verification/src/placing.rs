//! How the held item is used: the block that it would place, what stands in the way, and the click.

use crate::block::{BlockEntry, BlockKey, BlockRotationMode, ItemAction, ItemBlockPlacement};
use crate::client_game::ClientGame;
use crate::client_world::WorldModel;
use crate::controls::{is_supported, item_use, use_item, ItemUse, Placement};
use crate::coord::{chunk_offset_spec, chunk_pos_spec, BlockPos, Vec3};
use crate::face::{Face, FaceMap};
use crate::raycast::RayCastResult;
use crate::rotation::BlockRotation;
use vstd::prelude::*;

verus! {

/// What items and blocks are like, as far as placing goes by it, each by its key.
pub struct PlacingRules<'a, C> {
    pub actions: &'a Vec<ItemAction<C>>,
    pub modes: &'a Vec<BlockRotationMode>,
    pub hanging: &'a Vec<Option<Face>>,
    pub supporting: &'a Vec<FaceMap<bool>>,
    pub air: BlockKey,
}

impl<'a, C> PlacingRules<'a, C> {
    /// Whether everything is known of each block that an item places.
    pub open spec fn wf(self) -> bool {
        &&& self.modes@.len() == self.hanging@.len()
        &&& self.modes@.len() == self.supporting@.len()
        &&& forall|i: int, j: int|
            0 <= i < self.actions@.len() && self.actions@[i] is Place && 0 <= j
                < self.actions@[i]->Place_0@.len() ==> (#[trigger] self.actions@[i]->Place_0@[j]).block.index()
                < self.modes@.len()
    }
}

/// A block that is about to be placed.
#[derive(Clone, Copy)]
pub struct PlannedBlock {
    pub block: BlockKey,
    pub use_count: u16,
    pub position: BlockPos,
    pub rotation: BlockRotation,
}

/// Whether all blocks around a block, and those around them, have positions.
pub open spec fn has_surroundings(position: BlockPos) -> bool {
    &&& i32::MIN + 2 <= position.x <= i32::MAX - 2
    &&& i32::MIN + 2 <= position.y <= i32::MAX - 2
    &&& i32::MIN + 2 <= position.z <= i32::MAX - 2
}

/// The block beside a block.
pub open spec fn beside(position: BlockPos, face: Face) -> BlockPos {
    Vec3 {
        x: (position.x + face.offset().x) as i32,
        y: (position.y + face.offset().y) as i32,
        z: (position.z + face.offset().z) as i32,
    }
}

fn step(position: BlockPos, face: Face) -> (r: BlockPos)
    requires
        i32::MIN < position.x < i32::MAX,
        i32::MIN < position.y < i32::MAX,
        i32::MIN < position.z < i32::MAX,
    ensures
        r == beside(position, face),
{
    let offset = face.get_block_offset();
    Vec3 { x: position.x + offset.x, y: position.y + offset.y, z: position.z + offset.z }
}

/// Whether the blocks beside a position are registered.
pub open spec fn knows_blocks<F, B>(world: WorldModel<F, B>, at: BlockPos, count: nat) -> bool {
    forall|face: Face|
        world.block_at(#[trigger] beside(at, face)) matches Some(entry) ==> entry.block.index()
            < count
}

/// Whether a block is held where it would hang.
pub open spec fn is_held<F, B>(
    world: WorldModel<F, B>,
    hanging: Option<Face>,
    supporting: Seq<FaceMap<bool>>,
    position: BlockPos,
    rotation: BlockRotation,
) -> bool {
    match hanging {
        None => true,
        Some(face) => {
            let side = rotation.orientation().apply_spec(face);
            match world.block_at(beside(position, side)) {
                None => false,
                Some(entry) => supporting[entry.block.index()].at(
                    crate::vertices::local_face(entry.rotation, side.opposite_spec()),
                ),
            }
        },
    }
}

impl<F: Copy, S, T, B> ClientGame<F, S, T, B> {
    /// The item that can be used: the one in the player's hand, while no screen is open.
    pub open spec fn used_item(self) -> Option<crate::net::ClientItem> {
        if self.screen is None {
            self.held()
        } else {
            None
        }
    }

    /// Whether the held item can be used: it is known, and where it would place a block it has the
    /// variation that is chosen of it.
    pub open spec fn can_use<C>(self, actions: Seq<ItemAction<C>>, result: RayCastResult) -> bool {
        self.used_item() matches Some(item) ==> {
            &&& item.item.index() < actions.len()
            &&& actions[item.item.index()] is Place && result is Block ==> self.variation(item.item)
                < actions[item.item.index()]->Place_0@.len()
        }
    }

    /// Whether the held item can be used.
    pub fn is_usable<C>(&self, actions: &Vec<ItemAction<C>>, result: RayCastResult) -> (r: bool)
        requires
            self.wf(),
        ensures
            r == self.can_use(actions@, result),
    {
        if self.screen.is_some() {
            return true;
        }
        match self.held_item() {
            Some(item) => {
                if item.item.numeric_id() >= actions.len() {
                    return false;
                }
                match (&actions[item.item.numeric_id()], result) {
                    (ItemAction::Place(placements), RayCastResult::Block(_, _)) => {
                        self.chosen_variation(item.item) < placements.len()
                    },
                    _ => true,
                }
            },
            None => true,
        }
    }

    /// What the held item would place on the block that the player looks at.
    pub open spec fn placed<C>(self, actions: Seq<ItemAction<C>>, result: RayCastResult) -> Option<
        ItemBlockPlacement,
    > {
        match (self.used_item(), result) {
            (Some(item), RayCastResult::Block(..)) => match actions[item.item.index()] {
                ItemAction::Place(placements) => Some(placements@[self.variation(item.item) as int]),
                _ => None,
            },
            _ => None,
        }
    }

    /// The block that the held item would place, turned to where the player looks. The direction is
    /// given by how well each face fits it.
    pub fn plan_block<C>(
        &self,
        rules: &PlacingRules<C>,
        result: RayCastResult,
        fitness: &FaceMap<i64>,
    ) -> (r: Option<PlannedBlock>)
        requires
            self.wf(),
            rules.wf(),
            self.can_use(rules.actions@, result),
            result matches RayCastResult::Block(position, _) ==> has_surroundings(position),
        ensures
            match (self.placed(rules.actions@, result), result) {
                (Some(placement), RayCastResult::Block(position, face)) => {
                    &&& r is Some
                    &&& r->0.block == placement.block
                    &&& r->0.use_count == placement.use_count
                    &&& r->0.position == beside(position, face)
                    &&& rules.modes@[placement.block.index()].is_looked_to(
                        *fitness,
                        face,
                        r->0.rotation,
                    )
                },
                _ => r is None,
            },
    {
        if self.screen.is_some() {
            return None;
        }
        match (self.held_item(), result) {
            (Some(item), RayCastResult::Block(position, face)) => {
                match &rules.actions[item.item.numeric_id()] {
                    ItemAction::Place(placements) => {
                        let placement = &placements[self.chosen_variation(item.item)];
                        let block = placement.block;
                        let mode = rules.modes[block.numeric_id()];
                        Some(
                            PlannedBlock {
                                block,
                                use_count: placement.use_count,
                                position: step(position, face),
                                rotation: mode.from_look_direction(fitness, face),
                            },
                        )
                    },
                    _ => None,
                }
            },
            _ => None,
        }
    }

    /// Whether the blocks beside a position are among the first `count` ones.
    pub fn are_blocks_known(&self, at: BlockPos, count: usize) -> (r: bool)
        requires
            self.wf(),
            i32::MIN < at.x < i32::MAX,
            i32::MIN < at.y < i32::MAX,
            i32::MIN < at.z < i32::MAX,
        ensures
            r == knows_blocks(self.world@, at, count as nat),
    {
        let faces = Face::all();
        let mut i: usize = 0;
        while i < 6
            invariant
                i <= 6,
                faces@ == Face::all_spec(),
                self.wf(),
                i32::MIN < at.x < i32::MAX,
                i32::MIN < at.y < i32::MAX,
                i32::MIN < at.z < i32::MAX,
                forall|j: int|
                    0 <= j < i ==> (self.world@.block_at(beside(at, #[trigger] faces@[j])) matches Some(
                        entry,
                    ) ==> entry.block.index() < count),
            decreases 6 - i,
        {
            match self.world.get_block(step(at, faces[i])) {
                Some(entry) => {
                    proof {
                        entry.block.lemma_index_fits();
                    }
                    if entry.block.numeric_id() >= count {
                        return false;
                    }
                },
                None => {},
            }
            i += 1;
        }
        proof {
            assert forall|face: Face|
                self.world@.block_at(#[trigger] beside(at, face)) is Some implies self.world@.block_at(
                beside(at, face),
            )->0.block.index() < count by {
                let j: int = match face {
                    Face::Front => 0,
                    Face::Back => 1,
                    Face::Up => 2,
                    Face::Down => 3,
                    Face::Left => 4,
                    Face::Right => 5,
                };
                assert(faces@[j] == face);
            }
        }
        true
    }

    /// What stands in the way of a block. `is_occupied` tells whether an entity does.
    pub fn check_block<C>(
        &self,
        rules: &PlacingRules<C>,
        planned: PlannedBlock,
        is_occupied: bool,
    ) -> (r: Placement)
        requires
            self.wf(),
            rules.wf(),
            self.held() is Some,
            planned.block.index() < rules.modes@.len(),
            i32::MIN < planned.position.x < i32::MAX,
            i32::MIN < planned.position.y < i32::MAX,
            i32::MIN < planned.position.z < i32::MAX,
            knows_blocks(self.world@, planned.position, rules.supporting@.len()),
        ensures
            r == (Placement {
                has_enough: planned.use_count <= self.held()->0.count,
                is_occupied,
                is_supported: is_held(
                    self.world@,
                    rules.hanging@[planned.block.index()],
                    rules.supporting@,
                    planned.position,
                    planned.rotation,
                ),
                is_free: self.world@.block_at(planned.position) matches Some(entry) && entry.block
                    == rules.air,
            }),
    {
        let at = planned.position;
        let neighbors = FaceMap {
            front: self.world.get_block(step(at, Face::Front)),
            back: self.world.get_block(step(at, Face::Back)),
            left: self.world.get_block(step(at, Face::Left)),
            right: self.world.get_block(step(at, Face::Right)),
            up: self.world.get_block(step(at, Face::Up)),
            down: self.world.get_block(step(at, Face::Down)),
        };
        proof {
            assert forall|face: Face| (#[trigger] neighbors.at(face)) == self.world@.block_at(
                beside(at, face),
            ) by {
                match face {
                    Face::Front => {},
                    Face::Back => {},
                    Face::Left => {},
                    Face::Right => {},
                    Face::Up => {},
                    Face::Down => {},
                }
            }
            planned.block.lemma_index_fits();
        }
        let has_enough = match self.held_item() {
            Some(item) => planned.use_count <= item.count,
            None => false,
        };
        let is_free = match self.world.get_block(at) {
            Some(entry) => entry.block.same(rules.air),
            None => false,
        };
        let hanging = rules.hanging[planned.block.numeric_id()];
        Placement {
            has_enough,
            is_occupied,
            is_supported: is_supported(hanging, planned.rotation, &neighbors, rules.supporting),
            is_free,
        }
    }

    /// A click with the held item. `placement` tells of the block that it would place. The ray to
    /// what the player looks at passes through plants.
    pub fn use_held<C>(
        &mut self,
        actions: &Vec<ItemAction<C>>,
        result: RayCastResult,
        placement: Placement,
        is_clicked: bool,
        is_hitting: bool,
    ) -> (r: ItemUse<F>)
        requires
            old(self).wf(),
            old(self).can_use(actions@, result),
            !(result is Plant),
        ensures
            final(self).wf(),
            r == match old(self).used_item() {
                Some(item) => item_use::<F, C>(
                    actions@[item.item.index()],
                    result,
                    old(self).variation(item.item),
                    placement,
                    is_clicked,
                    is_hitting,
                ),
                None => ItemUse::Nothing,
            },
            *final(self) == (ClientGame {
                current_local_action: match r {
                    ItemUse::Use { action, .. } => Some(action),
                    ItemUse::Nothing => old(self).current_local_action,
                },
                ..*old(self)
            }),
    {
        if self.screen.is_some() {
            return ItemUse::Nothing;
        }
        let item = match self.held_item() {
            Some(item) => item.item,
            None => {
                return ItemUse::Nothing;
            },
        };
        let variant = self.chosen_variation(item);
        let action = &actions[item.numeric_id()];
        let r = use_item(action, result, variant, placement, is_clicked, is_hitting);
        match &r {
            ItemUse::Use { action, .. } => {
                self.current_local_action = Some(*action);
            },
            ItemUse::Nothing => {},
        }
        r
    }
}

/// A block is placed only where the world is known and empty, and where nothing stands in the way.
pub proof fn law_placing_needs_room<F: Copy, C>(
    action: ItemAction<C>,
    result: RayCastResult,
    variant: usize,
    placement: Placement,
    is_clicked: bool,
    is_hitting: bool,
)
    requires
        action is Place,
        item_use::<F, C>(action, result, variant, placement, is_clicked, is_hitting) is Use,
    ensures
        placement.is_free,
        placement.has_enough,
        placement.is_supported,
        !placement.is_occupied,
        is_clicked,
        !is_hitting,
        result is Block,
{
}

/// A block that hangs on nothing is always held. One that hangs on a side is held where the block beyond
/// that side, turned as it stands, is known and supports the side that looks back.
pub proof fn law_hanging_blocks<F, B>(
    world: WorldModel<F, B>,
    hanging: Face,
    supporting: Seq<FaceMap<bool>>,
    position: BlockPos,
    rotation: BlockRotation,
    back: Face,
)
    ensures
        is_held(world, None, supporting, position, rotation),
        ({
            let side = rotation.orientation().apply_spec(hanging);
            let there = Vec3 {
                x: (position.x + side.offset().x) as i32,
                y: (position.y + side.offset().y) as i32,
                z: (position.z + side.offset().z) as i32,
            };
            match world.block_at(there) {
                None => !is_held(world, Some(hanging), supporting, position, rotation),
                Some(entry) => entry.rotation.orientation().apply_spec(back) == side.opposite_spec()
                    ==> is_held(world, Some(hanging), supporting, position, rotation) == (
                match back {
                    Face::Front => supporting[entry.block.index()].front,
                    Face::Back => supporting[entry.block.index()].back,
                    Face::Left => supporting[entry.block.index()].left,
                    Face::Right => supporting[entry.block.index()].right,
                    Face::Up => supporting[entry.block.index()].up,
                    Face::Down => supporting[entry.block.index()].down,
                }),
            }
        }),
{
    let side = rotation.orientation().apply_spec(hanging);
    if let Some(entry) = world.block_at(beside(position, side)) {
        let o = entry.rotation.orientation();
        crate::rotation::law_orientation_wf(entry.rotation);
        crate::orientation::law_apply_bijective(o, side.opposite_spec(), side.opposite_spec());
        let local = crate::vertices::local_face(entry.rotation, side.opposite_spec());
        assert(o.apply_spec(local) == side.opposite_spec());
        crate::orientation::law_apply_bijective(o, back, local);
    }
}

/// A block is placed from the item in the chosen slot while no screen is open and the player looks at a
/// block: it is the one that the item offers under the variation that is chosen of it.
pub proof fn law_placed_is_the_chosen_one<F: Copy, S, T, B, C>(
    game: ClientGame<F, S, T, B>,
    actions: Seq<ItemAction<C>>,
    result: RayCastResult,
)
    ensures
        game.placed(actions, result) is Some ==> {
            &&& game.screen is None
            &&& result is Block
            &&& game.hud.slots@[game.hotbar_slot as int] matches Some(item)
            &&& actions[item.item.index()] matches ItemAction::Place(placements)
            &&& game.placed(actions, result)->0 == placements@[game.variation(item.item) as int]
        },
        game.screen is None && result is Block ==> match game.hud.slots@[game.hotbar_slot as int] {
            Some(item) => actions[item.item.index()] is Place ==> game.placed(actions, result) is Some,
            None => game.placed(actions, result) is None,
        },
{
}

} // verus!
