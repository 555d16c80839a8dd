//! What the player's keys and buttons do to the game.

use crate::block::{BlockEntry, BlockInteractAction, EntityInteractAction, ItemAction};
use crate::client_game::{ClientGame, HOTBAR_SLOTS};
use crate::color::Color;
use crate::face::{Face, FaceMap};
use crate::movement::{EntityPose, MoveMode};
use crate::net::{EntityAction, ItemInteractTarget, NetworkMessageC2S};
use crate::raycast::RayCastResult;
use crate::registry::ItemKey;
use crate::rotation::BlockRotation;
use crate::text;
use vstd::prelude::*;

verus! {

/// The number by which the variation of an item is found.
pub open spec fn variation_key(item: ItemKey) -> u128 {
    item.index() as u128
}

/// `steps` places on from `from`, on a circle of `count`.
pub fn turn(from: usize, steps: i32, count: usize) -> (r: usize)
    requires
        count > 0,
    ensures
        r == (from + steps) % (count as int),
        r < count,
{
    let n: u128 = count as u128;
    let at: u128 = from as u128 % n;
    proof {
        let c = count as int;
        vstd::arithmetic::div_mod::lemma_mod_bound(from + steps, c);
        vstd::arithmetic::div_mod::lemma_mod_bound(from as int, c);
    }
    if steps >= 0 {
        let forward: u128 = steps as u128 % n;
        proof {
            vstd::arithmetic::div_mod::lemma_add_mod_noop(from as int, steps as int, count as int);
        }
        ((at + forward) % n) as usize
    } else {
        let back: u128 = (-(steps as i64)) as u128 % n;
        proof {
            let c = count as int;
            vstd::arithmetic::div_mod::lemma_mod_bound(-steps, c);
            vstd::arithmetic::div_mod::lemma_sub_mod_noop(from as int, -steps, c);
            let rest = at as int - back as int;
            vstd::arithmetic::div_mod::lemma_mod_add_multiples_vanish(rest, c);
            assert((rest + c) % c == rest % c);
        }
        ((at + n - back) % n) as usize
    }
}

impl<F: Copy, S, T, B> ClientGame<F, S, T, B> {
    /// The variation of an item that the player has chosen.
    pub open spec fn variation(self, item: ItemKey) -> usize {
        if self.item_variation@.contains_key(variation_key(item)) {
            self.item_variation@[variation_key(item)]
        } else {
            0
        }
    }

    /// The variation of an item that the player has chosen.
    pub fn chosen_variation(&self, item: ItemKey) -> (r: usize)
        requires
            self.wf(),
        ensures
            r == self.variation(item),
    {
        match self.item_variation.get(item.numeric_id() as u128) {
            Some(variation) => *variation,
            None => 0,
        }
    }

    /// The game with another variation of an item chosen.
    pub open spec fn is_varied(
        before: ClientGame<F, S, T, B>,
        after: ClientGame<F, S, T, B>,
        item: ItemKey,
        variation: usize,
        needs_equip: bool,
    ) -> bool {
        &&& after.item_variation@ == before.item_variation@.insert(variation_key(item), variation)
        &&& after == (ClientGame {
            item_variation: after.item_variation,
            needs_equip: before.needs_equip || needs_equip,
            ..before
        })
    }

    /// A digit while the variation is chosen: the variation with that number, if the held item has
    /// so many.
    pub fn choose_variation(&mut self, slot: usize, variation_count: usize)
        requires
            old(self).wf(),
        ensures
            final(self).wf(),
            match old(self).held() {
                Some(item) => if slot < variation_count {
                    Self::is_varied(
                        *old(self),
                        *final(self),
                        item.item,
                        slot,
                        old(self).variation(item.item) != slot,
                    )
                } else {
                    *final(self) == *old(self)
                },
                None => *final(self) == *old(self),
            },
    {
        let item = match self.held_item() {
            Some(item) => item.item,
            None => {
                return ;
            },
        };
        if slot < variation_count {
            if self.chosen_variation(item) != slot {
                self.needs_equip = true;
            }
            self.item_variation.insert(item.numeric_id() as u128, slot);
        }
    }

    /// The game with another slot chosen. What is held or put away has to be equipped.
    pub open spec fn slot_chosen(self, slot: usize) -> ClientGame<F, S, T, B> {
        ClientGame {
            hotbar_slot: slot,
            needs_equip: self.needs_equip || self.hud.slots@[slot as int] is Some
                || self.swap_hand_item is Some,
            ..self
        }
    }

    fn set_hotbar_slot(&mut self, slot: usize) -> (r: NetworkMessageC2S<F>)
        requires
            old(self).wf(),
            slot < HOTBAR_SLOTS,
        ensures
            final(self).wf(),
            *final(self) == old(self).slot_chosen(slot),
            r == (NetworkMessageC2S::<F>::HotbarSelect { slot }),
    {
        self.hotbar_slot = slot;
        if self.held_item().is_some() || self.swap_hand_item.is_some() {
            self.needs_equip = true;
        }
        NetworkMessageC2S::HotbarSelect { slot }
    }

    /// A digit: the slot with that number, unless it is chosen already.
    pub fn choose_slot(&mut self, slot: usize) -> (r: Option<NetworkMessageC2S<F>>)
        requires
            old(self).wf(),
            slot < HOTBAR_SLOTS,
        ensures
            final(self).wf(),
            if slot == old(self).hotbar_slot {
                r is None && *final(self) == *old(self)
            } else {
                &&& r == Some(NetworkMessageC2S::<F>::HotbarSelect { slot })
                &&& *final(self) == old(self).slot_chosen(slot)
            },
    {
        if self.hotbar_slot != slot {
            Some(self.set_hotbar_slot(slot))
        } else {
            None
        }
    }

    /// The wheel: so many slots on, round and round.
    pub fn scroll_slot(&mut self, steps: i32) -> (r: NetworkMessageC2S<F>)
        requires
            old(self).wf(),
        ensures
            final(self).wf(),
            ({
                let slot = ((old(self).hotbar_slot + steps) % (HOTBAR_SLOTS as int)) as usize;
                &&& r == (NetworkMessageC2S::<F>::HotbarSelect { slot })
                &&& *final(self) == old(self).slot_chosen(slot)
            }),
    {
        let slot = turn(self.hotbar_slot, steps, HOTBAR_SLOTS);
        self.set_hotbar_slot(slot)
    }

    /// The wheel while the variation is chosen: so many variations on, if the held item has several.
    pub fn scroll_variation(&mut self, steps: i32, variation_count: usize)
        requires
            old(self).wf(),
        ensures
            final(self).wf(),
            match old(self).held() {
                Some(item) => if variation_count > 1 {
                    Self::is_varied(
                        *old(self),
                        *final(self),
                        item.item,
                        ((old(self).variation(item.item) + steps) % (variation_count as int)) as usize,
                        true,
                    )
                } else {
                    *final(self) == *old(self)
                },
                None => *final(self) == *old(self),
            },
    {
        let item = match self.held_item() {
            Some(item) => item.item,
            None => {
                return ;
            },
        };
        if variation_count > 1 {
            let variation = turn(self.chosen_variation(item), steps, variation_count);
            self.item_variation.insert(item.numeric_id() as u128, variation);
            self.needs_equip = true;
        }
    }

    /// The message of an interaction with what the player looks at, which `is_ignored` if it does
    /// nothing.
    pub open spec fn interaction(result: RayCastResult, is_ignored: bool) -> Option<
        NetworkMessageC2S<F>,
    > {
        match result {
            RayCastResult::Empty => None,
            RayCastResult::Block(position, _) => if is_ignored {
                None
            } else {
                Some(NetworkMessageC2S::InteractBlock { position })
            },
            RayCastResult::Entity(entity) => if is_ignored {
                None
            } else {
                Some(NetworkMessageC2S::InteractEntity { entity })
            },
            RayCastResult::Plant(position, index) => Some(
                NetworkMessageC2S::HarvestPlant { position, index },
            ),
        }
    }

    /// Interacts with what the player looks at. The hand moves, except to harvest.
    pub fn interact(&mut self, result: RayCastResult, is_ignored: bool) -> (r: Option<
        NetworkMessageC2S<F>,
    >)
        ensures
            r == Self::interaction(result, is_ignored),
            *final(self) == (ClientGame {
                current_local_action: if r is Some && !(result is Plant) {
                    Some(EntityAction::Interact)
                } else {
                    old(self).current_local_action
                },
                ..*old(self)
            }),
    {
        match result {
            RayCastResult::Empty => None,
            RayCastResult::Block(position, _) => {
                if is_ignored {
                    None
                } else {
                    self.current_local_action = Some(EntityAction::Interact);
                    Some(NetworkMessageC2S::InteractBlock { position })
                }
            },
            RayCastResult::Entity(entity) => {
                if is_ignored {
                    None
                } else {
                    self.current_local_action = Some(EntityAction::Interact);
                    Some(NetworkMessageC2S::InteractEntity { entity })
                }
            },
            RayCastResult::Plant(position, index) => Some(
                NetworkMessageC2S::HarvestPlant { position, index },
            ),
        }
    }

    /// Escape: what is dragged is let go, or else the screen is left.
    pub fn escape(&mut self) -> (r: Option<NetworkMessageC2S<F>>)
        requires
            old(self).wf(),
        ensures
            final(self).wf(),
            match old(self).screen {
                Some(screen) if screen.selected_slot is Some => {
                    &&& r is None
                    &&& *final(self) == (ClientGame {
                        screen: Some(
                            crate::screen::ScreenData { selected_slot: None, ..screen },
                        ),
                        ..*old(self)
                    })
                },
                _ => r == Some(NetworkMessageC2S::<F>::CloseUI) && *final(self) == *old(self),
            },
    {
        match &mut self.screen {
            Some(screen) => {
                if screen.selected_slot.is_some() {
                    screen.selected_slot = None;
                    return None;
                }
            },
            None => {},
        }
        Some(NetworkMessageC2S::CloseUI)
    }

    /// Tab: the inventory is opened, or the screen that is open is left.
    pub fn toggle_inventory(&self) -> (r: NetworkMessageC2S<F>)
        ensures
            r == if self.screen is Some {
                NetworkMessageC2S::<F>::CloseUI
            } else {
                NetworkMessageC2S::<F>::OpenPlayerInventory
            },
    {
        if self.screen.is_some() {
            NetworkMessageC2S::CloseUI
        } else {
            NetworkMessageC2S::OpenPlayerInventory
        }
    }

    /// The action that a frame begins with: what has to be equipped is equipped; else an attack that
    /// waits begins, unless one is under way, if the player has the strength for it. Returns whether
    /// it begins.
    pub fn begin_action(&mut self, is_hitting: bool, is_strong_enough: bool) -> (r: bool)
        ensures
            ({
                let action = if old(self).needs_equip {
                    Some(EntityAction::Equip)
                } else {
                    old(self).current_local_action
                };
                let tries = action is None && old(self).is_attack_queued && !is_hitting;
                &&& r == (tries && is_strong_enough)
                &&& *final(self) == (ClientGame {
                    needs_equip: false,
                    current_local_action: if r {
                        Some(EntityAction::Attack)
                    } else {
                        action
                    },
                    is_attack_queued: old(self).is_attack_queued && !tries,
                    ..*old(self)
                })
            }),
    {
        if self.needs_equip {
            self.needs_equip = false;
            self.current_local_action = Some(EntityAction::Equip);
        }
        if self.current_local_action.is_none() {
            if self.is_attack_queued && !is_hitting {
                self.is_attack_queued = false;
                if is_strong_enough {
                    self.current_local_action = Some(EntityAction::Attack);
                    return true;
                }
            }
        }
        false
    }
}

/// Turning back undoes a turn.
pub proof fn law_turn_back(from: int, steps: int, count: int)
    requires
        0 <= from < count,
    ensures
        ((from + steps) % count - steps) % count == from,
{
    vstd::arithmetic::div_mod::lemma_sub_mod_noop(from + steps, steps, count);
    vstd::arithmetic::div_mod::lemma_sub_mod_noop((from + steps) % count, steps, count);
    vstd::arithmetic::div_mod::lemma_mod_twice(from + steps, count);
    vstd::arithmetic::div_mod::lemma_small_mod(from as nat, count as nat);
}

/// The message of a blow that has landed.
pub fn land_blow<F: Copy>(result: RayCastResult) -> (r: Option<NetworkMessageC2S<F>>)
    ensures
        r == match result {
            RayCastResult::Block(position, face) => Some(
                NetworkMessageC2S::<F>::AttackBlock { position, face },
            ),
            RayCastResult::Entity(entity) => Some(NetworkMessageC2S::<F>::AttackEntity { entity }),
            _ => None,
        },
{
    match result {
        RayCastResult::Block(position, face) => Some(
            NetworkMessageC2S::AttackBlock { position, face },
        ),
        RayCastResult::Entity(entity) => Some(NetworkMessageC2S::AttackEntity { entity }),
        _ => None,
    }
}

/// The brightness of the crosshair: it is brighter on something within reach.
pub fn crosshair_brightness(result: RayCastResult) -> (r: u8)
    ensures
        r == if result is Empty {
            200u8
        } else {
            255u8
        },
{
    match result {
        RayCastResult::Empty => 200,
        _ => 255,
    }
}

/// The key of the hint that is shown for what the player looks at.
pub open spec fn hint_spec(
    result: RayCastResult,
    block: Option<BlockInteractAction>,
    entity: Option<EntityInteractAction>,
) -> Option<Seq<char>> {
    match result {
        RayCastResult::Empty => None,
        RayCastResult::Block(_, _) => match block {
            Some(action) => action.tooltip_spec(),
            None => None,
        },
        RayCastResult::Entity(_) => match entity {
            Some(action) => action.tooltip_spec(),
            None => None,
        },
        RayCastResult::Plant(_, _) => Some("harvest"@),
    }
}

/// The key of the hint that is shown for what the player looks at, given what a block or an entity
/// there offers.
pub fn hint(
    result: RayCastResult,
    block: Option<&BlockInteractAction>,
    entity: Option<&EntityInteractAction>,
) -> (r: Option<&'static str>)
    ensures
        crate::block::optional_view(r) == hint_spec(
            result,
            match block {
                Some(action) => Some(*action),
                None => None,
            },
            match entity {
                Some(action) => Some(*action),
                None => None,
            },
        ),
{
    match result {
        RayCastResult::Empty => None,
        RayCastResult::Block(_, _) => match block {
            Some(action) => action.tooltip(),
            None => None,
        },
        RayCastResult::Entity(_) => match entity {
            Some(action) => action.tooltip(),
            None => None,
        },
        RayCastResult::Plant(_, _) => Some("harvest"),
    }
}

/// The hint as it is shown, given its translation.
pub fn hint_text(translation: &str) -> (r: String)
    ensures
        r@ == "[E]"@ + translation@,
{
    text::joined("[E]", translation)
}

/// How the player moves.
#[derive(Copy, Clone, PartialEq, Eq, Structural, Debug)]
pub struct Gait {
    pub running: bool,
    pub walking: bool,
    pub crouching: bool,
}

impl Gait {
    /// The pose of a player who moves like this.
    pub open spec fn pose_spec(self) -> EntityPose {
        if self.crouching {
            if self.walking {
                EntityPose::CrouchWalk
            } else {
                EntityPose::Crouch
            }
        } else if self.running {
            EntityPose::Run
        } else if self.walking {
            EntityPose::Walk
        } else {
            EntityPose::Stand
        }
    }

    /// The pose of a player who moves like this.
    pub fn pose(self) -> (r: EntityPose)
        ensures
            r == self.pose_spec(),
            r.is_low() == self.crouching,
    {
        match (self.crouching, self.walking, self.running) {
            (false, _, true) => EntityPose::Run,
            (false, true, _) => EntityPose::Walk,
            (false, false, _) => EntityPose::Stand,
            (true, true, _) => EntityPose::CrouchWalk,
            (true, false, _) => EntityPose::Crouch,
        }
    }

    /// How the player moves: runs with the key held as long as there is movement and the strength for
    /// it, crouches with the key held, and wherever there is no room to stand.
    pub fn decide(
        is_moving: bool,
        run_key: bool,
        is_exhausted: bool,
        crouch_key: bool,
        can_move: bool,
        has_room: bool,
        mode: MoveMode,
    ) -> (r: Gait)
        ensures
            r == (Gait {
                running: run_key && is_moving && !is_exhausted,
                walking: is_moving,
                crouching: (crouch_key && can_move) || (!has_room && mode != MoveMode::NoClip),
            }),
    {
        let wants = crouch_key && can_move;
        let forced = match mode {
            MoveMode::Normal | MoveMode::Fly => !wants && !has_room,
            MoveMode::NoClip => false,
        };
        Gait {
            running: run_key && is_moving && !is_exhausted,
            walking: is_moving,
            crouching: wants || forced,
        }
    }
}

/// The way a player with the given flight moves.
pub fn player_move_mode(has_flight: bool) -> (r: MoveMode)
    ensures
        r == if has_flight {
            MoveMode::Fly
        } else {
            MoveMode::Normal
        },
{
    if has_flight {
        MoveMode::Fly
    } else {
        MoveMode::Normal
    }
}

/// Whether the player jumps off.
pub fn jumps(mode: MoveMode, jump_key: bool, on_ground: bool, can_move: bool) -> (r: bool)
    ensures
        r == (mode == MoveMode::Normal && jump_key && on_ground && can_move),
{
    match mode {
        MoveMode::Normal => jump_key && on_ground && can_move,
        _ => false,
    }
}

/// Whether the player is slower for crouching.
pub fn is_slowed(mode: MoveMode, gait: Gait) -> (r: bool)
    ensures
        r == (mode == MoveMode::Normal && gait.crouching),
{
    match mode {
        MoveMode::Normal => gait.crouching,
        _ => false,
    }
}

/// The keys that move the player.
#[derive(Copy, Clone, PartialEq, Eq, Structural, Debug)]
pub struct MoveKeys {
    pub forward: bool,
    pub back: bool,
    pub left: bool,
    pub right: bool,
    pub up: bool,
    pub down: bool,
}

/// 1 for a key that is held, 0 for another.
pub open spec fn held_value(key: bool) -> int {
    if key {
        1
    } else {
        0
    }
}

fn difference(plus: bool, minus: bool) -> (r: i8)
    ensures
        r == held_value(plus) - held_value(minus),
{
    if plus == minus {
        0
    } else if plus {
        1
    } else {
        -1
    }
}

impl MoveKeys {
    /// The direction of the movement: to the right, up and ahead. Opposite keys cancel out.
    pub fn direction(self, can_move: bool) -> (r: (i8, i8, i8))
        ensures
            can_move ==> r.0 == held_value(self.right) - held_value(self.left) && r.1
                == held_value(self.up) - held_value(self.down) && r.2 == held_value(self.forward)
                - held_value(self.back),
            !can_move ==> r == (0i8, 0i8, 0i8),
    {
        if can_move {
            (
                difference(self.right, self.left),
                difference(self.up, self.down),
                difference(self.forward, self.back),
            )
        } else {
            (0, 0, 0)
        }
    }
}

/// What the player does with the held item.
pub enum ItemUse<F: Copy> {
    Nothing,
    /// The item is used; the hand moves so.
    Use { action: EntityAction, message: NetworkMessageC2S<F> },
}

/// What stands in the way of a block that is about to be placed.
#[derive(Copy, Clone, PartialEq, Eq, Structural, Debug)]
pub struct Placement {
    pub has_enough: bool,
    pub is_occupied: bool,
    /// Whether the block hangs, and on something that holds it.
    pub is_supported: bool,
    /// Whether the place is known and empty.
    pub is_free: bool,
}

impl Placement {
    /// Whether something stands in the way.
    pub open spec fn is_blocked_spec(self) -> bool {
        !self.has_enough || self.is_occupied || !self.is_supported
    }

    /// Whether something stands in the way.
    pub fn is_blocked(self) -> (r: bool)
        ensures
            r == self.is_blocked_spec(),
    {
        !self.has_enough || self.is_occupied || !self.is_supported
    }

    /// The tint in which the block is shown before it is placed, if it is: where it could stand, and
    /// only if the player wants to see it.
    pub fn preview(self, is_wanted: bool) -> (r: Option<Color>)
        ensures
            r == if !self.is_free || !is_wanted {
                None
            } else if self.is_blocked_spec() {
                Some(Color { r: 255, g: 100, b: 100, a: 150 })
            } else {
                Some(Color { r: 255, g: 255, b: 255, a: 150 })
            },
    {
        if !self.is_free || !is_wanted {
            None
        } else if self.is_blocked() {
            Some(Color { r: 255, g: 100, b: 100, a: 150 })
        } else {
            Some(Color { r: 255, g: 255, b: 255, a: 150 })
        }
    }
}

/// Whether a block that hangs on `hanging` in its unturned state is held: there is a known block that
/// supports it. A block that does not hang is always held.
pub fn is_supported(
    hanging: Option<Face>,
    rotation: BlockRotation,
    neighbors: &FaceMap<Option<BlockEntry>>,
    supporting: &Vec<FaceMap<bool>>,
) -> (r: bool)
    requires
        forall|face: Face|
            (#[trigger] neighbors.at(face)) matches Some(entry) ==> entry.block.index()
                < supporting@.len(),
    ensures
        r == match hanging {
            None => true,
            Some(face) => match neighbors.at(rotation.orientation().apply_spec(face)) {
                None => false,
                Some(entry) => supporting@[entry.block.index()].at(
                    crate::vertices::local_face(
                        entry.rotation,
                        rotation.orientation().apply_spec(face).opposite_spec(),
                    ),
                ),
            },
        },
{
    match hanging {
        None => true,
        Some(face) => {
            let world_face = rotation.rotate_face(face);
            match neighbors.by_face(world_face) {
                None => false,
                Some(entry) => {
                    assert(neighbors.at(world_face) == Some(*entry));
                    proof {
                        entry.block.lemma_index_fits();
                        let side = crate::vertices::local_face(
                            entry.rotation,
                            world_face.opposite_spec(),
                        );
                        crate::rotation::law_orientation_wf(entry.rotation);
                        crate::orientation::law_apply_bijective(
                            entry.rotation.orientation(),
                            world_face.opposite_spec(),
                            side,
                        );
                        assert(entry.rotation.orientation().apply_spec(side)
                            == world_face.opposite_spec());
                    }
                    entry.supports(&supporting[entry.block.numeric_id()], world_face.opposite())
                },
            }
        },
    }
}

/// What a click with the held item comes to. `placement` tells of the block that it would place.
pub open spec fn item_use<F: Copy, C>(
    action: ItemAction<C>,
    result: RayCastResult,
    variant: usize,
    placement: Placement,
    is_clicked: bool,
    is_hitting: bool,
) -> ItemUse<F> {
    let on_block = match result {
        RayCastResult::Block(position, face) => Some(ItemInteractTarget::Block { position, face }),
        _ => None,
    };
    match action {
        ItemAction::Place(_) => match on_block {
            Some(target) => if is_clicked && placement.is_free && !placement.is_blocked_spec()
                && !is_hitting {
                ItemUse::Use {
                    action: EntityAction::Place,
                    message: NetworkMessageC2S::ItemInteraction { target, variant },
                }
            } else {
                ItemUse::Nothing
            },
            None => ItemUse::Nothing,
        },
        ItemAction::Ignore => ItemUse::Nothing,
        ItemAction::Consume(_) => if is_clicked {
            ItemUse::Use {
                action: EntityAction::Interact,
                message: NetworkMessageC2S::ItemInteraction {
                    target: match result {
                        RayCastResult::Block(position, face) => ItemInteractTarget::Block {
                            position,
                            face,
                        },
                        RayCastResult::Entity(entity) => ItemInteractTarget::Entity { entity },
                        _ => ItemInteractTarget::Empty,
                    },
                    variant,
                },
            }
        } else {
            ItemUse::Nothing
        },
        _ => match on_block {
            Some(target) => if is_clicked {
                ItemUse::Use {
                    action: EntityAction::Interact,
                    message: NetworkMessageC2S::ItemInteraction { target, variant },
                }
            } else {
                ItemUse::Nothing
            },
            None => ItemUse::Nothing,
        },
    }
}

/// What a click with the held item comes to. The ray passes through plants.
pub fn use_item<F: Copy, C>(
    action: &ItemAction<C>,
    result: RayCastResult,
    variant: usize,
    placement: Placement,
    is_clicked: bool,
    is_hitting: bool,
) -> (r: ItemUse<F>)
    requires
        !(result is Plant),
    ensures
        r == item_use::<F, C>(*action, result, variant, placement, is_clicked, is_hitting),
{
    let on_block = match result {
        RayCastResult::Block(position, face) => Some(ItemInteractTarget::Block { position, face }),
        _ => None,
    };
    match action {
        ItemAction::Place(_) => match on_block {
            Some(target) => if is_clicked && placement.is_free && !placement.is_blocked()
                && !is_hitting {
                ItemUse::Use {
                    action: EntityAction::Place,
                    message: NetworkMessageC2S::ItemInteraction { target, variant },
                }
            } else {
                ItemUse::Nothing
            },
            None => ItemUse::Nothing,
        },
        ItemAction::Ignore => ItemUse::Nothing,
        ItemAction::Consume(_) => if is_clicked {
            let target = match result {
                RayCastResult::Block(position, face) => ItemInteractTarget::Block { position, face },
                RayCastResult::Entity(entity) => ItemInteractTarget::Entity { entity },
                _ => ItemInteractTarget::Empty,
            };
            ItemUse::Use {
                action: EntityAction::Interact,
                message: NetworkMessageC2S::ItemInteraction { target, variant },
            }
        } else {
            ItemUse::Nothing
        },
        _ => match on_block {
            Some(target) => if is_clicked {
                ItemUse::Use {
                    action: EntityAction::Interact,
                    message: NetworkMessageC2S::ItemInteraction { target, variant },
                }
            } else {
                ItemUse::Nothing
            },
            None => ItemUse::Nothing,
        },
    }
}

/// Using an item takes a click, and an item that does nothing is never used. What is sent names the
/// chosen variation and what the player looks at: a block with the side of it, an entity only for an item
/// that is eaten, which can be eaten in the air too. The hand places blocks and interacts with all else.
pub proof fn law_item_use<F: Copy, C>(
    action: ItemAction<C>,
    result: RayCastResult,
    variant: usize,
    placement: Placement,
    is_clicked: bool,
    is_hitting: bool,
)
    ensures
        ({
            let used = item_use::<F, C>(
                action,
                result,
                variant,
                placement,
                is_clicked,
                is_hitting,
            );
            &&& !is_clicked || action is Ignore ==> used is Nothing
            &&& used matches ItemUse::Use { action: hand, message } ==> {
                &&& hand == if action is Place {
                    EntityAction::Place
                } else {
                    EntityAction::Interact
                }
                &&& message matches NetworkMessageC2S::ItemInteraction { target, variant: v }
                &&& v == variant
                &&& match target {
                    ItemInteractTarget::Block { position, face } => result == RayCastResult::Block(
                        position,
                        face,
                    ),
                    ItemInteractTarget::Entity { entity } => action is Consume && result
                        == RayCastResult::Entity(entity),
                    ItemInteractTarget::Empty => action is Consume && !(result is Block)
                        && !(result is Entity),
                }
            }
            &&& is_clicked && action is Consume ==> used is Use
            &&& is_clicked && result is Block && (action is SpawnEntity || action is Plant
                || action is RotateBlock) ==> used is Use
            &&& action is Place ==> (used is Use <==> is_clicked && !is_hitting && result is Block
                && placement.is_free && placement.has_enough && placement.is_supported
                && !placement.is_occupied)
            &&& !(result is Block) && !(action is Consume) ==> used is Nothing
        }),
{
}

/// What the player interacts with is what the player looks at. What does nothing is left alone, and
/// plants are always harvested.
pub proof fn law_interaction<F: Copy, S, T, B>(result: RayCastResult, is_ignored: bool)
    ensures
        ({
            let message = ClientGame::<F, S, T, B>::interaction(result, is_ignored);
            &&& result is Empty ==> message is None
            &&& result matches RayCastResult::Plant(p, i) ==> (message matches Some(
                NetworkMessageC2S::HarvestPlant { position, index },
            ) && position == p && index == i)
            &&& is_ignored && !(result is Plant) ==> message is None
            &&& !is_ignored ==> (result matches RayCastResult::Block(p, _) ==> (message matches Some(
                NetworkMessageC2S::InteractBlock { position },
            ) && position == p))
            &&& !is_ignored ==> (result matches RayCastResult::Entity(e) ==> (message matches Some(
                NetworkMessageC2S::InteractEntity { entity },
            ) && entity == e))
        }),
{
}

/// The hint for a plant is always to harvest it; nothing has no hint, and a block or an entity has that
/// of what it offers, never that of the other.
pub proof fn law_hints(
    result: RayCastResult,
    block: Option<BlockInteractAction>,
    entity: Option<EntityInteractAction>,
)
    ensures
        result is Empty ==> hint_spec(result, block, entity) is None,
        result is Plant ==> hint_spec(result, block, entity) == Some("harvest"@),
        result is Block ==> match block {
            Some(action) => hint_spec(result, block, entity) == action.tooltip_spec(),
            None => hint_spec(result, block, entity) is None,
        },
        result is Entity ==> match entity {
            Some(action) => hint_spec(result, block, entity) == action.tooltip_spec(),
            None => hint_spec(result, block, entity) is None,
        },
{
}

/// A slot that is chosen is the chosen one. The hand has to change where there is something to hold or to
/// put away; nothing else of the game changes.
pub proof fn law_chosen_slot<F: Copy, S, T, B>(game: ClientGame<F, S, T, B>, slot: usize)
    ensures
        game.slot_chosen(slot).hotbar_slot == slot,
        game.slot_chosen(slot).hud == game.hud,
        game.slot_chosen(slot).held() == game.hud.slots@[slot as int],
        game.slot_chosen(slot).needs_equip <==> game.needs_equip || game.slot_chosen(
            slot,
        ).held() is Some || game.swap_hand_item is Some,
        game.slot_chosen(slot).item_variation == game.item_variation,
        game.slot_chosen(slot).screen == game.screen,
        game.slot_chosen(slot).world == game.world,
        game.slot_chosen(slot).current_local_action == game.current_local_action,
{
}

/// A variation that is chosen is the chosen one of its item, and no other item's changes.
pub proof fn law_chosen_variation<F: Copy, S, T, B>(
    before: ClientGame<F, S, T, B>,
    after: ClientGame<F, S, T, B>,
    item: ItemKey,
    other: ItemKey,
    variation: usize,
    needs_equip: bool,
)
    requires
        ClientGame::is_varied(before, after, item, variation, needs_equip),
    ensures
        after.variation(item) == variation,
        other.index() != item.index() ==> after.variation(other) == before.variation(other),
        after.hotbar_slot == before.hotbar_slot,
        after.hud == before.hud,
        after.needs_equip <==> before.needs_equip || needs_equip,
{
    item.lemma_index_fits();
    other.lemma_index_fits();
}

/// A player who crouches is low, and no other is. Of those who do not crouch, one who runs runs, one who
/// walks walks, and any other stands.
pub proof fn law_poses(gait: Gait)
    ensures
        gait.crouching <==> gait.pose_spec() == EntityPose::Crouch || gait.pose_spec()
            == EntityPose::CrouchWalk,
        gait.pose_spec() == EntityPose::CrouchWalk <==> gait.crouching && gait.walking,
        gait.pose_spec() == EntityPose::Run <==> gait.running && !gait.crouching,
        gait.pose_spec() == EntityPose::Walk <==> gait.walking && !gait.running && !gait.crouching,
        gait.pose_spec() == EntityPose::Stand <==> !gait.walking && !gait.running
            && !gait.crouching,
{
}

/// A block can be placed where there is enough of it, nothing stands there and it is held.
pub proof fn law_free_places(placement: Placement)
    ensures
        !placement.is_blocked_spec() <==> placement.has_enough && !placement.is_occupied
            && placement.is_supported,
{
}

} // verus!
