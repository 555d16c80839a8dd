//! The game as a client sees it, and what the messages of the server do to it.

use crate::client_world::{
    affected_chunks, chunk_and_neighbors, is_inner, ClientWorld, CHUNK_BLOCKS,
};
use crate::coord::{chunk_pos_spec, has_own_chunk, BlockPos, ChunkPos, Vec3};
use crate::keyed_store::KeyedStore;
use crate::movement::EntityPose;
use crate::net::{ClientItem, EntityAction, LookDirection, NetworkMessageS2C};
use crate::property::PropertyMap;
use crate::registry::{EntityKey, ItemKey, ResearchKey, UIScreenKey};
use crate::screen::{can_drag, ScreenData};
use vstd::prelude::*;

verus! {

/// An entity. `F` is the type of a coordinate, `T` that of a point in time.
pub struct ClientEntity<F: Copy, T> {
    pub key: EntityKey,
    pub position: Vec3<F>,
    pub direction: LookDirection<F>,
    pub previous_position: Vec3<F>,
    pub previous_direction: LookDirection<F>,
    pub update_timestamp: T,
    pub hand_item: Option<ClientItem>,
    pub pose: EntityPose,
}

/// What has to happen outside of the game because of a message.
pub enum GameEffect<F: Copy> {
    Nothing,
    /// A tick of the server has passed.
    TickServer,
    /// The cursor is shown in the middle of the window.
    ShowCursor,
    HideCursor,
    /// A new entity is shown in its pose.
    ShowEntity { uuid: u128, pose: EntityPose },
    /// An entity changes its pose.
    PlayPose { uuid: u128, pose: EntityPose },
    /// An entity does something.
    PlayAction { uuid: u128, action: EntityAction },
    /// The player is pushed.
    Push { velocity: Vec3<F> },
}

/// The slots that the player can choose from.
pub const HOTBAR_SLOTS: usize = 10;

/// The game. `F` is the type of a coordinate, `S` that of the player's stats, `T` that of a point in
/// time and `B` that of a buffer.
#[verifier::reject_recursive_types(F)]
pub struct ClientGame<F: Copy, S, T, B> {
    pub world: ClientWorld<F, B>,
    pub entities: KeyedStore<ClientEntity<F, T>>,
    pub player_entity: Option<u128>,
    pub player_stats: S,
    pub camera_position: Vec3<F>,
    pub height_animation: F,
    pub teleport_id: u32,
    pub screen: Option<ScreenData<F>>,
    pub hud: ScreenData<F>,
    pub hotbar_slot: usize,
    pub item_variation: KeyedStore<usize>,
    pub needs_equip: bool,
    pub current_local_action: Option<EntityAction>,
    pub swap_hand_item: Option<(ItemKey, usize)>,
    pub is_attack_queued: bool,
    pub placement_visualize_toggled: bool,
    pub researched: Vec<ResearchKey>,
    pub server_ticks_passed: u64,
    pub mspt: F,
}

/// The kind of an item, if there is one.
pub open spec fn kind_of(item: Option<ClientItem>) -> Option<ItemKey> {
    match item {
        Some(item) => Some(item.item),
        None => None,
    }
}

fn same_kind(a: &Option<ClientItem>, b: &Option<ClientItem>) -> (r: bool)
    ensures
        r == (kind_of(*a) == kind_of(*b)),
{
    match (a, b) {
        (Some(a), Some(b)) => a.item.same(b.item),
        (None, None) => true,
        _ => false,
    }
}

/// An entity that was just added.
pub open spec fn added_entity<F: Copy, T>(
    key: EntityKey,
    position: Vec3<F>,
    direction: LookDirection<F>,
    hand_item: Option<ClientItem>,
    pose: EntityPose,
    time: T,
) -> ClientEntity<F, T> {
    ClientEntity {
        key,
        position,
        direction,
        previous_position: position,
        previous_direction: direction,
        update_timestamp: time,
        hand_item,
        pose,
    }
}

/// An entity after a move.
pub open spec fn moved_entity<F: Copy, T>(
    entity: ClientEntity<F, T>,
    position: Vec3<F>,
    direction: LookDirection<F>,
    pose: EntityPose,
    time: T,
) -> ClientEntity<F, T> {
    ClientEntity {
        previous_position: entity.position,
        previous_direction: entity.direction,
        position,
        direction,
        pose,
        update_timestamp: time,
        ..entity
    }
}

impl<F: Copy, S, T, B> ClientGame<F, S, T, B> {
    /// Whether the parts of the game fit together.
    pub open spec fn wf(self) -> bool {
        &&& self.world.wf()
        &&& self.entities.wf()
        &&& self.item_variation.wf()
        &&& self.hud.slots@.len() == HOTBAR_SLOTS
        &&& self.hotbar_slot < HOTBAR_SLOTS
        &&& self.hud.element_data.wf()
        &&& self.screen matches Some(screen) ==> screen.element_data.wf() && (screen.selected_slot matches Some((
            _,
            button,
        )) ==> can_drag(button))
    }

    /// A game that begins. `origin` is the position of the camera and `nothing` the time that has
    /// passed.
    pub fn new(hud: UIScreenKey, player_stats: S, origin: Vec3<F>, nothing: F) -> (r: ClientGame<
        F,
        S,
        T,
        B,
    >)
        ensures
            r.wf(),
            r.world@.chunks.dom() == Set::<u128>::empty(),
            r.world@.queue.len() == 0,
            r.entities@ == Map::<u128, ClientEntity<F, T>>::empty(),
            r.player_entity is None,
            r.player_stats == player_stats,
            r.camera_position == origin,
            r.height_animation == nothing,
            r.teleport_id == 0,
            r.screen is None,
            r.hud.screen == hud,
            forall|i: int| 0 <= i < HOTBAR_SLOTS ==> (#[trigger] r.hud.slots@[i]) is None,
            r.hud.properties@ == Map::<Seq<char>, F>::empty(),
            r.hotbar_slot == 0,
            r.item_variation@ == Map::<u128, usize>::empty(),
            !r.needs_equip,
            r.current_local_action is None,
            r.swap_hand_item is None,
            !r.is_attack_queued,
            !r.placement_visualize_toggled,
            r.researched@.len() == 0,
            r.server_ticks_passed == 0,
            r.mspt == nothing,
    {
        let mut slots: Vec<Option<ClientItem>> = Vec::new();
        let mut i: usize = 0;
        while i < HOTBAR_SLOTS
            invariant
                i <= HOTBAR_SLOTS,
                slots@.len() == i,
                forall|j: int| 0 <= j < i ==> (#[trigger] slots@[j]) is None,
            decreases HOTBAR_SLOTS - i,
        {
            slots.push(None);
            i += 1;
        }
        let world = ClientWorld::new();
        assert(world@.chunks.dom() =~= Set::<u128>::empty());
        ClientGame {
            world,
            entities: KeyedStore::with_capacity(0),
            player_entity: None,
            player_stats,
            camera_position: origin,
            height_animation: nothing,
            teleport_id: 0,
            screen: None,
            hud: ScreenData::open(hud, slots, PropertyMap::new(), nothing),
            hotbar_slot: 0,
            item_variation: KeyedStore::with_capacity(0),
            needs_equip: false,
            current_local_action: None,
            swap_hand_item: None,
            is_attack_queued: false,
            placement_visualize_toggled: false,
            researched: Vec::new(),
            server_ticks_passed: 0,
            mspt: nothing,
        }
    }

    /// The item in the chosen slot.
    pub open spec fn held(self) -> Option<ClientItem> {
        self.hud.slots@[self.hotbar_slot as int]
    }

    /// The item in the chosen slot.
    pub fn held_item(&self) -> (r: &Option<ClientItem>)
        requires
            self.wf(),
        ensures
            *r == self.held(),
    {
        &self.hud.slots[self.hotbar_slot]
    }

    /// The kind of the player's entity, if it is known.
    pub fn get_player_data(&self) -> (r: Option<EntityKey>)
        requires
            self.wf(),
        ensures
            r == match self.player_entity {
                Some(uuid) => if self.entities@.contains_key(uuid) {
                    Some(self.entities@[uuid].key)
                } else {
                    None
                },
                None => None,
            },
    {
        match self.player_entity {
            Some(uuid) => match self.entities.get(uuid) {
                Some(entity) => Some(entity.key),
                None => None,
            },
            None => None,
        }
    }

    /// Whether the game can take a message: chunks come whole and near, a block that changes belongs
    /// to a known chunk, and a slot of the player exists.
    pub open spec fn can_take(self, player: ChunkPos, message: NetworkMessageS2C<F, S>) -> bool {
        match message {
            NetworkMessageS2C::LoadChunk { position, blocks, components } => {
                &&& blocks@.len() == CHUNK_BLOCKS
                &&& is_inner(position)
                &&& components.wf()
                &&& ClientWorld::loaded(
                    self.world@,
                    position,
                    blocks@,
                    components,
                ).can_mark_all(player, chunk_and_neighbors(position))
            },
            NetworkMessageS2C::SetBlock { position, block } => {
                &&& self.world@.has(chunk_pos_spec(position))
                &&& is_inner(chunk_pos_spec(position))
                &&& self.world@.can_mark_all(player, affected_chunks(position))
            },
            NetworkMessageS2C::UpdateBlockComponents { chunk, offset, update } => {
                &&& update is ClientBlockPlants ==> self.world@.can_mark(player, chunk)
                &&& self.world@.has(chunk) ==> update.can_apply(
                    offset,
                    self.world@.chunk(chunk).components,
                )
            },
            NetworkMessageS2C::HUDSlot { slot, item } => slot < HOTBAR_SLOTS,
            _ => true,
        }
    }

    /// Whether a message has brought the game from one state to another.
    pub open spec fn is_taken(
        before: ClientGame<F, S, T, B>,
        after: ClientGame<F, S, T, B>,
        player: ChunkPos,
        message: NetworkMessageS2C<F, S>,
        time: T,
        now: T,
        nothing: F,
        effect: GameEffect<F>,
    ) -> bool {
        match message {
            NetworkMessageS2C::GameTick { ticks_passed, mspt } => {
                &&& effect == GameEffect::<F>::TickServer
                &&& after == (ClientGame { server_ticks_passed: ticks_passed, mspt, ..before })
            },
            NetworkMessageS2C::LoadChunk { position, blocks, components } => {
                &&& effect == GameEffect::<F>::Nothing
                &&& after == (ClientGame { world: after.world, ..before })
                &&& after.world.same_meshes(before.world)
                &&& after.world@ == ClientWorld::loaded(
                    before.world@,
                    position,
                    blocks@,
                    components,
                ).all_marked(player, chunk_and_neighbors(position))
            },
            NetworkMessageS2C::UnloadChunk { position } => {
                &&& effect == GameEffect::<F>::Nothing
                &&& after == (ClientGame { world: after.world, ..before })
                &&& after.world@.chunks == before.world@.chunks.remove(
                    crate::client_world::chunk_key_spec(position),
                )
                &&& after.world@.queue == before.world@.queue
                &&& after.world.chunk_mesh_queue_size == before.world.chunk_mesh_queue_size
                &&& ClientWorld::is_pool_after_unload(
                    before.world@,
                    position,
                    before.world.chunk_buffer_pool,
                    after.world.chunk_buffer_pool,
                )
            },
            NetworkMessageS2C::SetBlock { position, block } => {
                &&& effect == GameEffect::<F>::Nothing
                &&& after == (ClientGame { world: after.world, ..before })
                &&& after.world.same_meshes(before.world)
                &&& after.world@ == ClientWorld::block_set(
                    before.world@,
                    position,
                    block,
                ).all_marked(player, affected_chunks(position))
            },
            NetworkMessageS2C::UpdateBlockComponents { chunk, offset, update } => {
                &&& effect == GameEffect::<F>::Nothing
                &&& after == (ClientGame { world: after.world, ..before })
                &&& after.world.same_meshes(before.world)
                &&& ClientWorld::is_component_updated(
                    before.world@,
                    after.world@,
                    player,
                    chunk,
                    offset,
                    update,
                )
            },
            NetworkMessageS2C::AddEntity { uuid, key, position, direction, hand_item, pose } => {
                &&& effect == GameEffect::<F>::ShowEntity { uuid, pose }
                &&& after == (ClientGame { entities: after.entities, ..before })
                &&& after.entities@ == before.entities@.insert(
                    uuid,
                    added_entity(key, position, direction, hand_item, pose, now),
                )
            },
            NetworkMessageS2C::MoveEntity { uuid, position, direction, pose } => {
                &&& after == (ClientGame { entities: after.entities, ..before })
                &&& if before.entities@.contains_key(uuid) {
                    &&& effect == if before.entities@[uuid].pose != pose {
                        GameEffect::<F>::PlayPose { uuid, pose }
                    } else {
                        GameEffect::<F>::Nothing
                    }
                    &&& after.entities@ == before.entities@.insert(
                        uuid,
                        moved_entity(before.entities@[uuid], position, direction, pose, time),
                    )
                } else {
                    effect == GameEffect::<F>::Nothing && after.entities@ == before.entities@
                }
            },
            NetworkMessageS2C::RemoveEntity { uuid } => {
                &&& effect == GameEffect::<F>::Nothing
                &&& after == (ClientGame { entities: after.entities, ..before })
                &&& after.entities@ == before.entities@.remove(uuid)
            },
            NetworkMessageS2C::EntityHandItem { uuid, item } => {
                &&& effect == GameEffect::<F>::Nothing
                &&& after == (ClientGame { entities: after.entities, ..before })
                &&& after.entities@ == if before.entities@.contains_key(uuid) {
                    before.entities@.insert(
                        uuid,
                        ClientEntity { hand_item: item, ..before.entities@[uuid] },
                    )
                } else {
                    before.entities@
                }
            },
            NetworkMessageS2C::EntityAction { entity, action } => {
                &&& after == before
                &&& effect == if before.entities@.contains_key(entity) {
                    GameEffect::<F>::PlayAction { uuid: entity, action }
                } else {
                    GameEffect::<F>::Nothing
                }
            },
            NetworkMessageS2C::SetPlayerEntity { uuid } => {
                &&& effect == GameEffect::<F>::Nothing
                &&& after == (ClientGame { player_entity: uuid, ..before })
            },
            NetworkMessageS2C::TeleportPlayer { position, teleport_id } => {
                &&& effect == GameEffect::<F>::Nothing
                &&& after == (ClientGame {
                    camera_position: position,
                    height_animation: position.y,
                    teleport_id,
                    ..before
                })
            },
            NetworkMessageS2C::UpdatePlayerStats { stats } => {
                &&& effect == GameEffect::<F>::Nothing
                &&& after == (ClientGame { player_stats: stats, ..before })
            },
            NetworkMessageS2C::UIOpen { screen, slots, properties } => {
                &&& effect == GameEffect::<F>::ShowCursor
                &&& after == (ClientGame { screen: after.screen, ..before })
                &&& after.screen matches Some(opened) && {
                    &&& opened.screen == screen
                    &&& opened.slots == slots
                    &&& opened.properties == properties
                    &&& opened.selected_slot is None
                    &&& opened.slot_action_prediction@.len() == 0
                    &&& opened.element_data@.dom() == Set::<u128>::empty()
                    &&& opened.time == nothing
                }
            },
            NetworkMessageS2C::UISetSlot { slot, item } => {
                &&& effect == GameEffect::<F>::Nothing
                &&& after == (ClientGame { screen: after.screen, ..before })
                &&& match (before.screen, after.screen) {
                    (None, None) => true,
                    (Some(old_screen), Some(new_screen)) => ScreenData::is_slot_set(
                        old_screen,
                        new_screen,
                        slot,
                        item,
                    ),
                    _ => false,
                }
            },
            NetworkMessageS2C::UISetProperty { property, value } => {
                &&& effect == GameEffect::<F>::Nothing
                &&& after == (ClientGame { screen: after.screen, ..before })
                &&& match (before.screen, after.screen) {
                    (None, None) => true,
                    (Some(old_screen), Some(new_screen)) => {
                        &&& new_screen == (ScreenData {
                            properties: new_screen.properties,
                            ..old_screen
                        })
                        &&& new_screen.properties@ == old_screen.properties@.insert(
                            property@,
                            value,
                        )
                    },
                    _ => false,
                }
            },
            NetworkMessageS2C::UIClose => {
                &&& effect == GameEffect::<F>::HideCursor
                &&& after == (ClientGame { screen: None, ..before })
            },
            NetworkMessageS2C::HUDSlot { slot, item } => {
                &&& effect == GameEffect::<F>::Nothing
                &&& after.hud.slots@ == before.hud.slots@.update(slot as int, item)
                &&& after == (ClientGame {
                    hud: ScreenData { slots: after.hud.slots, ..before.hud },
                    needs_equip: before.needs_equip || (before.hotbar_slot == slot && kind_of(
                        before.hud.slots@[slot as int],
                    ) != kind_of(item)),
                    ..before
                })
            },
            NetworkMessageS2C::HudBarUpdate { health } => {
                &&& effect == GameEffect::<F>::Nothing
                &&& after == (ClientGame {
                    hud: ScreenData { properties: after.hud.properties, ..before.hud },
                    ..before
                })
                &&& after.hud.properties@ == before.hud.properties@.insert("health"@, health)
            },
            NetworkMessageS2C::Knockback { velocity } => {
                &&& effect == GameEffect::<F>::Push { velocity }
                &&& after == before
            },
            NetworkMessageS2C::UpdateResearch { research } => {
                &&& effect == GameEffect::<F>::Nothing
                &&& after == (ClientGame { researched: research, ..before })
            },
        }
    }

    /// Whether a message of the server can be taken.
    pub fn accepts(&self, player: ChunkPos, message: &NetworkMessageS2C<F, S>) -> (r: bool)
        requires
            self.wf(),
            message.wf(),
        ensures
            r == self.can_take(player, *message),
    {
        match message {
            NetworkMessageS2C::LoadChunk { position, blocks, components } => {
                self.world.can_load(player, *position, blocks, components)
            },
            NetworkMessageS2C::SetBlock { position, .. } => {
                self.world.can_set_block(player, *position)
            },
            NetworkMessageS2C::UpdateBlockComponents { chunk, offset, update } => {
                self.world.can_update_components(player, *chunk, *offset, update)
            },
            NetworkMessageS2C::HUDSlot { slot, .. } => *slot < HOTBAR_SLOTS,
            _ => true,
        }
    }

    /// Takes a message of the server that arrived at `time`, at the time `now`. An entity that is
    /// added stands still from now on, one that moves has moved since the message arrived. `player`
    /// is the chunk that the player is in.
    pub fn take_message(
        &mut self,
        player: ChunkPos,
        message: NetworkMessageS2C<F, S>,
        time: T,
        now: T,
        nothing: F,
    ) -> (effect: GameEffect<F>)
        requires
            old(self).wf(),
            old(self).can_take(player, message),
        ensures
            final(self).wf(),
            Self::is_taken(*old(self), *final(self), player, message, time, now, nothing, effect),
    {
        match message {
            NetworkMessageS2C::GameTick { ticks_passed, mspt } => {
                self.server_ticks_passed = ticks_passed;
                self.mspt = mspt;
                GameEffect::TickServer
            },
            NetworkMessageS2C::LoadChunk { position, blocks, components } => {
                self.world.load_chunk(player, position, blocks, components);
                GameEffect::Nothing
            },
            NetworkMessageS2C::UnloadChunk { position } => {
                self.world.unload_chunk(position);
                GameEffect::Nothing
            },
            NetworkMessageS2C::SetBlock { position, block } => {
                self.world.set_block(player, position, block);
                GameEffect::Nothing
            },
            NetworkMessageS2C::UpdateBlockComponents { chunk, offset, update } => {
                self.world.update_components(player, chunk, offset, update);
                GameEffect::Nothing
            },
            NetworkMessageS2C::AddEntity { uuid, key, position, direction, hand_item, pose } => {
                self.entities.insert(
                    uuid,
                    ClientEntity {
                        key,
                        position,
                        direction,
                        previous_position: position,
                        previous_direction: direction,
                        update_timestamp: now,
                        hand_item,
                        pose,
                    },
                );
                GameEffect::ShowEntity { uuid, pose }
            },
            NetworkMessageS2C::MoveEntity { uuid, position, direction, pose } => {
                match self.entities.get_mut(uuid) {
                    Some(entity) => {
                        entity.previous_position = entity.position;
                        entity.previous_direction = entity.direction;
                        entity.update_timestamp = time;
                        entity.position = position;
                        entity.direction = direction;
                        if entity.pose != pose {
                            entity.pose = pose;
                            GameEffect::PlayPose { uuid, pose }
                        } else {
                            GameEffect::Nothing
                        }
                    },
                    None => GameEffect::Nothing,
                }
            },
            NetworkMessageS2C::RemoveEntity { uuid } => {
                let _ = self.entities.remove(uuid);
                GameEffect::Nothing
            },
            NetworkMessageS2C::EntityHandItem { uuid, item } => {
                match self.entities.get_mut(uuid) {
                    Some(entity) => {
                        entity.hand_item = item;
                    },
                    None => {},
                }
                GameEffect::Nothing
            },
            NetworkMessageS2C::EntityAction { entity, action } => {
                if self.entities.contains_key(entity) {
                    GameEffect::PlayAction { uuid: entity, action }
                } else {
                    GameEffect::Nothing
                }
            },
            NetworkMessageS2C::SetPlayerEntity { uuid } => {
                self.player_entity = uuid;
                GameEffect::Nothing
            },
            NetworkMessageS2C::TeleportPlayer { position, teleport_id } => {
                self.camera_position = position;
                self.height_animation = position.y;
                self.teleport_id = teleport_id;
                GameEffect::Nothing
            },
            NetworkMessageS2C::UpdatePlayerStats { stats } => {
                self.player_stats = stats;
                GameEffect::Nothing
            },
            NetworkMessageS2C::UIOpen { screen, slots, properties } => {
                let opened = ScreenData::open(screen, slots, properties, nothing);
                assert(opened.element_data@.dom() =~= Set::<u128>::empty());
                self.screen = Some(opened);
                GameEffect::ShowCursor
            },
            NetworkMessageS2C::UISetSlot { slot, item } => {
                match &mut self.screen {
                    Some(screen) => {
                        screen.set_slot(slot, item);
                    },
                    None => {},
                }
                GameEffect::Nothing
            },
            NetworkMessageS2C::UISetProperty { property, value } => {
                match &mut self.screen {
                    Some(screen) => {
                        screen.properties.insert(property, value);
                    },
                    None => {},
                }
                GameEffect::Nothing
            },
            NetworkMessageS2C::UIClose => {
                self.screen = None;
                GameEffect::HideCursor
            },
            NetworkMessageS2C::HUDSlot { slot, item } => {
                if self.hotbar_slot == slot && !same_kind(&self.hud.slots[slot], &item) {
                    self.needs_equip = true;
                }
                self.hud.slots.set(slot, item);
                GameEffect::Nothing
            },
            NetworkMessageS2C::HudBarUpdate { health } => {
                self.hud.properties.insert("health".to_owned(), health);
                GameEffect::Nothing
            },
            NetworkMessageS2C::Knockback { velocity } => GameEffect::Push { velocity },
            NetworkMessageS2C::UpdateResearch { research } => {
                self.researched = research;
                GameEffect::Nothing
            },
        }
    }
}

/// A block that was set is the block that is there, and every other block and the chunks that are
/// known are as before. This holds where the coordinates of chunks fit in sixteen bits.
pub proof fn law_set_block_is_seen<F: Copy, S, T, B>(
    before: ClientGame<F, S, T, B>,
    after: ClientGame<F, S, T, B>,
    player: ChunkPos,
    position: BlockPos,
    other: BlockPos,
    block: crate::block::BlockEntry,
    time: T,
    now: T,
    nothing: F,
    effect: GameEffect<F>,
)
    requires
        has_own_chunk(position),
        has_own_chunk(other),
        other != position,
        before.wf(),
        before.can_take(player, NetworkMessageS2C::SetBlock { position, block }),
        ClientGame::is_taken(
            before,
            after,
            player,
            NetworkMessageS2C::SetBlock { position, block },
            time,
            now,
            nothing,
            effect,
        ),
    ensures
        after.world@.block_at(position) == Some(block),
        after.world@.block_at(other) == before.world@.block_at(other),
        forall|chunk: ChunkPos| #[trigger]
            after.world@.has(chunk) == before.world@.has(chunk),
        after.world@.is_queued(chunk_pos_spec(position)),
{
    crate::client_world::lemma_set_block_stays(before.world@, player, position, block);
    crate::coord::law_block_pos_splits(position);
    crate::coord::law_block_pos_splits(other);
    assert forall|chunk: ChunkPos| #[trigger]
        after.world@.has(chunk) == before.world@.has(chunk) by {
        let key = crate::client_world::chunk_key_spec(chunk);
        assert(after.world@.chunks.dom().contains(key) == before.world@.chunks.dom().contains(key));
    }
}

/// A player who is teleported sees the world from the new position, at its height and without a
/// transition, and answers with the number of the teleport.
pub proof fn law_teleport_moves_the_camera<F: Copy, S, T, B>(
    before: ClientGame<F, S, T, B>,
    after: ClientGame<F, S, T, B>,
    player: ChunkPos,
    position: Vec3<F>,
    teleport_id: u32,
    time: T,
    now: T,
    nothing: F,
    effect: GameEffect<F>,
)
    requires
        ClientGame::is_taken(
            before,
            after,
            player,
            NetworkMessageS2C::TeleportPlayer { position, teleport_id },
            time,
            now,
            nothing,
            effect,
        ),
    ensures
        after.camera_position == position,
        after.height_animation == position.y,
        after.teleport_id == teleport_id,
        effect is Nothing,
        after.world == before.world,
        after.entities == before.entities,
        after.screen == before.screen,
        after.hud == before.hud,
        after.player_entity == before.player_entity,
{
}

/// A tick of the server brings the number of ticks that have passed and how long they take, and is
/// answered outside of the game.
pub proof fn law_tick_is_counted<F: Copy, S, T, B>(
    before: ClientGame<F, S, T, B>,
    after: ClientGame<F, S, T, B>,
    player: ChunkPos,
    ticks_passed: u64,
    mspt: F,
    time: T,
    now: T,
    nothing: F,
    effect: GameEffect<F>,
)
    requires
        ClientGame::is_taken(
            before,
            after,
            player,
            NetworkMessageS2C::GameTick { ticks_passed, mspt },
            time,
            now,
            nothing,
            effect,
        ),
    ensures
        after.server_ticks_passed == ticks_passed,
        after.mspt == mspt,
        effect is TickServer,
{
}

/// An entity that is added stands where the message says, has been there before, and holds and does
/// what the message says; the other entities stay as they are.
pub proof fn law_added_entity_stands_still<F: Copy, S, T, B>(
    before: ClientGame<F, S, T, B>,
    after: ClientGame<F, S, T, B>,
    player: ChunkPos,
    uuid: u128,
    other: u128,
    key: EntityKey,
    position: Vec3<F>,
    direction: LookDirection<F>,
    hand_item: Option<ClientItem>,
    pose: EntityPose,
    time: T,
    now: T,
    nothing: F,
    effect: GameEffect<F>,
)
    requires
        ClientGame::is_taken(
            before,
            after,
            player,
            NetworkMessageS2C::AddEntity { uuid, key, position, direction, hand_item, pose },
            time,
            now,
            nothing,
            effect,
        ),
    ensures
        after.entities@.contains_key(uuid),
        after.entities@[uuid].key == key,
        after.entities@[uuid].position == position,
        after.entities@[uuid].previous_position == position,
        after.entities@[uuid].direction == direction,
        after.entities@[uuid].previous_direction == direction,
        after.entities@[uuid].hand_item == hand_item,
        after.entities@[uuid].pose == pose,
        after.entities@[uuid].update_timestamp == now,
        other != uuid ==> after.entities@.contains_key(other) == before.entities@.contains_key(other),
        other != uuid && before.entities@.contains_key(other) ==> after.entities@[other]
            == before.entities@[other],
        effect matches GameEffect::ShowEntity { uuid: shown, pose: p } && shown == uuid && p == pose,
{
}

/// An entity that moves goes to where the message says, and remembers where it was: the earlier
/// position of the later state is the position of the earlier one. What it is and what it holds stay,
/// and so do the other entities. A new pose is played, a pose that stays is not.
pub proof fn law_moved_entity_remembers<F: Copy, S, T, B>(
    before: ClientGame<F, S, T, B>,
    after: ClientGame<F, S, T, B>,
    player: ChunkPos,
    uuid: u128,
    other: u128,
    position: Vec3<F>,
    direction: LookDirection<F>,
    pose: EntityPose,
    time: T,
    now: T,
    nothing: F,
    effect: GameEffect<F>,
)
    requires
        ClientGame::is_taken(
            before,
            after,
            player,
            NetworkMessageS2C::MoveEntity { uuid, position, direction, pose },
            time,
            now,
            nothing,
            effect,
        ),
    ensures
        after.entities@.contains_key(uuid) == before.entities@.contains_key(uuid),
        before.entities@.contains_key(uuid) ==> {
            &&& after.entities@[uuid].previous_position == before.entities@[uuid].position
            &&& after.entities@[uuid].previous_direction == before.entities@[uuid].direction
            &&& after.entities@[uuid].position == position
            &&& after.entities@[uuid].direction == direction
            &&& after.entities@[uuid].pose == pose
            &&& after.entities@[uuid].update_timestamp == time
            &&& after.entities@[uuid].key == before.entities@[uuid].key
            &&& after.entities@[uuid].hand_item == before.entities@[uuid].hand_item
        },
        effect is PlayPose <==> before.entities@.contains_key(uuid)
            && before.entities@[uuid].pose != pose,
        effect matches GameEffect::PlayPose { uuid: played, pose: p } ==> played == uuid && p == pose,
        effect is PlayPose || effect is Nothing,
        other != uuid ==> after.entities@.contains_key(other) == before.entities@.contains_key(other),
        other != uuid && before.entities@.contains_key(other) ==> after.entities@[other]
            == before.entities@[other],
{
}

/// An entity that is removed is gone, and no other is.
pub proof fn law_removed_entity_is_gone<F: Copy, S, T, B>(
    before: ClientGame<F, S, T, B>,
    after: ClientGame<F, S, T, B>,
    player: ChunkPos,
    uuid: u128,
    other: u128,
    time: T,
    now: T,
    nothing: F,
    effect: GameEffect<F>,
)
    requires
        ClientGame::is_taken(
            before,
            after,
            player,
            NetworkMessageS2C::RemoveEntity { uuid },
            time,
            now,
            nothing,
            effect,
        ),
    ensures
        !after.entities@.contains_key(uuid),
        other != uuid ==> after.entities@.contains_key(other) == before.entities@.contains_key(other),
        other != uuid && before.entities@.contains_key(other) ==> after.entities@[other]
            == before.entities@[other],
        effect is Nothing,
{
}

/// An entity that takes an item holds that item and nothing else of it changes; an unknown entity is
/// not made.
pub proof fn law_hand_item_is_held<F: Copy, S, T, B>(
    before: ClientGame<F, S, T, B>,
    after: ClientGame<F, S, T, B>,
    player: ChunkPos,
    uuid: u128,
    other: u128,
    item: Option<ClientItem>,
    time: T,
    now: T,
    nothing: F,
    effect: GameEffect<F>,
)
    requires
        ClientGame::is_taken(
            before,
            after,
            player,
            NetworkMessageS2C::EntityHandItem { uuid, item },
            time,
            now,
            nothing,
            effect,
        ),
    ensures
        after.entities@.contains_key(uuid) == before.entities@.contains_key(uuid),
        before.entities@.contains_key(uuid) ==> {
            &&& after.entities@[uuid].hand_item == item
            &&& after.entities@[uuid].position == before.entities@[uuid].position
            &&& after.entities@[uuid].direction == before.entities@[uuid].direction
            &&& after.entities@[uuid].previous_position == before.entities@[uuid].previous_position
            &&& after.entities@[uuid].previous_direction
                == before.entities@[uuid].previous_direction
            &&& after.entities@[uuid].update_timestamp == before.entities@[uuid].update_timestamp
            &&& after.entities@[uuid].pose == before.entities@[uuid].pose
            &&& after.entities@[uuid].key == before.entities@[uuid].key
        },
        other != uuid ==> after.entities@.contains_key(other) == before.entities@.contains_key(other),
        other != uuid && before.entities@.contains_key(other) ==> after.entities@[other]
            == before.entities@[other],
        effect is Nothing,
{
}

/// What an entity does is played if the entity is known, and changes nothing.
pub proof fn law_action_is_played<F: Copy, S, T, B>(
    before: ClientGame<F, S, T, B>,
    after: ClientGame<F, S, T, B>,
    player: ChunkPos,
    entity: u128,
    action: EntityAction,
    time: T,
    now: T,
    nothing: F,
    effect: GameEffect<F>,
)
    requires
        ClientGame::is_taken(
            before,
            after,
            player,
            NetworkMessageS2C::EntityAction { entity, action },
            time,
            now,
            nothing,
            effect,
        ),
    ensures
        after == before,
        before.entities@.contains_key(entity) ==> (effect matches GameEffect::PlayAction {
            uuid,
            action: played,
        } && uuid == entity && played == action),
        !before.entities@.contains_key(entity) ==> effect is Nothing,
{
}

/// The player's entity is the one that the message names.
pub proof fn law_player_entity_is_set<F: Copy, S, T, B>(
    before: ClientGame<F, S, T, B>,
    after: ClientGame<F, S, T, B>,
    player: ChunkPos,
    uuid: Option<u128>,
    time: T,
    now: T,
    nothing: F,
    effect: GameEffect<F>,
)
    requires
        ClientGame::is_taken(
            before,
            after,
            player,
            NetworkMessageS2C::SetPlayerEntity { uuid },
            time,
            now,
            nothing,
            effect,
        ),
    ensures
        after.player_entity == uuid,
        effect is Nothing,
{
}

/// The player's stats are those of the message.
pub proof fn law_stats_are_set<F: Copy, S, T, B>(
    before: ClientGame<F, S, T, B>,
    after: ClientGame<F, S, T, B>,
    player: ChunkPos,
    stats: S,
    time: T,
    now: T,
    nothing: F,
    effect: GameEffect<F>,
)
    requires
        ClientGame::is_taken(
            before,
            after,
            player,
            NetworkMessageS2C::UpdatePlayerStats { stats },
            time,
            now,
            nothing,
            effect,
        ),
    ensures
        after.player_stats == stats,
        effect is Nothing,
{
}

/// What has been researched is what the message lists.
pub proof fn law_research_is_set<F: Copy, S, T, B>(
    before: ClientGame<F, S, T, B>,
    after: ClientGame<F, S, T, B>,
    player: ChunkPos,
    research: Vec<ResearchKey>,
    time: T,
    now: T,
    nothing: F,
    effect: GameEffect<F>,
)
    requires
        ClientGame::is_taken(
            before,
            after,
            player,
            NetworkMessageS2C::UpdateResearch { research },
            time,
            now,
            nothing,
            effect,
        ),
    ensures
        after.researched == research,
        effect is Nothing,
{
}

/// A push goes to the player and changes nothing else.
pub proof fn law_knockback_pushes<F: Copy, S, T, B>(
    before: ClientGame<F, S, T, B>,
    after: ClientGame<F, S, T, B>,
    player: ChunkPos,
    velocity: Vec3<F>,
    time: T,
    now: T,
    nothing: F,
    effect: GameEffect<F>,
)
    requires
        ClientGame::is_taken(
            before,
            after,
            player,
            NetworkMessageS2C::Knockback { velocity },
            time,
            now,
            nothing,
            effect,
        ),
    ensures
        after == before,
        effect matches GameEffect::Push { velocity: pushed } && pushed == velocity,
{
}

/// A screen that opens shows the slots and properties of the message, nothing of it is dragged or
/// predicted, its time begins, and the cursor is shown.
pub proof fn law_opened_screen_is_fresh<F: Copy, S, T, B>(
    before: ClientGame<F, S, T, B>,
    after: ClientGame<F, S, T, B>,
    player: ChunkPos,
    screen: UIScreenKey,
    slots: Vec<Option<ClientItem>>,
    properties: PropertyMap<F>,
    time: T,
    now: T,
    nothing: F,
    effect: GameEffect<F>,
)
    requires
        ClientGame::is_taken(
            before,
            after,
            player,
            NetworkMessageS2C::UIOpen { screen, slots, properties },
            time,
            now,
            nothing,
            effect,
        ),
    ensures
        after.screen is Some,
        after.screen->0.screen == screen,
        after.screen->0.slots == slots,
        after.screen->0.properties == properties,
        after.screen->0.selected_slot is None,
        after.screen->0.slot_action_prediction@.len() == 0,
        forall|key: u128| !after.screen->0.element_data@.contains_key(key),
        after.screen->0.time == nothing,
        effect is ShowCursor,
{
    assert forall|key: u128| !after.screen->0.element_data@.contains_key(key) by {
        assert(!after.screen->0.element_data@.dom().contains(key));
    }
}

/// A slot of the open screen that is set holds the item of the message, and the others what they
/// held; nothing is predicted of it any more, and a slot that does not exist changes nothing.
pub proof fn law_screen_slot_is_set<F: Copy, S, T, B>(
    before: ClientGame<F, S, T, B>,
    after: ClientGame<F, S, T, B>,
    player: ChunkPos,
    slot: usize,
    other: int,
    item: Option<ClientItem>,
    time: T,
    now: T,
    nothing: F,
    effect: GameEffect<F>,
)
    requires
        ClientGame::is_taken(
            before,
            after,
            player,
            NetworkMessageS2C::UISetSlot { slot, item },
            time,
            now,
            nothing,
            effect,
        ),
    ensures
        after.screen is Some == before.screen is Some,
        before.screen matches Some(screen) ==> slot < screen.slots@.len() ==> {
            &&& after.screen->0.slots@.len() == screen.slots@.len()
            &&& after.screen->0.slots@[slot as int] == item
            &&& 0 <= other < screen.slots@.len() && other != slot ==> after.screen->0.slots@[other]
                == screen.slots@[other]
            &&& forall|i: int|
                0 <= i < after.screen->0.slot_action_prediction@.len() ==> (
                #[trigger] after.screen->0.slot_action_prediction@[i]).slot != slot
        },
        before.screen matches Some(screen) ==> slot >= screen.slots@.len() ==> after.screen->0
            == screen,
        before.screen matches Some(screen) ==> {
            &&& after.screen->0.screen == screen.screen
            &&& after.screen->0.properties == screen.properties
            &&& after.screen->0.selected_slot == screen.selected_slot
        },
        effect is Nothing,
{
    if let Some(screen) = before.screen {
        crate::screen::law_without(screen.slot_action_prediction@, slot);
    }
}

/// A property of the open screen that is set has the value of the message, and the others the values
/// that they had.
pub proof fn law_screen_property_is_set<F: Copy, S, T, B>(
    before: ClientGame<F, S, T, B>,
    after: ClientGame<F, S, T, B>,
    player: ChunkPos,
    property: String,
    other: Seq<char>,
    value: F,
    time: T,
    now: T,
    nothing: F,
    effect: GameEffect<F>,
)
    requires
        ClientGame::is_taken(
            before,
            after,
            player,
            NetworkMessageS2C::UISetProperty { property, value },
            time,
            now,
            nothing,
            effect,
        ),
    ensures
        after.screen is Some == before.screen is Some,
        before.screen matches Some(screen) ==> {
            &&& after.screen->0.properties@.contains_key(property@)
            &&& after.screen->0.properties@[property@] == value
            &&& other != property@ ==> after.screen->0.properties@.contains_key(other)
                == screen.properties@.contains_key(other)
            &&& other != property@ && screen.properties@.contains_key(other)
                ==> after.screen->0.properties@[other] == screen.properties@[other]
            &&& after.screen->0.slots == screen.slots
            &&& after.screen->0.screen == screen.screen
            &&& after.screen->0.selected_slot == screen.selected_slot
        },
        effect is Nothing,
{
}

/// When the screen closes there is none, and the cursor is hidden.
pub proof fn law_closed_screen_is_gone<F: Copy, S, T, B>(
    before: ClientGame<F, S, T, B>,
    after: ClientGame<F, S, T, B>,
    player: ChunkPos,
    time: T,
    now: T,
    nothing: F,
    effect: GameEffect<F>,
)
    requires
        ClientGame::is_taken(
            before,
            after,
            player,
            NetworkMessageS2C::UIClose,
            time,
            now,
            nothing,
            effect,
        ),
    ensures
        after.screen is None,
        effect is HideCursor,
{
}

/// A slot of the player that is set holds the item of the message, and the others what they held.
/// The player takes the item in hand if it is in the chosen slot and of another kind than the item
/// before.
pub proof fn law_hud_slot_is_set<F: Copy, S, T, B>(
    before: ClientGame<F, S, T, B>,
    after: ClientGame<F, S, T, B>,
    player: ChunkPos,
    slot: usize,
    other: int,
    item: Option<ClientItem>,
    time: T,
    now: T,
    nothing: F,
    effect: GameEffect<F>,
)
    requires
        before.wf(),
        slot < before.hud.slots@.len(),
        ClientGame::is_taken(
            before,
            after,
            player,
            NetworkMessageS2C::HUDSlot { slot, item },
            time,
            now,
            nothing,
            effect,
        ),
    ensures
        after.hud.slots@.len() == before.hud.slots@.len(),
        after.hud.slots@[slot as int] == item,
        0 <= other < before.hud.slots@.len() && other != slot ==> after.hud.slots@[other]
            == before.hud.slots@[other],
        before.hotbar_slot == slot ==> after.held() == item,
        before.needs_equip ==> after.needs_equip,
        before.hotbar_slot != slot ==> after.needs_equip == before.needs_equip,
        before.hotbar_slot == slot && !before.needs_equip ==> (after.needs_equip <==> (match (
            before.hud.slots@[slot as int],
            item,
        ) {
            (Some(a), Some(b)) => a.item != b.item,
            (None, None) => false,
            _ => true,
        })),
        after.hud.properties == before.hud.properties,
        effect is Nothing,
{
}

/// The bar shows the health of the message.
pub proof fn law_health_is_shown<F: Copy, S, T, B>(
    before: ClientGame<F, S, T, B>,
    after: ClientGame<F, S, T, B>,
    player: ChunkPos,
    health: F,
    other: Seq<char>,
    time: T,
    now: T,
    nothing: F,
    effect: GameEffect<F>,
)
    requires
        ClientGame::is_taken(
            before,
            after,
            player,
            NetworkMessageS2C::HudBarUpdate { health },
            time,
            now,
            nothing,
            effect,
        ),
    ensures
        after.hud.properties@.contains_key("health"@),
        after.hud.properties@["health"@] == health,
        other != "health"@ ==> after.hud.properties@.contains_key(other)
            == before.hud.properties@.contains_key(other),
        other != "health"@ && before.hud.properties@.contains_key(other)
            ==> after.hud.properties@[other] == before.hud.properties@[other],
        after.hud.slots == before.hud.slots,
        effect is Nothing,
{
}

/// A message changes its own part of the game and no other.
pub proof fn law_messages_keep_the_rest<F: Copy, S, T, B>(
    before: ClientGame<F, S, T, B>,
    after: ClientGame<F, S, T, B>,
    player: ChunkPos,
    message: NetworkMessageS2C<F, S>,
    time: T,
    now: T,
    nothing: F,
    effect: GameEffect<F>,
)
    requires
        ClientGame::is_taken(before, after, player, message, time, now, nothing, effect),
    ensures
        !(message is TeleportPlayer) ==> {
            &&& after.camera_position == before.camera_position
            &&& after.height_animation == before.height_animation
            &&& after.teleport_id == before.teleport_id
        },
        !(message is GameTick) ==> {
            &&& after.server_ticks_passed == before.server_ticks_passed
            &&& after.mspt == before.mspt
        },
        !(message is LoadChunk || message is UnloadChunk || message is SetBlock
            || message is UpdateBlockComponents) ==> after.world == before.world,
        !(message is AddEntity || message is MoveEntity || message is RemoveEntity
            || message is EntityHandItem) ==> after.entities == before.entities,
        !(message is SetPlayerEntity) ==> after.player_entity == before.player_entity,
        !(message is UpdatePlayerStats) ==> after.player_stats == before.player_stats,
        !(message is UIOpen || message is UISetSlot || message is UISetProperty
            || message is UIClose) ==> after.screen == before.screen,
        !(message is HUDSlot || message is HudBarUpdate) ==> after.hud == before.hud,
        !(message is HUDSlot) ==> after.needs_equip == before.needs_equip,
        !(message is UpdateResearch) ==> after.researched == before.researched,
        after.hud.screen == before.hud.screen,
        after.hotbar_slot == before.hotbar_slot,
        after.item_variation == before.item_variation,
        after.current_local_action == before.current_local_action,
        after.swap_hand_item == before.swap_hand_item,
        after.is_attack_queued == before.is_attack_queued,
        after.placement_visualize_toggled == before.placement_visualize_toggled,
{
}

/// A chunk that comes is known afterwards, with the blocks that came.
pub proof fn law_load_chunk_is_seen<F: Copy, S, T, B>(
    before: ClientGame<F, S, T, B>,
    after: ClientGame<F, S, T, B>,
    player: ChunkPos,
    position: ChunkPos,
    other: ChunkPos,
    blocks: crate::palette::BlockPalette,
    components: crate::world::ClientChunkBlockComponents<F>,
    time: T,
    now: T,
    nothing: F,
    effect: GameEffect<F>,
)
    requires
        before.wf(),
        other != position,
        before.can_take(player, NetworkMessageS2C::LoadChunk { position, blocks, components }),
        ClientGame::is_taken(
            before,
            after,
            player,
            NetworkMessageS2C::LoadChunk { position, blocks, components },
            time,
            now,
            nothing,
            effect,
        ),
    ensures
        effect is Nothing,
        after.world@.has(position),
        after.world@.chunk(position).blocks == blocks@,
        after.world@.chunk(position).components == components,
        after.world@.is_queued(position),
        after.world@.has(other) == before.world@.has(other),
        before.world@.has(other) ==> after.world@.chunk(other).blocks == before.world@.chunk(
            other,
        ).blocks,
        after.world.chunk_mesh_queue_size == before.world.chunk_mesh_queue_size,
        after.world.chunk_buffer_pool == before.world.chunk_buffer_pool,
{
    crate::client_world::law_loaded_chunk(
        before.world@,
        player,
        position,
        blocks@,
        components,
        other,
    );
}

/// A chunk that goes is not known afterwards; every other one is as before, and so is the queue.
pub proof fn law_unload_chunk_is_seen<F: Copy, S, T, B>(
    before: ClientGame<F, S, T, B>,
    after: ClientGame<F, S, T, B>,
    player: ChunkPos,
    position: ChunkPos,
    other: ChunkPos,
    time: T,
    now: T,
    nothing: F,
    effect: GameEffect<F>,
)
    requires
        other != position,
        ClientGame::is_taken(
            before,
            after,
            player,
            NetworkMessageS2C::UnloadChunk { position },
            time,
            now,
            nothing,
            effect,
        ),
    ensures
        effect is Nothing,
        !after.world@.has(position),
        after.world@.has(other) == before.world@.has(other),
        before.world@.has(other) ==> after.world@.chunk(other) == before.world@.chunk(other),
        after.world@.queue == before.world@.queue,
{
    crate::client_world::law_unloaded_chunk(before.world@, after.world@, position, other);
}

/// A component that changes is changed in its chunk, of which the blocks stay. Only plants, which are
/// part of the mesh, make the chunk wait for a new one; every other chunk is as before, and an unknown
/// chunk changes nothing.
pub proof fn law_component_update_is_seen<F: Copy, S, T, B>(
    before: ClientGame<F, S, T, B>,
    after: ClientGame<F, S, T, B>,
    player: ChunkPos,
    chunk: ChunkPos,
    other: ChunkPos,
    offset: crate::coord::ChunkOffset,
    update: crate::world::ClientBlockComponentUpdate<F>,
    time: T,
    now: T,
    nothing: F,
    effect: GameEffect<F>,
)
    requires
        before.wf(),
        other != chunk,
        ClientGame::is_taken(
            before,
            after,
            player,
            NetworkMessageS2C::UpdateBlockComponents { chunk, offset, update },
            time,
            now,
            nothing,
            effect,
        ),
    ensures
        effect is Nothing,
        !before.world@.has(chunk) ==> after.world@ == before.world@,
        before.world@.has(chunk) ==> {
            &&& after.world@.has(chunk)
            &&& update.is_applied(
                offset,
                before.world@.chunk(chunk).components,
                after.world@.chunk(chunk).components,
            )
            &&& after.world@.chunk(chunk).blocks == before.world@.chunk(chunk).blocks
            &&& update is ClientBlockPlants ==> after.world@.chunk(chunk).modified
            &&& !(update is ClientBlockPlants) ==> after.world@.queue == before.world@.queue
                && after.world@.chunk(chunk).version == before.world@.chunk(chunk).version
        },
        after.world@.has(other) == before.world@.has(other),
        before.world@.has(other) ==> after.world@.chunk(other) == before.world@.chunk(other),
{
    if crate::client_world::chunk_key_spec(other) == crate::client_world::chunk_key_spec(chunk) {
        crate::client_world::law_chunk_key_unique(other, chunk);
    }
}

} // verus!
