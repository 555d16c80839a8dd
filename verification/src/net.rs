//! What client and server tell each other.

use crate::block::BlockEntry;
use crate::coord::{BlockPos, ChunkOffset, ChunkPos, Vec3};
use crate::face::Face;
use crate::inventory::ItemMoveMode;
use crate::movement::EntityPose;
use crate::palette::BlockPalette;
use crate::property::PropertyMap;
use crate::registry::{EntityKey, ItemKey, RecipeKey, ResearchKey, UIScreenKey};
use crate::scripts::ScriptValue;
use crate::world::{ClientBlockComponentUpdate, ClientChunkBlockComponents};
use lz4_flex::frame::FrameDecoder;
use std::io::Read;
use vstd::prelude::*;

verus! {

/// A number of items of one kind, as a client sees it.
pub struct ClientItem {
    pub item: ItemKey,
    pub count: u16,
    pub description: String,
}

/// The direction of a look. `F` is the type of an angle.
#[derive(Copy, Clone)]
pub struct LookDirection<F> {
    pub pitch: F,
    pub yaw: F,
}

/// What an item is used on.
#[derive(Copy, Clone)]
pub enum ItemInteractTarget {
    Empty,
    Block { position: BlockPos, face: Face },
    Entity { entity: u128 },
}

/// What an entity does with its hand.
#[derive(Copy, Clone, PartialEq, Eq, Structural, Debug)]
pub enum EntityAction {
    Attack,
    Place,
    Interact,
    Equip,
}

/// What a button does to its property.
#[derive(Copy, Clone, PartialEq, Eq, Structural, Debug)]
pub enum PropertyModifyMode {
    Add,
    Assign,
}

/// A message of a client. `F` is the type of a coordinate.
pub enum NetworkMessageC2S<F: Copy> {
    PlayerPosition {
        position: Vec3<F>,
        direction: LookDirection<F>,
        teleport_id: u32,
        pose: EntityPose,
    },
    AttackBlock { position: BlockPos, face: Face },
    PlaceBlock { position: BlockPos, face: Face, variant: usize },
    CloseUI,
    HotbarSelect { slot: usize },
    InteractBlock { position: BlockPos },
    InteractEntity { entity: u128 },
    AttackEntity { entity: u128 },
    DropItem { stack: bool },
    MoveItem { from: usize, to: usize, mode: ItemMoveMode },
    TrashItem { slot: usize, mode: ItemMoveMode },
    GiveItem { item: ItemKey, stack: bool },
    Research { research: ResearchKey, slot: usize, mode: ItemMoveMode },
    Craft { recipe: RecipeKey, count: u32 },
    OpenPlayerInventory,
    HarvestPlant { position: BlockPos, index: usize },
    ItemInteraction { target: ItemInteractTarget, variant: usize },
    UIButtonPress { property: String, value: ScriptValue, modify_mode: PropertyModifyMode },
}

/// A message of a server. `F` is the type of a coordinate, `S` that of the player's stats.
#[verifier::reject_recursive_types(F)]
pub enum NetworkMessageS2C<F: Copy, S> {
    GameTick { ticks_passed: u64, mspt: F },
    LoadChunk {
        position: ChunkPos,
        blocks: BlockPalette,
        components: ClientChunkBlockComponents<F>,
    },
    UnloadChunk { position: ChunkPos },
    SetBlock { position: BlockPos, block: BlockEntry },
    UpdateBlockComponents {
        chunk: ChunkPos,
        offset: ChunkOffset,
        update: ClientBlockComponentUpdate<F>,
    },
    AddEntity {
        uuid: u128,
        key: EntityKey,
        position: Vec3<F>,
        direction: LookDirection<F>,
        hand_item: Option<ClientItem>,
        pose: EntityPose,
    },
    MoveEntity { uuid: u128, position: Vec3<F>, direction: LookDirection<F>, pose: EntityPose },
    RemoveEntity { uuid: u128 },
    EntityHandItem { uuid: u128, item: Option<ClientItem> },
    EntityAction { entity: u128, action: EntityAction },
    SetPlayerEntity { uuid: Option<u128> },
    TeleportPlayer { position: Vec3<F>, teleport_id: u32 },
    UpdatePlayerStats { stats: S },
    UIOpen {
        screen: UIScreenKey,
        slots: Vec<Option<ClientItem>>,
        properties: PropertyMap<F>,
    },
    UISetSlot { slot: usize, item: Option<ClientItem> },
    UISetProperty { property: String, value: F },
    UIClose,
    HUDSlot { slot: usize, item: Option<ClientItem> },
    HudBarUpdate { health: F },
    Knockback { velocity: Vec3<F> },
    UpdateResearch { research: Vec<ResearchKey> },
}

impl<F: Copy, S> NetworkMessageS2C<F, S> {
    /// Whether the components of a chunk that is sent are sound.
    pub open spec fn wf(self) -> bool {
        self matches NetworkMessageS2C::LoadChunk { components, .. } ==> components.wf()
    }

    /// Whether the message is about the blocks of a chunk.
    pub fn is_block_related(&self) -> (r: bool)
        ensures
            r == (self is LoadChunk || self is UnloadChunk || self is SetBlock
                || self is UpdateBlockComponents),
    {
        match self {
            NetworkMessageS2C::LoadChunk { .. }
            | NetworkMessageS2C::UnloadChunk { .. }
            | NetworkMessageS2C::SetBlock { .. }
            | NetworkMessageS2C::UpdateBlockComponents { .. } => true,
            _ => false,
        }
    }
}

/// The settings of a channel. Its messages arrive in order, and are sent again until they do.
#[derive(Copy, Clone, PartialEq, Eq, Structural, Debug)]
pub struct ChannelSettings {
    pub channel_id: u8,
    pub max_memory_usage_bytes: usize,
    pub resend_millis: u64,
}

/// The settings of a connection.
pub struct ConnectionSettings {
    pub available_bytes_per_tick: u64,
    pub server_channels_config: Vec<ChannelSettings>,
    pub client_channels_config: Vec<ChannelSettings>,
}

/// The settings of a channel with `megabytes` of memory.
pub open spec fn channel(channel_id: u8, megabytes: int) -> ChannelSettings {
    ChannelSettings {
        channel_id,
        max_memory_usage_bytes: (megabytes * 1048576) as usize,
        resend_millis: 300,
    }
}

/// The settings of every connection: the server has a channel for blocks besides that for the rest.
pub fn make_connection_config() -> (r: ConnectionSettings)
    ensures
        r.available_bytes_per_tick == 30000,
        r.server_channels_config@ == seq![channel(0, 1), channel(1, 10)],
        r.client_channels_config@ == seq![channel(0, 1)],
{
    let mut server_channels_config: Vec<ChannelSettings> = Vec::new();
    server_channels_config.push(
        ChannelSettings { channel_id: 0, max_memory_usage_bytes: 1048576, resend_millis: 300 },
    );
    server_channels_config.push(
        ChannelSettings { channel_id: 1, max_memory_usage_bytes: 10485760, resend_millis: 300 },
    );
    let mut client_channels_config: Vec<ChannelSettings> = Vec::new();
    client_channels_config.push(
        ChannelSettings { channel_id: 0, max_memory_usage_bytes: 1048576, resend_millis: 300 },
    );
    assert(server_channels_config@ =~= seq![channel(0, 1), channel(1, 10)]);
    assert(client_channels_config@ =~= seq![channel(0, 1)]);
    ConnectionSettings {
        available_bytes_per_tick: 30000,
        server_channels_config,
        client_channels_config,
    }
}

/// How far a connection has come.
#[derive(Copy, Clone, PartialEq, Eq, Structural, Debug)]
pub enum ClientConnectionState {
    Connecting,
    Connected,
    /// The client wants to leave.
    Disconnect,
    Disconnected,
}

/// What a connection does in a step.
#[derive(Copy, Clone, PartialEq, Eq, Structural, Debug)]
pub enum ConnectionStep {
    /// Nothing but keeping the transport alive.
    Wait,
    /// Messages are sent and received.
    Exchange,
    /// The connection is closed.
    Close,
}

impl ClientConnectionState {
    /// Begins a step of a connection that still runs: the state after it and what is to be done.
    pub fn begin_step(self, is_connected: bool) -> (r: (ClientConnectionState, ConnectionStep))
        requires
            self != ClientConnectionState::Disconnected,
        ensures
            r == match self {
                ClientConnectionState::Connecting => if is_connected {
                    (ClientConnectionState::Connected, ConnectionStep::Wait)
                } else {
                    (ClientConnectionState::Connecting, ConnectionStep::Wait)
                },
                ClientConnectionState::Connected => (
                    ClientConnectionState::Connected,
                    ConnectionStep::Exchange,
                ),
                _ => (ClientConnectionState::Disconnect, ConnectionStep::Close),
            },
    {
        match self {
            ClientConnectionState::Connecting => if is_connected {
                (ClientConnectionState::Connected, ConnectionStep::Wait)
            } else {
                (ClientConnectionState::Connecting, ConnectionStep::Wait)
            },
            ClientConnectionState::Connected => (
                ClientConnectionState::Connected,
                ConnectionStep::Exchange,
            ),
            _ => (ClientConnectionState::Disconnect, ConnectionStep::Close),
        }
    }

    /// Ends a step: a lost connection is over.
    pub fn end_step(self, is_disconnected: bool) -> (r: ClientConnectionState)
        ensures
            r == if is_disconnected {
                ClientConnectionState::Disconnected
            } else {
                self
            },
    {
        if is_disconnected {
            ClientConnectionState::Disconnected
        } else {
            self
        }
    }
}

/// What the frame of compressed bytes holds; `None` if it is no such frame.
pub uninterp spec fn decompressed(bytes: Seq<u8>) -> Option<Seq<u8>>;

/// The bytes of an optional list.
pub open spec fn optional_bytes(r: Option<Vec<u8>>) -> Option<Seq<u8>> {
    match r {
        Some(bytes) => Some(bytes@),
        None => None,
    }
}

/// Decompresses a frame.
///
/// `FrameDecoder` of `lz4_flex`, read to its end: the bytes that the frame holds, or an error if it
/// holds none. The result depends on the bytes alone; what it is for given bytes is not said.
#[verifier::external_body]
fn decompress(bytes: &Vec<u8>) -> (r: Option<Vec<u8>>)
    ensures
        optional_bytes(r) == decompressed(bytes@),
{
    let mut output: Vec<u8> = Vec::new();
    match FrameDecoder::new(bytes.as_slice()).read_to_end(&mut output) {
        Ok(_) => Some(output),
        Err(_) => None,
    }
}

/// The first of the packets `0..n` that is no frame.
pub open spec fn first_broken(packets: Seq<Seq<u8>>, n: int) -> Option<int>
    decreases n,
{
    if n <= 0 {
        None
    } else {
        match first_broken(packets, n - 1) {
            Some(i) => Some(i),
            None => if decompressed(packets[n - 1]) is None {
                Some(n - 1)
            } else {
                None
            },
        }
    }
}

/// The bytes of several packets.
pub open spec fn packet_views(packets: Seq<Vec<u8>>) -> Seq<Seq<u8>> {
    packets.map_values(|packet: Vec<u8>| packet@)
}

/// The packets in the order in which they are handled: those of the first channel, then those of the
/// second.
pub fn in_order(first: Vec<Vec<u8>>, second: Vec<Vec<u8>>) -> (r: Vec<Vec<u8>>)
    ensures
        r@ == first@ + second@,
{
    let mut r = first;
    let mut second = second;
    r.append(&mut second);
    r
}

/// The messages that packets hold, still encoded; or the place of the first packet that is broken.
pub fn unpack_messages(packets: &Vec<Vec<u8>>) -> (r: Result<Vec<Vec<u8>>, usize>)
    ensures
        match r {
            Ok(messages) => {
                &&& first_broken(packet_views(packets@), packets@.len() as int) is None
                &&& messages@.len() == packets@.len()
                &&& forall|i: int|
                    0 <= i < messages@.len() ==> decompressed(packets@[i]@) == Some(
                        (#[trigger] messages@[i])@,
                    )
            },
            Err(i) => first_broken(packet_views(packets@), packets@.len() as int) == Some(i as int),
        },
{
    let mut messages: Vec<Vec<u8>> = Vec::new();
    let mut i: usize = 0;
    while i < packets.len()
        invariant
            i <= packets@.len(),
            first_broken(packet_views(packets@), i as int) is None,
            messages@.len() == i,
            forall|j: int|
                0 <= j < i ==> decompressed(packets@[j]@) == Some((#[trigger] messages@[j])@),
        decreases packets@.len() - i,
    {
        assert(packet_views(packets@)[i as int] == packets@[i as int]@);
        match decompress(&packets[i]) {
            Some(message) => {
                messages.push(message);
            },
            None => {
                proof {
                    assert(first_broken(packet_views(packets@), i + 1) == Some(i as int));
                    lemma_broken_stays(packet_views(packets@), i + 1, packets@.len() as int);
                }
                return Err(i);
            },
        }
        i += 1;
    }
    Ok(messages)
}

proof fn lemma_broken_stays(packets: Seq<Seq<u8>>, n: int, m: int)
    requires
        n <= m,
        first_broken(packets, n) is Some,
    ensures
        first_broken(packets, m) == first_broken(packets, n),
    decreases m - n,
{
    if n < m {
        lemma_broken_stays(packets, n, m - 1);
    }
}

/// The first packet that cannot be read is one that cannot be read, and all before it can; where
/// there is none, all can be read.
pub proof fn law_first_broken(packets: Seq<Seq<u8>>, n: int)
    requires
        0 <= n <= packets.len(),
    ensures
        match first_broken(packets, n) {
            Some(i) => {
                &&& 0 <= i < n
                &&& decompressed(packets[i]) is None
                &&& forall|j: int| 0 <= j < i ==> decompressed(#[trigger] packets[j]) is Some
            },
            None => forall|j: int| 0 <= j < n ==> decompressed(#[trigger] packets[j]) is Some,
        },
    decreases n,
{
    if n > 0 {
        law_first_broken(packets, n - 1);
    }
}

/// A channel has the number and the megabytes that it is made with.
pub proof fn law_channel(channel_id: u8, megabytes: int)
    requires
        0 <= megabytes <= 100,
    ensures
        channel(channel_id, megabytes).channel_id == channel_id,
        channel(channel_id, megabytes).max_memory_usage_bytes == megabytes * 1024 * 1024,
{
}

} // verus!
