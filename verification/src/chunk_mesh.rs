//! What the mesh of a chunk is made of.

use crate::block::{contains_name, BlockColor, BlockEntry, BlockKey};
use crate::client_world::{
    chunk_key, chunk_key_spec, is_inner, neighbor_chunk, neighbor_of, ClientWorld, WorldModel,
};
use crate::coord::{chunk_offset_spec, BlockPos, ChunkOffset, ChunkPos, Vec3};
use crate::face::{Face, FaceMap};
use crate::palette::BlockPalette;
use crate::plants::PlantList;
use crate::registry::{Key, KeyGroup, LoadRegistry, ModelInstance, PlantData, PlantKey, TextureData};
use crate::rotation::{law_rotation_unique, BlockRotation};
use crate::scripts::names;
use crate::vertices::{find_local_face, local_face};
use crate::world::{BlockComponentStorage, ClientBlockPlants};
use vstd::prelude::*;

verus! {

/// A model that a block shows towards neighbors with certain connectors.
pub struct BlockRenderConnection {
    pub model: ModelInstance,
    pub rotations: Vec<BlockRotation>,
    pub contain: Vec<String>,
    pub deny: Vec<String>,
    pub offset: Face,
    pub lod_hidden: bool,
}

/// How a kind of block is drawn.
pub enum BlockRenderData {
    Air,
    Full { faces: FaceMap<KeyGroup<TextureData>>, render_connectors: FaceMap<Vec<String>> },
    Model {
        model: ModelInstance,
        render_flags: u8,
        lod_hidden: bool,
        render_connectors: FaceMap<Vec<String>>,
        render_connections: Vec<BlockRenderConnection>,
    },
}

/// The names of two lists of which the second holds all of the first.
pub open spec fn holds_all(inner: Seq<Seq<char>>, outer: Seq<Seq<char>>) -> bool {
    forall|i: int| 0 <= i < inner.len() ==> outer.contains(#[trigger] inner[i])
}

/// Whether two lists have no name in common.
pub open spec fn holds_none(inner: Seq<Seq<char>>, outer: Seq<Seq<char>>) -> bool {
    forall|i: int| 0 <= i < inner.len() ==> !outer.contains(#[trigger] inner[i])
}

impl BlockRenderData {
    /// The connectors of a block that is not air.
    pub open spec fn connectors(self) -> Option<FaceMap<Vec<String>>> {
        match self {
            BlockRenderData::Air => None,
            BlockRenderData::Full { faces, render_connectors } => Some(render_connectors),
            BlockRenderData::Model {
                model,
                render_flags,
                lod_hidden,
                render_connectors,
                render_connections,
            } => Some(render_connectors),
        }
    }

    /// Whether each side of a full block has a texture.
    pub open spec fn has_textures(self, textures: LoadRegistry<TextureData>) -> bool {
        match self {
            BlockRenderData::Full { faces, render_connectors } => forall|face: Face|
                {
                    &&& (#[trigger] faces.at(face)).belongs_to(textures)
                    &&& faces.at(face).variants(textures).len() > 0
                },
            _ => true,
        }
    }

    /// Whether the block hides what lies behind it.
    pub open spec fn is_opaque(self) -> bool {
        self is Full
    }

    fn get_connectors(&self) -> (r: Option<&FaceMap<Vec<String>>>)
        ensures
            match r {
                Some(connectors) => self.connectors() == Some(*connectors),
                None => self.connectors() is None,
            },
    {
        match self {
            BlockRenderData::Air => None,
            BlockRenderData::Full { faces, render_connectors } => Some(render_connectors),
            BlockRenderData::Model {
                model,
                render_flags,
                lod_hidden,
                render_connectors,
                render_connections,
            } => Some(render_connectors),
        }
    }
}

fn has_all(inner: &Vec<String>, outer: &Vec<String>) -> (r: bool)
    ensures
        r == holds_all(names(inner@), names(outer@)),
{
    let mut i: usize = 0;
    while i < inner.len()
        invariant
            i <= inner@.len(),
            forall|j: int| 0 <= j < i ==> names(outer@).contains(#[trigger] names(inner@)[j]),
        decreases inner@.len() - i,
    {
        if !contains_name(outer, inner[i].as_str()) {
            assert(!names(outer@).contains(names(inner@)[i as int]));
            return false;
        }
        i += 1;
    }
    true
}

fn has_none(inner: &Vec<String>, outer: &Vec<String>) -> (r: bool)
    ensures
        r == holds_none(names(inner@), names(outer@)),
{
    let mut i: usize = 0;
    while i < inner.len()
        invariant
            i <= inner@.len(),
            forall|j: int| 0 <= j < i ==> !names(outer@).contains(#[trigger] names(inner@)[j]),
        decreases inner@.len() - i,
    {
        if contains_name(outer, inner[i].as_str()) {
            assert(names(outer@).contains(names(inner@)[i as int]));
            return false;
        }
        i += 1;
    }
    true
}

/// A part of the mesh of a chunk.
pub enum ChunkDraw {
    /// A leaf of a plant on a block.
    Plant { offset: ChunkOffset, plant: PlantKey, texture: Key<TextureData>, blade: u32 },
    /// A side of a full block. `local_face` is the side of the unturned block.
    Face {
        offset: ChunkOffset,
        face: Face,
        local_face: Face,
        texture: Key<TextureData>,
        rotation: BlockRotation,
        color: BlockColor,
    },
    /// The model of a block.
    Model {
        offset: ChunkOffset,
        block: BlockKey,
        rotation: BlockRotation,
        color: BlockColor,
        flags: u8,
        lod_hidden: bool,
    },
    /// The model of a connection of a block, given by its place among the block's connections.
    Connection {
        offset: ChunkOffset,
        block: BlockKey,
        connection: usize,
        rotation: BlockRotation,
        color: BlockColor,
        lod_hidden: bool,
    },
}

impl ChunkDraw {
    /// Whether the part belongs to the mesh that only near chunks show.
    pub fn is_high_res(&self) -> (r: bool)
        ensures
            r == match *self {
                ChunkDraw::Plant { .. } => true,
                ChunkDraw::Face { .. } => false,
                ChunkDraw::Model { lod_hidden, .. } => lod_hidden,
                ChunkDraw::Connection { lod_hidden, .. } => lod_hidden,
            },
    {
        match self {
            ChunkDraw::Plant { .. } => true,
            ChunkDraw::Face { .. } => false,
            ChunkDraw::Model { lod_hidden, .. } => *lod_hidden,
            ChunkDraw::Connection { lod_hidden, .. } => *lod_hidden,
        }
    }
}

/// Which corners of a leaf move in the wind: the upper ones, which come last on its front and first
/// on its back.
pub fn blade_flags(is_front: bool) -> (r: [u8; 4])
    ensures
        r@ == if is_front {
            seq![0u8, 0, 1, 1]
        } else {
            seq![1u8, 1, 0, 0]
        },
{
    let r: [u8; 4] = if is_front {
        [0, 0, 1, 1]
    } else {
        [1, 1, 0, 0]
    };
    assert(r@ =~= if is_front {
        seq![0u8, 0, 1, 1]
    } else {
        seq![1u8, 1, 0, 0]
    });
    r
}

/// A number that looks random, for a block of the world.
pub open spec fn position_hash(p: BlockPos) -> i32 {
    let hash = p.x.wrapping_mul(94839) ^ p.y.wrapping_mul(532) ^ p.z.wrapping_mul(5473);
    hash.wrapping_mul(hash).wrapping_mul(957548).wrapping_add(hash.wrapping_mul(344))
}

/// The variant of a texture that a block shows, if there are `count`.
pub open spec fn variant_index(p: BlockPos, count: int) -> usize {
    if count > 1 {
        (position_hash(p) >> 6) as usize
    } else {
        0
    }
}

fn find_variant_index(p: BlockPos, count: usize) -> (r: usize)
    ensures
        r == variant_index(p, count as int),
{
    if count > 1 {
        let hash: i32 = p.x.wrapping_mul(94839) ^ p.y.wrapping_mul(532) ^ p.z.wrapping_mul(5473);
        let hash: i32 = hash.wrapping_mul(hash).wrapping_mul(957548).wrapping_add(
            hash.wrapping_mul(344),
        );
        (hash >> 6) as usize
    } else {
        0
    }
}

/// The rotation that turns by `second` and then by `first`.
pub open spec fn composed(first: BlockRotation, second: BlockRotation) -> BlockRotation {
    choose|rotation: BlockRotation| #[trigger]
        rotation.orientation() == first.orientation().compose_spec(second.orientation())
}

fn compose(first: BlockRotation, second: BlockRotation) -> (r: BlockRotation)
    ensures
        r == composed(first, second),
{
    let r = first.compose(second);
    proof {
        law_rotation_unique(r, composed(first, second));
    }
    r
}

/// A chunk with what surrounds it, and how blocks are drawn.
pub struct ChunkSurroundings<'a> {
    pub position: ChunkPos,
    pub blocks: &'a BlockPalette,
    pub neighbors: FaceMap<Option<&'a BlockPalette>>,
    pub render_data: &'a Vec<BlockRenderData>,
    pub textures: &'a LoadRegistry<TextureData>,
}

/// Whether `s` is a chunk of the world with the neighbors that are loaded.
pub open spec fn surrounds<'a, F, B>(
    world: WorldModel<F, B>,
    position: ChunkPos,
    s: ChunkSurroundings<'a>,
) -> bool {
    &&& s.position == position
    &&& world.has(position)
    &&& s.blocks@ == world.chunk(position).blocks
    &&& forall|face: Face|
        match #[trigger] s.neighbors.at(face) {
            Some(blocks) => world.has(neighbor_chunk(position, face)) && blocks@ == world.chunk(
                neighbor_chunk(position, face),
            ).blocks,
            None => !world.has(neighbor_chunk(position, face)),
        }
}

fn blocks_of<F, B>(world: &ClientWorld<F, B>, position: ChunkPos) -> (r: Option<&BlockPalette>)
    requires
        world.wf(),
    ensures
        match r {
            Some(blocks) => world@.has(position) && blocks@ == world@.chunk(position).blocks,
            None => !world@.has(position),
        },
{
    match world.chunks.get(chunk_key(position)) {
        Some(chunk) => {
            assert(world@.chunks.contains_key(chunk_key_spec(position)));
            Some(&chunk.blocks)
        },
        None => None,
    }
}

/// A chunk of the world with the neighbors that are loaded, if the chunk is.
pub fn surroundings<'a, F, B>(
    world: &'a ClientWorld<F, B>,
    position: ChunkPos,
    render_data: &'a Vec<BlockRenderData>,
    textures: &'a LoadRegistry<TextureData>,
) -> (r: Option<ChunkSurroundings<'a>>)
    requires
        world.wf(),
        is_inner(position),
    ensures
        match r {
            Some(s) => {
                &&& surrounds(world@, position, s)
                &&& s.render_data == render_data
                &&& s.textures == textures
            },
            None => !world@.has(position),
        },
{
    let blocks = match blocks_of(world, position) {
        Some(blocks) => blocks,
        None => {
            return None;
        },
    };
    let neighbors = FaceMap {
        front: blocks_of(world, neighbor_of(position, Face::Front)),
        back: blocks_of(world, neighbor_of(position, Face::Back)),
        left: blocks_of(world, neighbor_of(position, Face::Left)),
        right: blocks_of(world, neighbor_of(position, Face::Right)),
        up: blocks_of(world, neighbor_of(position, Face::Up)),
        down: blocks_of(world, neighbor_of(position, Face::Down)),
    };
    let r = ChunkSurroundings { position, blocks, neighbors, render_data, textures };
    assert(surrounds(world@, position, r)) by {
        assert forall|face: Face|
            match #[trigger] neighbors.at(face) {
                Some(blocks) => world@.has(neighbor_chunk(position, face)) && blocks@ == world@.chunk(
                    neighbor_chunk(position, face),
                ).blocks,
                None => !world@.has(neighbor_chunk(position, face)),
            } by {
            match face {
                Face::Front => {},
                Face::Back => {},
                Face::Left => {},
                Face::Right => {},
                Face::Up => {},
                Face::Down => {},
            }
        }
    }
    Some(r)
}

/// Whether every block of a list is registered.
pub open spec fn are_registered(blocks: Seq<BlockEntry>, count: nat) -> bool {
    forall|i: int| 0 <= i < blocks.len() ==> (#[trigger] blocks[i]).block.index() < count
}

/// The place of a step of the walk through a chunk.
pub open spec fn step_offset(step: int) -> BlockPos {
    Vec3 {
        x: (step / 1024) as i32,
        y: (step / 32 % 32) as i32,
        z: (step % 32) as i32,
    }
}

/// A place of a chunk, packed.
pub open spec fn packed(p: BlockPos) -> ChunkOffset {
    ChunkOffset::packed(p.x as int, p.y as int, p.z as int)
}

/// Whether a place lies within the chunk.
pub open spec fn is_inside(p: BlockPos) -> bool {
    0 <= p.x < 32 && 0 <= p.y < 32 && 0 <= p.z < 32
}

impl<'a> ChunkSurroundings<'a> {
    /// Whether the chunk and its neighbors have all their blocks, all of them are registered, and
    /// every full block has textures.
    pub open spec fn wf(self) -> bool {
        &&& self.textures.wf()
        &&& self.blocks@.len() == 32768
        &&& are_registered(self.blocks@, self.render_data@.len())
        &&& forall|face: Face|
            (#[trigger] self.neighbors.at(face)) matches Some(blocks) ==> blocks@.len() == 32768
                && are_registered(blocks@, self.render_data@.len())
        &&& forall|i: int|
            0 <= i < self.render_data@.len() ==> (#[trigger] self.render_data@[i]).has_textures(
                *self.textures,
            )
    }

    /// How a block is drawn.
    pub open spec fn look(self, entry: BlockEntry) -> BlockRenderData {
        self.render_data@[entry.block.index()]
    }

    /// The block at a place of the chunk.
    pub open spec fn block(self, p: BlockPos) -> BlockEntry {
        self.blocks@[packed(p).0 as int]
    }

    /// The position of a place in the world.
    pub open spec fn world_position(self, p: BlockPos) -> BlockPos {
        Vec3 {
            x: (self.position.x * 32 + p.x) as i32,
            y: (self.position.y * 32 + p.y) as i32,
            z: (self.position.z * 32 + p.z) as i32,
        }
    }

    /// The block beyond a side of the one at `p`, `None` if its chunk is not known.
    pub open spec fn neighbor(self, p: BlockPos, face: Face) -> Option<BlockEntry> {
        let next = Vec3 {
            x: (p.x + face.offset().x) as i32,
            y: (p.y + face.offset().y) as i32,
            z: (p.z + face.offset().z) as i32,
        };
        if is_inside(next) {
            Some(self.block(next))
        } else {
            match self.neighbors.at(face) {
                Some(blocks) => Some(blocks@[chunk_offset_spec(next).0 as int]),
                None => None,
            }
        }
    }

    /// Whether a side of a full block can be seen: the block beyond it is not full or not known.
    pub open spec fn is_visible(self, p: BlockPos, face: Face) -> bool {
        match self.neighbor(p, face) {
            Some(next) => !self.look(next).is_opaque(),
            None => true,
        }
    }

    /// A side of a full block.
    pub open spec fn face_draw(
        self,
        p: BlockPos,
        faces: FaceMap<KeyGroup<TextureData>>,
        face: Face,
    ) -> ChunkDraw {
        let entry = self.block(p);
        let local = local_face(entry.rotation, face);
        let variants = faces.at(local).variants(*self.textures);
        let index = variant_index(self.world_position(p), variants.len() as int);
        ChunkDraw::Face {
            offset: packed(p),
            face,
            local_face: local,
            texture: variants[index as int % variants.len() as int],
            rotation: entry.rotation,
            color: entry.color,
        }
    }

    /// The visible ones of the first `n` sides of a full block.
    pub open spec fn face_draws(
        self,
        p: BlockPos,
        faces: FaceMap<KeyGroup<TextureData>>,
        n: int,
    ) -> Seq<ChunkDraw>
        decreases n,
    {
        if n <= 0 {
            Seq::empty()
        } else {
            let before = self.face_draws(p, faces, n - 1);
            let face = Face::all_spec()[n - 1];
            if self.is_visible(p, face) {
                before.push(self.face_draw(p, faces, face))
            } else {
                before
            }
        }
    }

    /// Whether a connection of the block at `p`, turned by `rotation`, meets what it needs: a known
    /// block that is not air, with all of the wanted and none of the denied connectors on the side
    /// that looks back.
    pub open spec fn connects(
        self,
        p: BlockPos,
        connection: BlockRenderConnection,
        rotation: BlockRotation,
    ) -> bool {
        let turned = composed(self.block(p).rotation, rotation);
        let side = turned.orientation().apply_spec(connection.offset);
        match self.neighbor(p, side) {
            None => false,
            Some(next) => match self.look(next).connectors() {
                None => false,
                Some(connectors) => {
                    let names_there = names(
                        connectors.at(local_face(next.rotation, side.opposite_spec()))@,
                    );
                    &&& holds_all(names(connection.contain@), names_there)
                    &&& holds_none(names(connection.deny@), names_there)
                },
            },
        }
    }

    /// The models of a connection in the first `n` of its rotations that meet what they need.
    pub open spec fn rotation_draws(
        self,
        p: BlockPos,
        connections: Seq<BlockRenderConnection>,
        connection: int,
        n: int,
    ) -> Seq<ChunkDraw>
        decreases n,
    {
        if n <= 0 {
            Seq::empty()
        } else {
            let before = self.rotation_draws(p, connections, connection, n - 1);
            let rotation = connections[connection].rotations@[n - 1];
            let entry = self.block(p);
            if self.connects(p, connections[connection], rotation) {
                before.push(
                    ChunkDraw::Connection {
                        offset: packed(p),
                        block: entry.block,
                        connection: connection as usize,
                        rotation: composed(entry.rotation, rotation),
                        color: entry.color,
                        lod_hidden: connections[connection].lod_hidden,
                    },
                )
            } else {
                before
            }
        }
    }

    /// The models of the first `n` connections.
    pub open spec fn connection_draws(
        self,
        p: BlockPos,
        connections: Seq<BlockRenderConnection>,
        n: int,
    ) -> Seq<ChunkDraw>
        decreases n,
    {
        if n <= 0 {
            Seq::empty()
        } else {
            self.connection_draws(p, connections, n - 1) + self.rotation_draws(
                p,
                connections,
                n - 1,
                connections[n - 1].rotations@.len() as int,
            )
        }
    }

    /// The parts of a block.
    pub open spec fn block_draws(self, p: BlockPos) -> Seq<ChunkDraw> {
        let entry = self.block(p);
        match self.look(entry) {
            BlockRenderData::Air => Seq::empty(),
            BlockRenderData::Full { faces, render_connectors } => self.face_draws(p, faces, 6),
            BlockRenderData::Model {
                model,
                render_flags,
                lod_hidden,
                render_connectors,
                render_connections,
            } => seq![
                ChunkDraw::Model {
                    offset: packed(p),
                    block: entry.block,
                    rotation: entry.rotation,
                    color: entry.color,
                    flags: render_flags,
                    lod_hidden,
                },
            ] + self.connection_draws(
                p,
                render_connections@,
                render_connections@.len() as int,
            ),
        }
    }

    /// The parts of the first `n` blocks of the walk through the chunk.
    pub open spec fn draws(self, n: int) -> Seq<ChunkDraw>
        decreases n,
    {
        if n <= 0 {
            Seq::empty()
        } else {
            self.draws(n - 1) + self.block_draws(step_offset(n - 1))
        }
    }

    /// The block beyond a side of the one at `p`.
    fn get_neighbor(&self, p: BlockPos, face: Face) -> (r: Option<BlockEntry>)
        requires
            self.wf(),
            is_inside(p),
        ensures
            r == self.neighbor(p, face),
            r matches Some(entry) ==> entry.block.index() < self.render_data@.len(),
    {
        let next = p + face.get_block_offset();
        let (chunk, offset) = next.to_chunk_pos_offset();
        let at = offset.index();
        proof {
            assert(0 <= chunk_offset_spec(next).0 < 32768);
            if is_inside(next) {
                assert(chunk_offset_spec(next) == packed(next));
            }
        }
        if chunk.x == 0 && chunk.y == 0 && chunk.z == 0 {
            assert(is_inside(next));
            let r = self.blocks.get(at);
            assert(self.blocks@[at as int].block.index() < self.render_data@.len());
            r
        } else {
            assert(!is_inside(next));
            match self.neighbors.by_face(face) {
                Some(blocks) => {
                    assert(self.neighbors.at(face) == Some(*blocks));
                    let r = blocks.get(at);
                    assert(blocks@[at as int].block.index() < self.render_data@.len());
                    r
                },
                None => None,
            }
        }
    }

    fn add_faces(
        &self,
        p: BlockPos,
        entry: BlockEntry,
        faces: &FaceMap<KeyGroup<TextureData>>,
        list: &mut Vec<ChunkDraw>,
    )
        requires
            self.wf(),
            is_inside(p),
            entry == self.block(p),
            self.look(entry) matches BlockRenderData::Full { faces: f, render_connectors } && f
                == *faces,
        ensures
            final(list)@ == old(list)@ + self.face_draws(p, *faces, 6),
    {
        let all = Face::all();
        let mut i: usize = 0;
        proof {
            entry.block.lemma_index_fits();
            assert(self.blocks@[packed(p).0 as int].block.index() < self.render_data@.len());
        }
        assert(list@ =~= old(list)@ + self.face_draws(p, *faces, 0));
        while i < 6
            invariant
                i <= 6,
                all@ == Face::all_spec(),
                self.wf(),
                is_inside(p),
                entry == self.block(p),
                0 <= entry.block.index() < self.render_data@.len(),
                self.look(entry) matches BlockRenderData::Full { faces: f, render_connectors } && f
                    == *faces,
                list@ == old(list)@ + self.face_draws(p, *faces, i as int),
            decreases 6 - i,
        {
            let face = all[i];
            let is_hidden = match self.get_neighbor(p, face) {
                Some(next) => match &self.render_data[next.block.numeric_id()] {
                    BlockRenderData::Full { .. } => true,
                    _ => false,
                },
                None => false,
            };
            if !is_hidden {
                let local = find_local_face(entry.rotation, face);
                let group = *faces.by_face(local);
                assert(self.render_data@[entry.block.index()].has_textures(*self.textures));
                assert(faces.at(local).belongs_to(*self.textures));
                let count = group.variant_count(self.textures);
                let index = find_variant_index(self.find_world_position(p), count);
                list.push(
                    ChunkDraw::Face {
                        offset: ChunkOffset::new(p.x as u8, p.y as u8, p.z as u8),
                        face,
                        local_face: local,
                        texture: group.variant(self.textures, index),
                        rotation: entry.rotation,
                        color: entry.color,
                    },
                );
            }
            i += 1;
            assert(list@ =~= old(list)@ + self.face_draws(p, *faces, i as int));
        }
    }

    fn find_world_position(&self, p: BlockPos) -> (r: BlockPos)
        requires
            is_inside(p),
        ensures
            r == self.world_position(p),
    {
        Vec3 {
            x: self.position.x as i32 * 32 + p.x,
            y: self.position.y as i32 * 32 + p.y,
            z: self.position.z as i32 * 32 + p.z,
        }
    }

    fn is_connected(
        &self,
        p: BlockPos,
        connection: &BlockRenderConnection,
        rotation: BlockRotation,
        turned: BlockRotation,
    ) -> (r: bool)
        requires
            self.wf(),
            is_inside(p),
            turned == composed(self.block(p).rotation, rotation),
        ensures
            r == self.connects(p, *connection, rotation),
    {
        let side = turned.rotate_face(connection.offset);
        match self.get_neighbor(p, side) {
            None => false,
            Some(next) => match self.render_data[next.block.numeric_id()].get_connectors() {
                None => false,
                Some(connectors) => {
                    let there = connectors.by_face(
                        find_local_face(next.rotation, side.opposite()),
                    );
                    has_all(&connection.contain, there) && has_none(&connection.deny, there)
                },
            },
        }
    }

    fn add_connections(
        &self,
        p: BlockPos,
        entry: BlockEntry,
        connections: &Vec<BlockRenderConnection>,
        list: &mut Vec<ChunkDraw>,
    )
        requires
            self.wf(),
            is_inside(p),
            entry == self.block(p),
        ensures
            final(list)@ == old(list)@ + self.connection_draws(
                p,
                connections@,
                connections@.len() as int,
            ),
    {
        let mut c: usize = 0;
        assert(list@ =~= old(list)@ + self.connection_draws(p, connections@, 0));
        while c < connections.len()
            invariant
                c <= connections@.len(),
                self.wf(),
                is_inside(p),
                entry == self.block(p),
                list@ == old(list)@ + self.connection_draws(p, connections@, c as int),
            decreases connections@.len() - c,
        {
            let connection = &connections[c];
            let ghost before = list@;
            let mut k: usize = 0;
            assert(list@ =~= before + self.rotation_draws(p, connections@, c as int, 0));
            while k < connection.rotations.len()
                invariant
                    c < connections@.len(),
                    *connection == connections@[c as int],
                    k <= connection.rotations@.len(),
                    self.wf(),
                    is_inside(p),
                    entry == self.block(p),
                    list@ == before + self.rotation_draws(p, connections@, c as int, k as int),
                decreases connection.rotations@.len() - k,
            {
                let rotation = connection.rotations[k];
                let turned = compose(entry.rotation, rotation);
                if self.is_connected(p, connection, rotation, turned) {
                    list.push(
                        ChunkDraw::Connection {
                            offset: ChunkOffset::new(p.x as u8, p.y as u8, p.z as u8),
                            block: entry.block,
                            connection: c,
                            rotation: turned,
                            color: entry.color,
                            lod_hidden: connection.lod_hidden,
                        },
                    );
                }
                k += 1;
                assert(list@ =~= before + self.rotation_draws(p, connections@, c as int, k as int));
            }
            c += 1;
            assert(list@ =~= old(list)@ + self.connection_draws(p, connections@, c as int));
        }
    }

    fn add_block(&self, p: BlockPos, list: &mut Vec<ChunkDraw>)
        requires
            self.wf(),
            is_inside(p),
        ensures
            final(list)@ == old(list)@ + self.block_draws(p),
    {
        let offset = ChunkOffset::new(p.x as u8, p.y as u8, p.z as u8);
        assert(offset == packed(p));
        let entry = match self.blocks.get(offset.index()) {
            Some(entry) => entry,
            None => {
                return ;
            },
        };
        assert(self.blocks@[offset.0 as int].block.index() < self.render_data@.len());
        let ghost before = list@;
        match &self.render_data[entry.block.numeric_id()] {
            BlockRenderData::Air => {
                assert(list@ =~= before + self.block_draws(p));
            },
            BlockRenderData::Full { faces, render_connectors: _ } => {
                self.add_faces(p, entry, faces, list);
            },
            BlockRenderData::Model {
                model: _,
                render_flags,
                lod_hidden,
                render_connectors: _,
                render_connections,
            } => {
                list.push(
                    ChunkDraw::Model {
                        offset,
                        block: entry.block,
                        rotation: entry.rotation,
                        color: entry.color,
                        flags: *render_flags,
                        lod_hidden: *lod_hidden,
                    },
                );
                self.add_connections(p, entry, render_connections, list);
                assert(list@ =~= before + self.block_draws(p));
            },
        }
    }

    /// The parts of all the blocks, after those that are in the list. A chunk of nothing but one
    /// kind of air has none.
    pub fn add_blocks(&self, air: BlockKey, list: &mut Vec<ChunkDraw>)
        requires
            self.wf(),
        ensures
            final(list)@ == old(list)@ + if is_only(self.blocks@, air) {
                Seq::empty()
            } else {
                self.draws(32768)
            },
    {
        let is_empty = self.blocks.unique_values() == 1 && match self.blocks.get(0) {
            Some(entry) => entry.block.same(air),
            None => false,
        };
        if is_empty {
            assert(list@ =~= old(list)@ + Seq::<ChunkDraw>::empty());
            return ;
        }
        let mut step: i32 = 0;
        assert(list@ =~= old(list)@ + self.draws(0));
        while step < 32768
            invariant
                0 <= step <= 32768,
                self.wf(),
                list@ == old(list)@ + self.draws(step as int),
            decreases 32768 - step,
        {
            let p = Vec3 { x: step / 1024, y: step / 32 % 32, z: step % 32 };
            assert(p == step_offset(step as int));
            self.add_block(p, list);
            step += 1;
            assert(list@ =~= old(list)@ + self.draws(step as int));
        }
    }
}

/// Whether every block of a chunk is the same block of one kind.
pub open spec fn is_only(blocks: Seq<BlockEntry>, block: BlockKey) -> bool {
    blocks.to_set().len() == 1 && blocks[0].block == block
}

/// The leaves of a plant.
pub open spec fn blade_draws(
    offset: ChunkOffset,
    plant: PlantKey,
    stage: u8,
    data: Seq<PlantData>,
    n: int,
) -> Seq<ChunkDraw> {
    Seq::new(
        n as nat,
        |blade: int|
            ChunkDraw::Plant {
                offset,
                plant,
                texture: data[plant.index()].stages@[stage as int],
                blade: blade as u32,
            },
    )
}

/// The leaves of the first `n` plants of a block.
pub open spec fn block_plant_draws(
    offset: ChunkOffset,
    plants: Seq<(PlantKey, u8)>,
    data: Seq<PlantData>,
    n: int,
) -> Seq<ChunkDraw>
    decreases n,
{
    if n <= 0 {
        Seq::empty()
    } else {
        let (plant, stage) = plants[n - 1];
        block_plant_draws(offset, plants, data, n - 1) + blade_draws(
            offset,
            plant,
            stage,
            data,
            data[plant.index()].blades as int,
        )
    }
}

/// The leaves of the plants of the first `n` blocks with plants.
pub open spec fn plant_draws(
    components: Seq<(ChunkOffset, ClientBlockPlants)>,
    data: Seq<PlantData>,
    n: int,
) -> Seq<ChunkDraw>
    decreases n,
{
    if n <= 0 {
        Seq::empty()
    } else {
        let (offset, plants) = components[n - 1];
        plant_draws(components, data, n - 1) + block_plant_draws(
            offset,
            plants.plants@,
            data,
            plants.plants@.len() as int,
        )
    }
}

/// Whether every plant is registered and in one of its stages.
pub open spec fn plants_are_known(plants: Seq<(PlantKey, u8)>, data: Seq<PlantData>) -> bool {
    forall|i: int|
        0 <= i < plants.len() ==> {
            &&& (#[trigger] plants[i]).0.index() < data.len()
            &&& plants[i].1 < data[plants[i].0.index()].stages@.len()
        }
}

/// Whether every plant of some blocks is registered and has the stage that it is in.
pub fn knows_plants(
    plants: &BlockComponentStorage<ClientBlockPlants>,
    data: &Vec<PlantData>,
) -> (r: bool)
    ensures
        r == forall|i: int|
            0 <= i < plants.components@.len() ==> plants_are_known(
                (#[trigger] plants.components@[i]).1.plants@,
                data@,
            ),
{
    let mut i: usize = 0;
    while i < plants.components.len()
        invariant
            i <= plants.components@.len(),
            forall|j: int|
                0 <= j < i ==> plants_are_known(
                    (#[trigger] plants.components@[j]).1.plants@,
                    data@,
                ),
        decreases plants.components@.len() - i,
    {
        let list = &plants.components[i].1.plants;
        let mut k: usize = 0;
        while k < list.len()
            invariant
                k <= list@.len(),
                i < plants.components@.len(),
                *list == plants.components@[i as int].1.plants,
                forall|j: int|
                    0 <= j < k ==> {
                        &&& (#[trigger] list@[j]).0.index() < data@.len()
                        &&& list@[j].1 < data@[list@[j].0.index()].stages@.len()
                    },
            decreases list@.len() - k,
        {
            let (plant, stage) = list.at(k);
            if plant.numeric_id() >= data.len() || stage as usize
                >= data[plant.numeric_id()].stages.len() {
                assert(list@[k as int] == (plant, stage));
                assert(!plants_are_known(plants.components@[i as int].1.plants@, data@));
                return false;
            }
            k += 1;
        }
        i += 1;
    }
    true
}

fn add_block_plants(
    offset: ChunkOffset,
    plants: &PlantList,
    data: &Vec<PlantData>,
    list: &mut Vec<ChunkDraw>,
)
    requires
        plants_are_known(plants@, data@),
    ensures
        final(list)@ == old(list)@ + block_plant_draws(
            offset,
            plants@,
            data@,
            plants@.len() as int,
        ),
{
    let mut i: usize = 0;
    assert(list@ =~= old(list)@ + block_plant_draws(offset, plants@, data@, 0));
    while i < plants.len()
        invariant
            i <= plants@.len(),
            plants_are_known(plants@, data@),
            list@ == old(list)@ + block_plant_draws(offset, plants@, data@, i as int),
        decreases plants@.len() - i,
    {
        let (plant, stage) = plants.at(i);
        assert(plants@[i as int].0.index() < data@.len());
        proof {
            plant.lemma_index_fits();
        }
        let kind = &data[plant.numeric_id()];
        let texture = kind.stages[stage as usize];
        let ghost before = list@;
        let mut blade: u32 = 0;
        assert(list@ =~= before + blade_draws(offset, plant, stage, data@, 0));
        while blade < kind.blades
            invariant
                blade <= kind.blades,
                texture == data@[plant.index()].stages@[stage as int],
                list@ == before + blade_draws(offset, plant, stage, data@, blade as int),
            decreases kind.blades - blade,
        {
            list.push(ChunkDraw::Plant { offset, plant, texture, blade });
            blade += 1;
            assert(list@ =~= before + blade_draws(offset, plant, stage, data@, blade as int));
        }
        i += 1;
        assert(list@ =~= old(list)@ + block_plant_draws(offset, plants@, data@, i as int));
    }
}

/// The parts of the mesh of a chunk: the plants, then the blocks.
pub fn build_chunk_mesh(
    surroundings: &ChunkSurroundings,
    plants: &BlockComponentStorage<ClientBlockPlants>,
    plant_data: &Vec<PlantData>,
    air: BlockKey,
) -> (r: Vec<ChunkDraw>)
    requires
        surroundings.wf(),
        forall|i: int|
            0 <= i < plants.components@.len() ==> plants_are_known(
                (#[trigger] plants.components@[i]).1.plants@,
                plant_data@,
            ),
    ensures
        r@ == plant_draws(
            plants.components@,
            plant_data@,
            plants.components@.len() as int,
        ) + if is_only(surroundings.blocks@, air) {
            Seq::empty()
        } else {
            surroundings.draws(32768)
        },
        forall|i: int| 0 <= i < r@.len() ==> shows_its_side(*surroundings, #[trigger] r@[i]),
{
    let mut list: Vec<ChunkDraw> = Vec::new();
    let mut i: usize = 0;
    while i < plants.components.len()
        invariant
            i <= plants.components@.len(),
            forall|i: int|
                0 <= i < plants.components@.len() ==> plants_are_known(
                    (#[trigger] plants.components@[i]).1.plants@,
                    plant_data@,
                ),
            list@ == plant_draws(plants.components@, plant_data@, i as int),
        decreases plants.components@.len() - i,
    {
        let entry = &plants.components[i];
        assert(plants_are_known(plants.components@[i as int].1.plants@, plant_data@));
        add_block_plants(entry.0, &entry.1.plants, plant_data, &mut list);
        i += 1;
    }
    let ghost leaves = list@;
    surroundings.add_blocks(air, &mut list);
    proof {
        assert forall|i: int| 0 <= i < list@.len() implies shows_its_side(
            *surroundings,
            #[trigger] list@[i],
        ) by {
            if i < leaves.len() {
                law_leaves_belong_to_plants(
                    plants.components@,
                    plant_data@,
                    plants.components@.len() as int,
                    i,
                );
                assert(list@[i] == leaves[i]);
            } else {
                law_sides_show_their_textures(*surroundings, i - leaves.len());
            }
        }
    }
    list
}

/// Between two full blocks nothing is drawn, from neither side.
pub proof fn law_inner_faces_are_hidden(
    surroundings: ChunkSurroundings,
    p: BlockPos,
    next: BlockPos,
    face: Face,
)
    requires
        is_inside(p),
        is_inside(next),
        next.x == p.x + face.offset().x,
        next.y == p.y + face.offset().y,
        next.z == p.z + face.offset().z,
        surroundings.look(surroundings.block(p)).is_opaque(),
        surroundings.look(surroundings.block(next)).is_opaque(),
    ensures
        !surroundings.is_visible(p, face),
        !surroundings.is_visible(next, face.opposite_spec()),
{
    assert(surroundings.neighbor(p, face) == Some(surroundings.block(next)));
    assert(surroundings.neighbor(next, face.opposite_spec()) == Some(surroundings.block(p)));
}

/// A chunk of blocks that are drawn as air has no parts.
pub proof fn law_air_has_no_parts(surroundings: ChunkSurroundings, n: int)
    requires
        0 <= n <= 32768,
        surroundings.blocks@.len() == 32768,
        forall|i: int|
            0 <= i < 32768 ==> surroundings.look(#[trigger] surroundings.blocks@[i]) is Air,
    ensures
        surroundings.draws(n) == Seq::<ChunkDraw>::empty(),
    decreases n,
{
    if n > 0 {
        law_air_has_no_parts(surroundings, n - 1);
        let p = step_offset(n - 1);
        assert(0 <= packed(p).0 < 32768);
        assert(surroundings.look(surroundings.blocks@[packed(p).0 as int]) is Air);
        assert(surroundings.draws(n) =~= Seq::<ChunkDraw>::empty());
    }
}

/// Every block of a chunk is walked once.
pub proof fn law_walk_meets_every_block(a: int, b: int)
    requires
        0 <= a < 32768,
        0 <= b < 32768,
    ensures
        is_inside(step_offset(a)),
        packed(step_offset(a)) == packed(step_offset(b)) ==> a == b,
{
    lemma_step_digits(a);
    lemma_step_digits(b);
    let p = step_offset(a);
    let q = step_offset(b);
    crate::coord::law_chunk_offset_unpacks(p.x as int, p.y as int, p.z as int);
    crate::coord::law_chunk_offset_unpacks(q.x as int, q.y as int, q.z as int);
}

proof fn lemma_step_digits(step: int)
    requires
        0 <= step < 32768,
    ensures
        ({
            let p = step_offset(step);
            is_inside(p) && step == 1024 * p.x + 32 * p.y + p.z
        }),
{
}

/// The block beyond a side of the one at an offset: the next one in the chunk, or the one at the other
/// end of the neighboring chunk, if that is known.
pub open spec fn beyond(s: ChunkSurroundings, offset: int, face: Face) -> Option<BlockEntry> {
    let (at, beside, there) = match face {
        Face::Right => (offset % 32 < 31, s.neighbors.right, 1int),
        Face::Left => (offset % 32 > 0, s.neighbors.left, -1int),
        Face::Up => (offset / 32 % 32 < 31, s.neighbors.up, 32int),
        Face::Down => (offset / 32 % 32 > 0, s.neighbors.down, -32int),
        Face::Back => (offset / 1024 < 31, s.neighbors.back, 1024int),
        Face::Front => (offset / 1024 > 0, s.neighbors.front, -1024int),
    };
    if at {
        Some(s.blocks@[offset + there])
    } else {
        match beside {
            Some(blocks) => Some(blocks@[offset - 31 * there]),
            None => None,
        }
    }
}

/// Whether nothing hides a side of the block at an offset.
pub open spec fn is_open(s: ChunkSurroundings, offset: int, face: Face) -> bool {
    beyond(s, offset, face) matches Some(next) ==> s.render_data@[next.block.index()] !is Full
}

/// Whether a texture is one of a group.
pub open spec fn is_texture_of(
    texture: Key<TextureData>,
    group: KeyGroup<TextureData>,
    textures: LoadRegistry<TextureData>,
) -> bool {
    match group {
        KeyGroup::Single(key) => texture == key,
        KeyGroup::Group(list) => textures.group_lists()[list as int].contains(texture),
        KeyGroup::Empty => false,
    }
}

/// Whether a part that is a side of a block shows what belongs there: the block at its offset is a full
/// one of that rotation and color, the side is open, the local face is the one that the rotation turns
/// to the side, and the texture is one of those that the block has for its local face.
pub open spec fn shows_its_side(s: ChunkSurroundings, part: ChunkDraw) -> bool {
    part matches ChunkDraw::Face { offset, face, local_face, texture, rotation, color } ==> {
        &&& offset.0 < 32768
        &&& s.blocks@[offset.0 as int].rotation == rotation
        &&& s.blocks@[offset.0 as int].color == color
        &&& is_open(s, offset.0 as int, face)
        &&& rotation.orientation().apply_spec(local_face) == face
        &&& s.render_data@[s.blocks@[offset.0 as int].block.index()] matches BlockRenderData::Full {
            faces,
            ..
        }
        &&& is_texture_of(
            texture,
            match local_face {
                Face::Front => faces.front,
                Face::Back => faces.back,
                Face::Left => faces.left,
                Face::Right => faces.right,
                Face::Up => faces.up,
                Face::Down => faces.down,
            },
            *s.textures,
        )
    }
}

proof fn lemma_beyond(s: ChunkSurroundings, p: BlockPos, face: Face)
    requires
        is_inside(p),
    ensures
        packed(p).0 == p.x + 32 * p.y + 1024 * p.z,
        s.neighbor(p, face) == beyond(s, packed(p).0 as int, face),
        s.is_visible(p, face) == is_open(s, packed(p).0 as int, face),
{
    let (x, y, z) = (p.x as int, p.y as int, p.z as int);
    let offset = x + 32 * y + 1024 * z;
    assert(packed(p).0 == offset);
    assert(offset % 32 == x && offset / 32 % 32 == y && offset / 1024 == z);
}

proof fn lemma_part_source(s: ChunkSurroundings, n: int, i: int) -> (from: (int, int))
    requires
        0 <= i < s.draws(n).len(),
    ensures
        0 <= from.0 < n,
        0 <= from.1 < s.block_draws(step_offset(from.0)).len(),
        s.draws(n)[i] == s.block_draws(step_offset(from.0))[from.1],
    decreases n,
{
    let before = s.draws(n - 1);
    if n > 0 && i < before.len() {
        lemma_part_source(s, n - 1, i)
    } else {
        (n - 1, i - before.len())
    }
}

proof fn lemma_part_there(s: ChunkSurroundings, n: int, step: int, j: int) -> (i: int)
    requires
        0 <= step < n,
        0 <= j < s.block_draws(step_offset(step)).len(),
    ensures
        0 <= i < s.draws(n).len(),
        s.draws(n)[i] == s.block_draws(step_offset(step))[j],
    decreases n,
{
    if step < n - 1 {
        lemma_part_there(s, n - 1, step, j)
    } else {
        s.draws(n - 1).len() + j
    }
}

proof fn lemma_face_source(
    s: ChunkSurroundings,
    p: BlockPos,
    faces: FaceMap<KeyGroup<TextureData>>,
    n: int,
    j: int,
) -> (side: int)
    requires
        0 <= j < s.face_draws(p, faces, n).len(),
    ensures
        0 <= side < n,
        s.is_visible(p, Face::all_spec()[side]),
        s.face_draws(p, faces, n)[j] == s.face_draw(p, faces, Face::all_spec()[side]),
    decreases n,
{
    let before = s.face_draws(p, faces, n - 1);
    if n > 0 && j < before.len() {
        lemma_face_source(s, p, faces, n - 1, j)
    } else {
        n - 1
    }
}

proof fn lemma_face_there(
    s: ChunkSurroundings,
    p: BlockPos,
    faces: FaceMap<KeyGroup<TextureData>>,
    n: int,
    side: int,
) -> (j: int)
    requires
        0 <= side < n,
        s.is_visible(p, Face::all_spec()[side]),
    ensures
        0 <= j < s.face_draws(p, faces, n).len(),
        s.face_draws(p, faces, n)[j] == s.face_draw(p, faces, Face::all_spec()[side]),
    decreases n,
{
    if side < n - 1 {
        lemma_face_there(s, p, faces, n - 1, side)
    } else {
        s.face_draws(p, faces, n).len() - 1
    }
}

proof fn lemma_face_draw(
    s: ChunkSurroundings,
    p: BlockPos,
    faces: FaceMap<KeyGroup<TextureData>>,
    face: Face,
)
    requires
        s.wf(),
        is_inside(p),
        s.look(s.block(p)) matches BlockRenderData::Full { faces: f, .. } && f == faces,
        s.is_visible(p, face),
    ensures
        shows_its_side(s, s.face_draw(p, faces, face)),
{
    let entry = s.block(p);
    lemma_beyond(s, p, face);
    entry.block.lemma_index_fits();
    assert(entry.block.index() < s.render_data@.len());
    assert(s.render_data@[entry.block.index()].has_textures(*s.textures));
    crate::rotation::law_orientation_wf(entry.rotation);
    crate::orientation::law_apply_bijective(entry.rotation.orientation(), face, face);
    let local = local_face(entry.rotation, face);
    assert(entry.rotation.orientation().apply_spec(local) == face);
    let group = faces.at(local);
    let variants = group.variants(*s.textures);
    assert(variants.len() > 0);
    let index = variant_index(s.world_position(p), variants.len() as int) as int;
    let place = index % variants.len() as int;
    assert(0 <= place < variants.len()) by {
        vstd::arithmetic::div_mod::lemma_mod_bound(index, variants.len() as int);
    }
    assert(variants.contains(variants[place]));
    assert(is_texture_of(variants[place], group, *s.textures));
}

/// Every side of a block in the mesh shows what belongs there. A block that is not turned shows on each
/// side the texture of that side.
pub proof fn law_sides_show_their_textures(surroundings: ChunkSurroundings, i: int)
    requires
        surroundings.wf(),
        0 <= i < surroundings.draws(32768).len(),
    ensures
        shows_its_side(surroundings, surroundings.draws(32768)[i]),
        surroundings.draws(32768)[i] matches ChunkDraw::Face {
            face,
            local_face,
            rotation: BlockRotation::FrontUp,
            ..
        } ==> local_face == face,
{
    let s = surroundings;
    let (step, j) = lemma_part_source(s, 32768, i);
    let p = step_offset(step);
    lemma_step_digits(step);
    let part = s.draws(32768)[i];
    match s.look(s.block(p)) {
        BlockRenderData::Full { faces, .. } => {
            let side = lemma_face_source(s, p, faces, 6, j);
            lemma_face_draw(s, p, faces, Face::all_spec()[side]);
            if part->Face_rotation == BlockRotation::FrontUp {
                assert(BlockRotation::FrontUp.orientation() == crate::orientation::Orientation::identity_spec());
            }
        },
        BlockRenderData::Air => {},
        BlockRenderData::Model { render_connections, .. } => {
            lemma_model_parts(s, p, j);
        },
    }
}

/// An open side of a full block is in the mesh.
pub proof fn law_open_sides_are_drawn(surroundings: ChunkSurroundings, offset: int, face: Face) -> (i:
    int)
    requires
        surroundings.wf(),
        0 <= offset < 32768,
        surroundings.render_data@[surroundings.blocks@[offset].block.index()] is Full,
        is_open(surroundings, offset, face),
    ensures
        0 <= i < surroundings.draws(32768).len(),
        surroundings.draws(32768)[i] is Face,
        surroundings.draws(32768)[i]->Face_offset.0 == offset,
        surroundings.draws(32768)[i]->Face_face == face,
{
    let s = surroundings;
    let step = step_to(offset);
    lemma_step_to(offset);
    let p = step_offset(step);
    lemma_step_digits(step);
    lemma_beyond(s, p, face);
    let faces = s.look(s.block(p))->Full_faces;
    crate::face::law_all_faces(face);
    let side = Face::all_spec().index_of(face);
    let j = lemma_face_there(s, p, faces, 6, side);
    lemma_part_there(s, 32768, step, j)
}

/// The step of the walk that comes to an offset.
pub open spec fn step_to(offset: int) -> int {
    1024 * (offset % 32) + 32 * (offset / 32 % 32) + offset / 1024
}

proof fn lemma_digits(x: int, y: int, z: int)
    requires
        0 <= x < 32,
        0 <= y < 32,
        0 <= z < 32,
    ensures
        (1024 * x + 32 * y + z) / 1024 == x,
        (1024 * x + 32 * y + z) / 32 == 32 * x + y,
        (32 * x + y) % 32 == y,
        (1024 * x + 32 * y + z) % 32 == z,
        0 <= 1024 * x + 32 * y + z < 32768,
{
}

#[verifier::spinoff_prover]
#[verifier::rlimit(40)]
proof fn lemma_step_to(offset: int)
    requires
        0 <= offset < 32768,
    ensures
        0 <= step_to(offset) < 32768,
        packed(step_offset(step_to(offset))).0 == offset,
{
    let (x, y, z) = (offset % 32, offset / 32 % 32, offset / 1024);
    let step = step_to(offset);
    let q = offset / 32;
    assert(offset == 32 * q + x);
    assert(q == 32 * (q / 32) + y);
    assert(q / 32 == z);
    lemma_digits(x, y, z);
    assert(step == 1024 * x + 32 * y + z);
    assert(step / 1024 == x && step / 32 % 32 == y && step % 32 == z);
}

/// Every block that is drawn as a model is in the mesh, as it stands in the chunk.
pub proof fn law_models_are_drawn(surroundings: ChunkSurroundings, offset: int) -> (i: int)
    requires
        surroundings.wf(),
        0 <= offset < 32768,
        surroundings.render_data@[surroundings.blocks@[offset].block.index()] is Model,
    ensures
        0 <= i < surroundings.draws(32768).len(),
        surroundings.draws(32768)[i] is Model,
        ({
            let entry = surroundings.blocks@[offset];
            let look = surroundings.render_data@[entry.block.index()];
            let part = surroundings.draws(32768)[i];
            &&& part->Model_offset.0 == offset
            &&& part->Model_block == entry.block
            &&& part->Model_rotation == entry.rotation
            &&& part->Model_color == entry.color
            &&& part->Model_flags == look->Model_render_flags
            &&& part->Model_lod_hidden == look->Model_lod_hidden
        }),
{
    let s = surroundings;
    lemma_step_to(offset);
    lemma_part_there(s, 32768, step_to(offset), 0)
}

/// Whether a part that is not a leaf belongs to a block that is drawn that way.
pub open spec fn belongs_to_its_block(s: ChunkSurroundings, part: ChunkDraw) -> bool {
    match part {
        ChunkDraw::Plant { .. } => true,
        ChunkDraw::Face { offset, .. } => {
            &&& offset.0 < 32768
            &&& s.render_data@[s.blocks@[offset.0 as int].block.index()] is Full
        },
        ChunkDraw::Model { offset, block, rotation, color, flags, lod_hidden } => {
            &&& offset.0 < 32768
            &&& block == s.blocks@[offset.0 as int].block
            &&& rotation == s.blocks@[offset.0 as int].rotation
            &&& color == s.blocks@[offset.0 as int].color
            &&& s.render_data@[block.index()] is Model
            &&& flags == s.render_data@[block.index()]->Model_render_flags
            &&& lod_hidden == s.render_data@[block.index()]->Model_lod_hidden
        },
        ChunkDraw::Connection { offset, block, connection, rotation, color, lod_hidden } => {
            &&& offset.0 < 32768
            &&& block == s.blocks@[offset.0 as int].block
            &&& color == s.blocks@[offset.0 as int].color
            &&& s.render_data@[block.index()] is Model
            &&& connection < s.render_data@[block.index()]->Model_render_connections@.len()
            &&& lod_hidden
                == s.render_data@[block.index()]->Model_render_connections@[connection as int].lod_hidden
            &&& meets(
                s,
                offset.0 as int,
                s.render_data@[block.index()]->Model_render_connections@[connection as int],
                rotation,
            )
            &&& exists|turn: BlockRotation|
                s.render_data@[block.index()]->Model_render_connections@[connection as int].rotations@.contains(
                    turn,
                ) && #[trigger] is_turned_by(s.blocks@[offset.0 as int].rotation, turn, rotation)
        },
    }
}

/// Whether a rotation turns every side by `turn` and then by `rotation`.
pub open spec fn is_turned_by(
    rotation: BlockRotation,
    turn: BlockRotation,
    turned: BlockRotation,
) -> bool {
    forall|face: Face| #[trigger]
        turned.orientation().apply_spec(face) == rotation.orientation().apply_spec(
            turn.orientation().apply_spec(face),
        )
}

/// Whether a connection of the block at an offset, turned by `turned`, meets what it needs: beyond the
/// side that it goes to there is a block, not air, and the side of that block that looks back has every
/// connector that the connection wants and none that it denies.
pub open spec fn meets(
    s: ChunkSurroundings,
    offset: int,
    connection: BlockRenderConnection,
    turned: BlockRotation,
) -> bool {
    let side = turned.orientation().apply_spec(connection.offset);
    &&& beyond(s, offset, side) matches Some(next)
    &&& s.render_data@[next.block.index()] !is Air
    &&& exists|back: Face|
        {
            &&& #[trigger] next.rotation.orientation().apply_spec(back) == side.opposite_spec()
            &&& forall|name: Seq<char>| #[trigger]
                names(connection.contain@).contains(name) ==> names(
                    connectors_at(s.render_data@[next.block.index()], back)@,
                ).contains(name)
            &&& forall|name: Seq<char>| #[trigger]
                names(connection.deny@).contains(name) ==> !names(
                    connectors_at(s.render_data@[next.block.index()], back)@,
                ).contains(name)
        }
}

/// The connectors of a side of a block that is not air.
pub open spec fn connectors_at(look: BlockRenderData, face: Face) -> Vec<String> {
    let connectors = match look {
        BlockRenderData::Full { render_connectors, .. } => render_connectors,
        _ => look->Model_render_connectors,
    };
    match face {
        Face::Front => connectors.front,
        Face::Back => connectors.back,
        Face::Left => connectors.left,
        Face::Right => connectors.right,
        Face::Up => connectors.up,
        Face::Down => connectors.down,
    }
}

proof fn lemma_composed(rotation: BlockRotation, turn: BlockRotation)
    ensures
        composed(rotation, turn).orientation() == rotation.orientation().compose_spec(
            turn.orientation(),
        ),
        is_turned_by(rotation, turn, composed(rotation, turn)),
{
    crate::rotation::law_rotations_compose(rotation, turn);
    let r = composed(rotation, turn);
    assert forall|face: Face| #[trigger]
        r.orientation().apply_spec(face) == rotation.orientation().apply_spec(
            turn.orientation().apply_spec(face),
        ) by {
        crate::rotation::law_rotate_composed_face(rotation, turn, face);
    }
}

proof fn lemma_connects(
    s: ChunkSurroundings,
    p: BlockPos,
    connection: BlockRenderConnection,
    rotation: BlockRotation,
)
    requires
        s.wf(),
        is_inside(p),
    ensures
        s.connects(p, connection, rotation) == meets(
            s,
            packed(p).0 as int,
            connection,
            composed(s.block(p).rotation, rotation),
        ),
{
    let turned = composed(s.block(p).rotation, rotation);
    let side = turned.orientation().apply_spec(connection.offset);
    lemma_beyond(s, p, side);
    let offset = packed(p).0 as int;
    if let Some(next) = beyond(s, offset, side) {
        let look = s.render_data@[next.block.index()];
        if look !is Air {
            let o = next.rotation.orientation();
            crate::rotation::law_orientation_wf(next.rotation);
            crate::orientation::law_apply_bijective(o, side.opposite_spec(), side.opposite_spec());
            let local = local_face(next.rotation, side.opposite_spec());
            assert(o.apply_spec(local) == side.opposite_spec());
            let there = names(connectors_at(look, local)@);
            assert(look.connectors() is Some);
            assert(there == names((look.connectors()->0).at(local)@));
            let contain = names(connection.contain@);
            let deny = names(connection.deny@);
            if s.connects(p, connection, rotation) {
                assert forall|name: Seq<char>| #[trigger] contain.contains(name) implies there.contains(
                    name,
                ) by {
                    let i = choose|i: int| 0 <= i < contain.len() && contain[i] == name;
                    assert(there.contains(contain[i]));
                }
                assert forall|name: Seq<char>| #[trigger] deny.contains(name) implies !there.contains(
                    name,
                ) by {
                    let i = choose|i: int| 0 <= i < deny.len() && deny[i] == name;
                    assert(!there.contains(deny[i]));
                }
            }
            if meets(s, offset, connection, turned) {
                let back = choose|back: Face|
                    {
                        &&& #[trigger] o.apply_spec(back) == side.opposite_spec()
                        &&& forall|name: Seq<char>| #[trigger]
                            contain.contains(name) ==> names(connectors_at(look, back)@).contains(
                                name,
                            )
                        &&& forall|name: Seq<char>| #[trigger]
                            deny.contains(name) ==> !names(connectors_at(look, back)@).contains(
                                name,
                            )
                    };
                crate::orientation::law_apply_bijective(o, back, local);
                assert forall|i: int| 0 <= i < contain.len() implies there.contains(
                    #[trigger] contain[i],
                ) by {
                    assert(contain.contains(contain[i]));
                }
                assert forall|i: int| 0 <= i < deny.len() implies !there.contains(
                    #[trigger] deny[i],
                ) by {
                    assert(deny.contains(deny[i]));
                }
            }
        }
    }
}

proof fn lemma_rotation_source(
    s: ChunkSurroundings,
    p: BlockPos,
    connections: Seq<BlockRenderConnection>,
    connection: int,
    n: int,
    j: int,
) -> (turn: int)
    requires
        0 <= j < s.rotation_draws(p, connections, connection, n).len(),
    ensures
        0 <= turn < n,
        s.connects(p, connections[connection], connections[connection].rotations@[turn]),
        s.rotation_draws(p, connections, connection, n)[j] == s.connection_part(
            p,
            connections,
            connection,
            turn,
        ),
    decreases n,
{
    let before = s.rotation_draws(p, connections, connection, n - 1);
    if n > 0 && j < before.len() {
        lemma_rotation_source(s, p, connections, connection, n - 1, j)
    } else {
        n - 1
    }
}

proof fn lemma_rotation_there(
    s: ChunkSurroundings,
    p: BlockPos,
    connections: Seq<BlockRenderConnection>,
    connection: int,
    n: int,
    turn: int,
) -> (j: int)
    requires
        0 <= turn < n,
        s.connects(p, connections[connection], connections[connection].rotations@[turn]),
    ensures
        0 <= j < s.rotation_draws(p, connections, connection, n).len(),
        s.rotation_draws(p, connections, connection, n)[j] == s.connection_part(
            p,
            connections,
            connection,
            turn,
        ),
    decreases n,
{
    if turn < n - 1 {
        lemma_rotation_there(s, p, connections, connection, n - 1, turn)
    } else {
        s.rotation_draws(p, connections, connection, n).len() - 1
    }
}

proof fn lemma_connection_source(
    s: ChunkSurroundings,
    p: BlockPos,
    connections: Seq<BlockRenderConnection>,
    n: int,
    j: int,
) -> (from: (int, int))
    requires
        0 <= j < s.connection_draws(p, connections, n).len(),
    ensures
        0 <= from.0 < n,
        0 <= from.1 < connections[from.0].rotations@.len(),
        s.connects(p, connections[from.0], connections[from.0].rotations@[from.1]),
        s.connection_draws(p, connections, n)[j] == s.connection_part(
            p,
            connections,
            from.0,
            from.1,
        ),
    decreases n,
{
    let before = s.connection_draws(p, connections, n - 1);
    if n > 0 && j < before.len() {
        lemma_connection_source(s, p, connections, n - 1, j)
    } else {
        let turn = lemma_rotation_source(
            s,
            p,
            connections,
            n - 1,
            connections[n - 1].rotations@.len() as int,
            j - before.len(),
        );
        (n - 1, turn)
    }
}

proof fn lemma_connection_there(
    s: ChunkSurroundings,
    p: BlockPos,
    connections: Seq<BlockRenderConnection>,
    n: int,
    connection: int,
    turn: int,
) -> (j: int)
    requires
        0 <= connection < n,
        0 <= turn < connections[connection].rotations@.len(),
        s.connects(p, connections[connection], connections[connection].rotations@[turn]),
    ensures
        0 <= j < s.connection_draws(p, connections, n).len(),
        s.connection_draws(p, connections, n)[j] == s.connection_part(
            p,
            connections,
            connection,
            turn,
        ),
    decreases n,
{
    if connection < n - 1 {
        lemma_connection_there(s, p, connections, n - 1, connection, turn)
    } else {
        let j = lemma_rotation_there(
            s,
            p,
            connections,
            n - 1,
            connections[n - 1].rotations@.len() as int,
            turn,
        );
        s.connection_draws(p, connections, n - 1).len() + j
    }
}

impl<'a> ChunkSurroundings<'a> {
    /// The model of a connection in one of its rotations.
    spec fn connection_part(
        self,
        p: BlockPos,
        connections: Seq<BlockRenderConnection>,
        connection: int,
        turn: int,
    ) -> ChunkDraw {
        ChunkDraw::Connection {
            offset: packed(p),
            block: self.block(p).block,
            connection: connection as usize,
            rotation: composed(
                self.block(p).rotation,
                connections[connection].rotations@[turn],
            ),
            color: self.block(p).color,
            lod_hidden: connections[connection].lod_hidden,
        }
    }
}

proof fn lemma_model_parts(s: ChunkSurroundings, p: BlockPos, j: int)
    requires
        s.wf(),
        is_inside(p),
        s.look(s.block(p)) is Model,
        0 <= j < s.block_draws(p).len(),
    ensures
        s.block_draws(p)[j] is Model || s.block_draws(p)[j] is Connection,
        belongs_to_its_block(s, s.block_draws(p)[j]),
{
    lemma_beyond(s, p, Face::Up);
    let connections = s.look(s.block(p))->Model_render_connections;
    if j > 0 {
        assert(connections.len() == connections@.len());
        let (connection, turn) = lemma_connection_source(
            s,
            p,
            connections@,
            connections@.len() as int,
            j - 1,
        );
        let rotation = connections@[connection].rotations@[turn];
        lemma_connects(s, p, connections@[connection], rotation);
        lemma_composed(s.block(p).rotation, rotation);
        assert(connections@[connection].rotations@.contains(rotation));
    }
}

/// Every part of the blocks of a chunk belongs to a block that is drawn that way: none to air, sides to
/// full blocks, models to blocks with a model. A connection is shown in one of its rotations, on top of
/// that of its block, and only where it meets what it needs.
pub proof fn law_parts_belong_to_blocks(surroundings: ChunkSurroundings, i: int)
    requires
        surroundings.wf(),
        0 <= i < surroundings.draws(32768).len(),
    ensures
        surroundings.draws(32768)[i] !is Plant,
        belongs_to_its_block(surroundings, surroundings.draws(32768)[i]),
{
    let s = surroundings;
    let (step, j) = lemma_part_source(s, 32768, i);
    let p = step_offset(step);
    lemma_step_digits(step);
    lemma_beyond(s, p, Face::Up);
    match s.look(s.block(p)) {
        BlockRenderData::Full { faces, .. } => {
            let side = lemma_face_source(s, p, faces, 6, j);
        },
        BlockRenderData::Air => {},
        BlockRenderData::Model { .. } => {
            lemma_model_parts(s, p, j);
        },
    }
}

/// A connection is in the mesh in every one of its rotations in which it meets what it needs.
pub proof fn law_connections_are_drawn(
    surroundings: ChunkSurroundings,
    offset: int,
    connection: int,
    turn: int,
    turned: BlockRotation,
) -> (i: int)
    requires
        surroundings.wf(),
        0 <= offset < 32768,
        ({
            let entry = surroundings.blocks@[offset];
            let look = surroundings.render_data@[entry.block.index()];
            &&& look is Model
            &&& 0 <= connection < look->Model_render_connections@.len()
            &&& 0 <= turn < look->Model_render_connections@[connection].rotations@.len()
            &&& is_turned_by(
                entry.rotation,
                look->Model_render_connections@[connection].rotations@[turn],
                turned,
            )
            &&& meets(surroundings, offset, look->Model_render_connections@[connection], turned)
        }),
    ensures
        0 <= i < surroundings.draws(32768).len(),
        surroundings.draws(32768)[i] is Connection,
        ({
            let entry = surroundings.blocks@[offset];
            let part = surroundings.draws(32768)[i];
            &&& part->Connection_offset.0 == offset
            &&& part->Connection_block == entry.block
            &&& part->Connection_connection == connection
            &&& part->Connection_rotation == turned
            &&& part->Connection_color == entry.color
        }),
{
    let s = surroundings;
    lemma_step_to(offset);
    let step = step_to(offset);
    let p = step_offset(step);
    lemma_step_digits(step);
    let connections = s.look(s.block(p))->Model_render_connections;
    assert(connections.len() == connections@.len());
    let rotation = connections@[connection].rotations@[turn];
    let r = composed(s.block(p).rotation, rotation);
    lemma_composed(s.block(p).rotation, rotation);
    assert(r == turned) by {
        assert(r.orientation().apply_spec(Face::Front) == turned.orientation().apply_spec(Face::Front));
        assert(r.orientation().apply_spec(Face::Up) == turned.orientation().apply_spec(Face::Up));
        law_rotation_unique(r, turned);
    }
    lemma_connects(s, p, connections@[connection], rotation);
    let j = lemma_connection_there(
        s,
        p,
        connections@,
        connections@.len() as int,
        connection,
        turn,
    );
    assert(s.block_draws(p)[j + 1] == s.connection_part(p, connections@, connection, turn));
    lemma_part_there(s, 32768, step, j + 1)
}

/// A chunk holds only one block exactly where all its blocks are equal and of that kind.
pub proof fn law_only_one_block(blocks: Seq<BlockEntry>, block: BlockKey)
    requires
        blocks.len() > 0,
    ensures
        is_only(blocks, block) <==> blocks[0].block == block && forall|i: int|
            0 <= i < blocks.len() ==> #[trigger] blocks[i] == blocks[0],
{
    let set = blocks.to_set();
    assert(set.contains(blocks[0]));
    vstd::seq_lib::seq_to_set_is_finite(blocks);
    if forall|i: int| 0 <= i < blocks.len() ==> #[trigger] blocks[i] == blocks[0] {
        assert(set =~= Set::empty().insert(blocks[0]));
    }
    if set.len() == 1 {
        assert forall|i: int| 0 <= i < blocks.len() implies #[trigger] blocks[i] == blocks[0] by {
            assert(set.contains(blocks[i]));
            if blocks[i] != blocks[0] {
                let rest = set.remove(blocks[0]);
                assert(rest.contains(blocks[i]));
                assert(rest.len() == 0);
            }
        }
    }
}

/// Whether a leaf belongs to a plant: the plant stands on the block at its offset, the texture is that of
/// the stage that the plant is in, and the plant has so many leaves.
pub open spec fn is_leaf_of(
    part: ChunkDraw,
    components: Seq<(ChunkOffset, ClientBlockPlants)>,
    data: Seq<PlantData>,
    block: int,
    plant: int,
) -> bool {
    &&& 0 <= block < components.len()
    &&& 0 <= plant < components[block].1.plants@.len()
    &&& part matches ChunkDraw::Plant { offset, plant: key, texture, blade }
    &&& offset == components[block].0
    &&& key == components[block].1.plants@[plant].0
    &&& texture == data[key.index()].stages@[components[block].1.plants@[plant].1 as int]
    &&& blade < data[key.index()].blades
}

proof fn lemma_block_leaf_source(
    offset: ChunkOffset,
    plants: Seq<(PlantKey, u8)>,
    data: Seq<PlantData>,
    n: int,
    i: int,
) -> (from: (int, int))
    requires
        0 <= i < block_plant_draws(offset, plants, data, n).len(),
        n <= plants.len(),
    ensures
        0 <= from.0 < n,
        0 <= from.1 < data[plants[from.0].0.index()].blades,
        block_plant_draws(offset, plants, data, n)[i] == (ChunkDraw::Plant {
            offset,
            plant: plants[from.0].0,
            texture: data[plants[from.0].0.index()].stages@[plants[from.0].1 as int],
            blade: from.1 as u32,
        }),
    decreases n,
{
    let before = block_plant_draws(offset, plants, data, n - 1);
    if n > 0 && i < before.len() {
        lemma_block_leaf_source(offset, plants, data, n - 1, i)
    } else {
        (n - 1, i - before.len())
    }
}

proof fn lemma_block_leaf_there(
    offset: ChunkOffset,
    plants: Seq<(PlantKey, u8)>,
    data: Seq<PlantData>,
    n: int,
    plant: int,
    blade: int,
) -> (i: int)
    requires
        0 <= plant < n <= plants.len(),
        0 <= blade < data[plants[plant].0.index()].blades,
    ensures
        0 <= i < block_plant_draws(offset, plants, data, n).len(),
        block_plant_draws(offset, plants, data, n)[i] == (ChunkDraw::Plant {
            offset,
            plant: plants[plant].0,
            texture: data[plants[plant].0.index()].stages@[plants[plant].1 as int],
            blade: blade as u32,
        }),
    decreases n,
{
    if plant < n - 1 {
        lemma_block_leaf_there(offset, plants, data, n - 1, plant, blade)
    } else {
        block_plant_draws(offset, plants, data, n - 1).len() + blade
    }
}

/// Every leaf in the mesh is one of a plant that stands on a block of the chunk.
pub proof fn law_leaves_belong_to_plants(
    components: Seq<(ChunkOffset, ClientBlockPlants)>,
    data: Seq<PlantData>,
    n: int,
    i: int,
)
    requires
        0 <= n <= components.len(),
        0 <= i < plant_draws(components, data, n).len(),
    ensures
        exists|block: int, plant: int| #[trigger]
            is_leaf_of(plant_draws(components, data, n)[i], components, data, block, plant),
    decreases n,
{
    let before = plant_draws(components, data, n - 1);
    if n > 0 && i < before.len() {
        law_leaves_belong_to_plants(components, data, n - 1, i);
        let (block, plant) = choose|block: int, plant: int| #[trigger]
            is_leaf_of(before[i], components, data, block, plant);
        assert(is_leaf_of(plant_draws(components, data, n)[i], components, data, block, plant));
    } else {
        let (offset, plants) = components[n - 1];
        let (plant, blade) = lemma_block_leaf_source(
            offset,
            plants.plants@,
            data,
            plants.plants@.len() as int,
            i - before.len(),
        );
        assert(is_leaf_of(plant_draws(components, data, n)[i], components, data, n - 1, plant));
    }
}

/// Every plant on a block of the chunk has all its leaves in the mesh.
pub proof fn law_plants_have_their_leaves(
    components: Seq<(ChunkOffset, ClientBlockPlants)>,
    data: Seq<PlantData>,
    n: int,
    block: int,
    plant: int,
    blade: u32,
) -> (i: int)
    requires
        0 <= block < n <= components.len(),
        0 <= plant < components[block].1.plants@.len(),
        blade < data[components[block].1.plants@[plant].0.index()].blades,
    ensures
        0 <= i < plant_draws(components, data, n).len(),
        is_leaf_of(plant_draws(components, data, n)[i], components, data, block, plant),
        plant_draws(components, data, n)[i]->Plant_blade == blade,
    decreases n,
{
    if block < n - 1 {
        law_plants_have_their_leaves(components, data, n - 1, block, plant, blade)
    } else {
        let (offset, plants) = components[n - 1];
        let j = lemma_block_leaf_there(
            offset,
            plants.plants@,
            data,
            plants.plants@.len() as int,
            plant,
            blade as int,
        );
        plant_draws(components, data, n - 1).len() + j
    }
}

/// The number of a block on an axis: the product of its coordinate and the factor of the axis, times
/// itself and a factor, and once more with another factor.
pub open spec fn mixed(product: i32) -> i32 {
    product.wrapping_mul(product).wrapping_mul(957548).wrapping_add(product.wrapping_mul(344))
}

/// Each axis has its own factor, and a block at the origin has the number 0. A texture of one variant
/// shows that one; else the six lowest bits of the number are left out.
pub proof fn law_variants(x: i32, y: i32, z: i32, p: BlockPos)
    ensures
        position_hash(Vec3 { x, y: 0, z: 0 }) == mixed(x.wrapping_mul(94839)),
        position_hash(Vec3 { x: 0, y, z: 0 }) == mixed(y.wrapping_mul(532)),
        position_hash(Vec3 { x: 0, y: 0, z }) == mixed(z.wrapping_mul(5473)),
        position_hash(Vec3 { x: 0, y: 0, z: 0 }) == 0,
        variant_index(p, 0) == 0,
        variant_index(p, 1) == 0,
        variant_index(p, 2) == (position_hash(p) >> 6) as usize,
        variant_index(p, 3) == variant_index(p, 2),
{
    let a = x.wrapping_mul(94839);
    let b = y.wrapping_mul(532);
    let c = z.wrapping_mul(5473);
    assert(a ^ 0i32 ^ 0i32 == a) by (bit_vector);
    assert(0i32 ^ b ^ 0i32 == b) by (bit_vector);
    assert(0i32 ^ 0i32 ^ c == c) by (bit_vector);
    assert(0i32 ^ 0i32 ^ 0i32 == 0i32) by (bit_vector);
    assert(0i32.wrapping_mul(94839) == 0);
    assert(0i32.wrapping_mul(532) == 0);
    assert(0i32.wrapping_mul(5473) == 0);
}

} // verus!
